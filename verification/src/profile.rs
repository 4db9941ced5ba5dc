//! The wire profiles.
//!
//! A profile is selected only through exact transport negotiation. Native QUIC
//! uses the profile's name as its ALPN; WebTransport carries the same value in
//! its protocol header.

use vstd::prelude::*;
use vstd::utf8::encode_utf8;

use crate::text::{slice_eq, str_eq};

verus! {

#[derive(Copy, Clone, Debug, PartialEq, Eq, Structural)]
pub enum WireProfile {
    Draft16,
    Draft19,
    /// The versioned draft-16 profile with mandatory bounded history.
    Blockcast01,
}

impl WireProfile {
    /// The name that a profile is negotiated by.
    pub open spec fn spec_name(self) -> Seq<char> {
        match self {
            WireProfile::Draft16 => "moqt-16"@,
            WireProfile::Draft19 => "moqt-19"@,
            WireProfile::Blockcast01 => "moqt-blockcast-01"@,
        }
    }

    /// Every profile, most preferred first.
    pub fn all() -> (r: [WireProfile; 3])
        ensures
            r@ == seq![WireProfile::Blockcast01, WireProfile::Draft19, WireProfile::Draft16],
    {
        let r = [WireProfile::Blockcast01, WireProfile::Draft19, WireProfile::Draft16];
        assert(r@ =~= seq![WireProfile::Blockcast01, WireProfile::Draft19, WireProfile::Draft16]);
        r
    }

    pub fn name(self) -> (r: &'static str)
        ensures
            r@ == self.spec_name(),
    {
        match self {
            WireProfile::Draft16 => "moqt-16",
            WireProfile::Draft19 => "moqt-19",
            WireProfile::Blockcast01 => "moqt-blockcast-01",
        }
    }

    /// What a profile is called in messages.
    pub open spec fn spec_variant(self) -> Seq<char> {
        match self {
            WireProfile::Draft16 => "Draft16"@,
            WireProfile::Draft19 => "Draft19"@,
            WireProfile::Blockcast01 => "Blockcast01"@,
        }
    }

    pub fn variant(self) -> (r: &'static str)
        ensures
            r@ == self.spec_variant(),
    {
        match self {
            WireProfile::Draft16 => "Draft16",
            WireProfile::Draft19 => "Draft19",
            WireProfile::Blockcast01 => "Blockcast01",
        }
    }

    pub fn alpn(self) -> (r: &'static [u8])
        ensures
            r@ == encode_utf8(self.spec_name()),
    {
        self.name().as_bytes()
    }

    /// The profile of exactly this name.
    pub fn from_name(name: &str) -> (r: Option<WireProfile>)
        ensures
            forall|p: WireProfile| (#[trigger] p.spec_name() == name@) <==> r == Some(p),
    {
        proof {
            law_profile_names_distinct();
        }
        let all = WireProfile::all();
        let mut i: usize = 0;
        while i < 3
            invariant
                i <= 3,
                all@ == seq![WireProfile::Blockcast01, WireProfile::Draft19, WireProfile::Draft16],
                forall|j: int| 0 <= j < i ==> (#[trigger] all@[j]).spec_name() != name@,
                forall|p: WireProfile, q: WireProfile|
                    p != q ==> #[trigger] p.spec_name() != #[trigger] q.spec_name(),
            decreases 3 - i,
        {
            if str_eq(all[i].name(), name) {
                return Some(all[i]);
            }
            i = i + 1;
        }
        assert(all@[0] == WireProfile::Blockcast01);
        assert(all@[1] == WireProfile::Draft19);
        assert(all@[2] == WireProfile::Draft16);
        None
    }

    /// The profile of exactly this ALPN.
    pub fn from_alpn(alpn: &[u8]) -> (r: Option<WireProfile>)
        ensures
            forall|p: WireProfile|
                (encode_utf8(#[trigger] p.spec_name()) == alpn@) <==> r == Some(p),
    {
        proof {
            law_profile_alpns_distinct();
        }
        let all = WireProfile::all();
        let mut i: usize = 0;
        while i < 3
            invariant
                i <= 3,
                all@ == seq![WireProfile::Blockcast01, WireProfile::Draft19, WireProfile::Draft16],
                forall|j: int|
                    0 <= j < i ==> encode_utf8((#[trigger] all@[j]).spec_name()) != alpn@,
                forall|p: WireProfile, q: WireProfile|
                    p != q ==> encode_utf8(#[trigger] p.spec_name()) != encode_utf8(
                        #[trigger] q.spec_name(),
                    ),
            decreases 3 - i,
        {
            if slice_eq(all[i].alpn(), alpn) {
                return Some(all[i]);
            }
            i = i + 1;
        }
        assert(all@[0] == WireProfile::Blockcast01);
        assert(all@[1] == WireProfile::Draft19);
        assert(all@[2] == WireProfile::Draft16);
        None
    }
}

impl Default for WireProfile {
    fn default() -> (r: WireProfile)
        ensures
            r == WireProfile::Draft16,
    {
        WireProfile::Draft16
    }
}

/// No two profiles share a name.
pub proof fn law_profile_names_distinct()
    ensures
        forall|p: WireProfile, q: WireProfile|
            p != q ==> #[trigger] p.spec_name() != #[trigger] q.spec_name(),
{
    reveal_strlit("moqt-16");
    reveal_strlit("moqt-19");
    reveal_strlit("moqt-blockcast-01");
    assert("moqt-16"@[6] == '6');
    assert("moqt-19"@[6] == '9');
}

/// No two profiles share an ALPN.
pub proof fn law_profile_alpns_distinct()
    ensures
        forall|p: WireProfile, q: WireProfile|
            p != q ==> encode_utf8(#[trigger] p.spec_name()) != encode_utf8(
                #[trigger] q.spec_name(),
            ),
{
    law_profile_names_distinct();
    assert forall|p: WireProfile, q: WireProfile| p != q implies encode_utf8(
        #[trigger] p.spec_name(),
    ) != encode_utf8(#[trigger] q.spec_name()) by {
        if encode_utf8(p.spec_name()) == encode_utf8(q.spec_name()) {
            crate::text::lemma_encode_utf8_injective(p.spec_name(), q.spec_name());
        }
    }
}

/// Every profile is negotiated under the name of its draft, or of its version.
pub proof fn law_profiles_are_named_by_their_drafts()
    ensures
        WireProfile::Draft16.spec_name() == "moqt-16"@,
        WireProfile::Draft19.spec_name() == "moqt-19"@,
        WireProfile::Blockcast01.spec_name() == "moqt-blockcast-01"@,
        WireProfile::Draft16.spec_variant() == "Draft16"@,
        WireProfile::Draft19.spec_variant() == "Draft19"@,
        WireProfile::Blockcast01.spec_variant() == "Blockcast01"@,
{
}

} // verus!
