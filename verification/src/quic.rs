//! Connecting and accepting: which profile a connection speaks, over which
//! transport, and to which address.

use vstd::prelude::*;
use vstd::utf8::encode_utf8;

use crate::profile::WireProfile;
use crate::publisher::udp::{IpAddress, SocketAddress};
use crate::text::{slice_eq, str_eq};

verus! {

/// The family of the local socket's address.
#[derive(Copy, Clone, Debug, PartialEq, Eq, Structural)]
pub enum AddressFamily {
    Ipv4,
    Ipv6,
    /// IPv6 that reaches IPv4 as well.
    Ipv6DualStack,
}

impl AddressFamily {
    pub fn describe(&self) -> (r: &'static str)
        ensures
            r@ == (match *self {
                AddressFamily::Ipv4 => "IPv4"@,
                AddressFamily::Ipv6 => "IPv6"@,
                AddressFamily::Ipv6DualStack => "IPv6 (dual stack)"@,
            }),
    {
        match self {
            AddressFamily::Ipv4 => "IPv4",
            AddressFamily::Ipv6 => "IPv6",
            AddressFamily::Ipv6DualStack => "IPv6 (dual stack)",
        }
    }
}

/// A host, by address or by name.
pub enum Host {
    Ip(IpAddress),
    Name(String),
}

/// The payload that a UDP packet of a connection may have from the start. An
/// encoded shred of 1,234 bytes fits with the transport's own overhead.
pub const INITIAL_UDP_PAYLOAD_MTU: u16 = 1280;

/// The packets that a path must let through: the payload, and the headers of IP
/// and UDP.
pub fn required_path_mtu(ip: &IpAddress) -> (r: u16)
    ensures
        r == match *ip {
            IpAddress::V4(_) => 1308u16,
            IpAddress::V6(_) => 1328u16,
        },
{
    match ip {
        IpAddress::V4(_) => INITIAL_UDP_PAYLOAD_MTU + 28,
        IpAddress::V6(_) => INITIAL_UDP_PAYLOAD_MTU + 48,
    }
}

/// How MoQ is carried.
#[derive(Copy, Clone, Debug, PartialEq, Eq, Structural)]
pub enum Transport {
    WebTransport,
    RawQuic,
}

impl Transport {
    /// The transport's metric label.
    pub open spec fn spec_label(self) -> Seq<char> {
        match self {
            Transport::WebTransport => "webtransport"@,
            Transport::RawQuic => "raw_quic"@,
        }
    }

    pub fn label(self) -> (r: &'static str)
        ensures
            r@ == self.spec_label(),
    {
        match self {
            Transport::WebTransport => "webtransport",
            Transport::RawQuic => "raw_quic",
        }
    }
}

/// Whether a name is among those offered.
pub open spec fn offers(offered: Seq<String>, name: Seq<char>) -> bool {
    exists|i: int| 0 <= i < offered.len() && (#[trigger] offered[i])@ == name
}

fn is_offered(offered: &[String], name: &str) -> (r: bool)
    ensures
        r == offers(offered@, name@),
{
    let mut i: usize = 0;
    while i < offered.len()
        invariant
            i <= offered@.len(),
            forall|j: int| 0 <= j < i ==> (#[trigger] offered@[j])@ != name@,
        decreases offered@.len() - i,
    {
        if str_eq(offered[i].as_str(), name) {
            return true;
        }
        i = i + 1;
    }
    false
}

/// The profile that a server selects: the one it prefers among those offered by
/// exactly their name.
pub open spec fn selected(
    offered: Seq<String>,
    supported: Seq<WireProfile>,
    r: Option<WireProfile>,
) -> bool {
    match r {
        Some(p) => exists|i: int|
            {
                &&& 0 <= i < supported.len()
                &&& #[trigger] supported[i] == p
                &&& offers(offered, p.spec_name())
                &&& forall|j: int|
                    0 <= j < i ==> !offers(offered, (#[trigger] supported[j]).spec_name())
            },
        None => forall|j: int|
            0 <= j < supported.len() ==> !offers(offered, (#[trigger] supported[j]).spec_name()),
    }
}

/// Selects the profile that a server speaks with a client.
pub fn select_wire_profile(offered: &[String], supported: &[WireProfile]) -> (r: Option<
    WireProfile,
>)
    ensures
        selected(offered@, supported@, r),
{
    let mut i: usize = 0;
    while i < supported.len()
        invariant
            i <= supported@.len(),
            forall|j: int|
                0 <= j < i ==> !offers(offered@, (#[trigger] supported@[j]).spec_name()),
        decreases supported@.len() - i,
    {
        let profile: WireProfile = supported[i];
        if is_offered(offered, profile.name()) {
            assert(supported@[i as int] == profile);
            return Some(profile);
        }
        i = i + 1;
    }
    None
}

/// Over WebTransport a client that offers the one profile it requires gets
/// exactly that profile from a server that speaks it, and none from any other.
pub proof fn law_web_transport_negotiation_is_exact(
    offered: Seq<String>,
    supported: Seq<WireProfile>,
    required: WireProfile,
    r: Option<WireProfile>,
)
    requires
        offered.len() == 1,
        offered[0]@ == required.spec_name(),
        selected(offered, supported, r),
    ensures
        r == if supported.contains(required) {
            Some(required)
        } else {
            None
        },
{
    crate::profile::law_profile_names_distinct();
    assert forall|p: WireProfile| offers(offered, #[trigger] p.spec_name()) implies p
        == required by {
        assert(p.spec_name() == required.spec_name());
    }
    if supported.contains(required) {
        let k = choose|k: int| 0 <= k < supported.len() && supported[k] == required;
        assert(offers(offered, supported[k].spec_name()));
    }
}

/// The peer did not select the profile that was asked for.
#[derive(Copy, Clone, Debug, PartialEq, Eq, Structural)]
pub enum ProfileMismatch {
    /// Over WebTransport: another protocol, or none.
    WebTransport { required: WireProfile },
    /// Over QUIC: no ALPN.
    MissingAlpn,
    /// Over QUIC: the ALPN of no profile.
    UnsupportedAlpn,
    /// Over QUIC: another profile.
    Native { required: WireProfile, selected: WireProfile },
}

/// Accepts exactly the protocol that was asked for.
pub fn validate_selected_profile(required: WireProfile, selected: Option<&str>) -> (r: Result<
    WireProfile,
    ProfileMismatch,
>)
    ensures
        r == if selected matches Some(s) && s@ == required.spec_name() {
            Ok::<WireProfile, ProfileMismatch>(required)
        } else {
            Err(ProfileMismatch::WebTransport { required })
        },
{
    let same: bool = match selected {
        Some(s) => str_eq(s, required.name()),
        None => false,
    };
    if !same {
        return Err(ProfileMismatch::WebTransport { required });
    }
    Ok(required)
}

/// What the check of an ALPN comes to: exactly the ALPN of the required profile
/// is accepted, and the error says what else it is.
pub open spec fn native_checked(
    required: WireProfile,
    alpn: Option<Seq<u8>>,
    r: Result<WireProfile, ProfileMismatch>,
) -> bool {
    match alpn {
        None => r == Err::<WireProfile, ProfileMismatch>(ProfileMismatch::MissingAlpn),
        Some(a) => if a == encode_utf8(required.spec_name()) {
            r == Ok::<WireProfile, ProfileMismatch>(required)
        } else {
            match r {
                Err(ProfileMismatch::UnsupportedAlpn) => forall|p: WireProfile|
                    encode_utf8(#[trigger] p.spec_name()) != a,
                Err(ProfileMismatch::Native { required: q, selected }) => q == required
                    && encode_utf8(selected.spec_name()) == a,
                _ => false,
            }
        },
    }
}

/// Accepts exactly the ALPN of the profile that was asked for.
pub fn validate_native_profile(required: WireProfile, alpn: Option<&[u8]>) -> (r: Result<
    WireProfile,
    ProfileMismatch,
>)
    ensures
        native_checked(
            required,
            match alpn {
                Some(a) => Some(a@),
                None => None,
            },
            r,
        ),
{
    let alpn: &[u8] = match alpn {
        Some(a) => a,
        None => {
            return Err(ProfileMismatch::MissingAlpn);
        },
    };
    proof {
        crate::profile::law_profile_alpns_distinct();
    }
    let selected: Option<WireProfile> = WireProfile::from_alpn(alpn);
    match selected {
        None => {
            assert forall|p: WireProfile| encode_utf8(#[trigger] p.spec_name()) != alpn@ by {
                if encode_utf8(p.spec_name()) == alpn@ {
                    assert(selected == Some(p));
                }
            }
            Err(ProfileMismatch::UnsupportedAlpn)
        },
        Some(p) => {
            assert(encode_utf8(p.spec_name()) == alpn@);
            if p != required {
                assert(encode_utf8(p.spec_name()) != encode_utf8(required.spec_name()));
                return Err(ProfileMismatch::Native { required, selected: p });
            }
            Ok(required)
        },
    }
}

/// Whether a name is that of no profile.
pub open spec fn unknown_name(name: Seq<char>) -> bool {
    forall|p: WireProfile| #[trigger] p.spec_name() != name
}

/// The metric label of what a peer offered.
pub open spec fn offered_label(offered: Seq<String>) -> Seq<char> {
    let draft19 = offers(offered, "moqt-19"@);
    let draft16 = offers(offered, "moqt-16"@);
    let unknown = exists|i: int|
        0 <= i < offered.len() && unknown_name((#[trigger] offered[i])@);
    if !unknown {
        if draft19 && draft16 {
            "moqt-19+moqt-16"@
        } else if draft19 {
            "moqt-19"@
        } else if draft16 {
            "moqt-16"@
        } else {
            "none"@
        }
    } else if !draft19 && !draft16 {
        "unknown"@
    } else {
        "known+unknown"@
    }
}

/// The metric label of what a peer offered.
pub fn offered_profiles_label(offered: &[String]) -> (r: &'static str)
    ensures
        r@ == offered_label(offered@),
{
    let draft19: bool = is_offered(offered, "moqt-19");
    let draft16: bool = is_offered(offered, "moqt-16");
    let mut unknown: bool = false;
    let mut i: usize = 0;
    while i < offered.len()
        invariant
            i <= offered@.len(),
            unknown == exists|j: int|
                0 <= j < i && unknown_name((#[trigger] offered@[j])@),
        decreases offered@.len() - i,
    {
        let found: Option<WireProfile> = WireProfile::from_name(offered[i].as_str());
        proof {
            if let Some(p) = found {
                assert(p.spec_name() == offered@[i as int]@);
            } else {
                assert forall|p: WireProfile| #[trigger] p.spec_name() != offered@[i as int]@ by {
                    if p.spec_name() == offered@[i as int]@ {
                        assert(found == Some(p));
                    }
                }
                assert(unknown_name(offered@[i as int]@));
            }
        }
        if found.is_none() {
            unknown = true;
        }
        i = i + 1;
    }
    match (draft19, draft16, unknown) {
        (false, false, false) => "none",
        (true, false, false) => "moqt-19",
        (false, true, false) => "moqt-16",
        (true, true, false) => "moqt-19+moqt-16",
        (false, false, true) => "unknown",
        _ => "known+unknown",
    }
}

/// Whether a profile is in a list.
fn has_profile(profiles: &[WireProfile], profile: WireProfile) -> (r: bool)
    ensures
        r == profiles@.contains(profile),
{
    let mut i: usize = 0;
    while i < profiles.len()
        invariant
            i <= profiles@.len(),
            forall|j: int| 0 <= j < i ==> profiles@[j] != profile,
        decreases profiles@.len() - i,
    {
        if profiles[i] == profile {
            assert(profiles@[i as int] == profile);
            return true;
        }
        i = i + 1;
    }
    false
}

/// The metric label of what this side supports.
pub open spec fn supported_label(supported: Seq<WireProfile>) -> Seq<char> {
    let draft19 = supported.contains(WireProfile::Draft19);
    let draft16 = supported.contains(WireProfile::Draft16);
    if draft19 && draft16 {
        "moqt-19+moqt-16"@
    } else if draft19 {
        "moqt-19"@
    } else if draft16 {
        "moqt-16"@
    } else {
        "none"@
    }
}

/// The metric label of what this side supports.
pub fn supported_profiles_label(supported: &[WireProfile]) -> (r: &'static str)
    ensures
        r@ == supported_label(supported@),
{
    let draft19: bool = has_profile(supported, WireProfile::Draft19);
    let draft16: bool = has_profile(supported, WireProfile::Draft16);
    match (draft19, draft16) {
        (false, false) => "none",
        (true, false) => "moqt-19",
        (false, true) => "moqt-16",
        (true, true) => "moqt-19+moqt-16",
    }
}

/// The metric label of what a peer requires.
pub open spec fn required_label(offered: Seq<String>) -> Seq<char> {
    if offered.len() == 0 {
        "none"@
    } else if offered.len() > 1 {
        "multiple"@
    } else if unknown_name(offered[0]@) {
        "unknown"@
    } else {
        offered[0]@
    }
}

/// The metric label of what a peer requires.
pub fn required_profile_label(offered: &[String]) -> (r: &'static str)
    ensures
        r@ == required_label(offered@),
{
    if offered.len() != 1 {
        return if offered.len() == 0 {
            "none"
        } else {
            "multiple"
        };
    }
    let found: Option<WireProfile> = WireProfile::from_name(offered[0].as_str());
    match found {
        Some(p) => {
            assert(p.spec_name() == offered@[0]@);
            p.name()
        },
        None => {
            assert forall|p: WireProfile| #[trigger] p.spec_name() != offered@[0]@ by {
                if p.spec_name() == offered@[0]@ {
                    assert(found == Some(p));
                }
            }
            "unknown"
        },
    }
}

/// Why a connection failed.
#[derive(Copy, Clone, Debug, PartialEq, Eq, Structural)]
pub enum ConnectFailure {
    /// The peer closed with a code of the transport.
    TransportError { code: u64 },
    Other,
}

/// The transport's code for the TLS alert that no application protocol was
/// agreed on.
pub const NO_APPLICATION_PROTOCOL: u64 = 0x178;

/// The metric label of a failed connection: only the lack of a common protocol
/// is a mismatch.
pub open spec fn failure_label(error: ConnectFailure) -> Seq<char> {
    if error == (ConnectFailure::TransportError { code: NO_APPLICATION_PROTOCOL }) {
        "mismatch"@
    } else {
        "connect_error"@
    }
}

/// The metric label of a failed connection.
pub fn connect_error_outcome(error: &ConnectFailure) -> (r: &'static str)
    ensures
        r@ == failure_label(*error),
{
    match error {
        ConnectFailure::TransportError { code } => if *code == NO_APPLICATION_PROTOCOL {
            "mismatch"
        } else {
            "connect_error"
        },
        ConnectFailure::Other => "connect_error",
    }
}

/// How a negotiation is counted.
#[derive(Copy, Clone, Debug, PartialEq, Eq)]
pub struct Negotiation {
    pub transport: &'static str,
    pub outcome: &'static str,
    pub offered: &'static str,
    pub supported: &'static str,
    pub required: &'static str,
}

/// How the connection of a client is counted: as selected, or by its failure.
/// A client offers the one profile that it requires.
pub fn client_negotiation(
    transport: Transport,
    failure: Option<ConnectFailure>,
    required: WireProfile,
    supported: &[WireProfile],
) -> (r: Negotiation)
    ensures
        r.transport@ == transport.spec_label(),
        r.outcome@ == (match failure {
            None => "selected"@,
            Some(error) => failure_label(error),
        }),
        r.offered@ == required.spec_name(),
        r.supported@ == supported_label(supported@),
        r.required@ == required.spec_name(),
{
    Negotiation {
        transport: transport.label(),
        outcome: match failure {
            None => "selected",
            Some(error) => connect_error_outcome(&error),
        },
        offered: required.name(),
        supported: supported_profiles_label(supported),
        required: required.name(),
    }
}

/// How a request is counted that offers no protocol of the server.
pub fn server_mismatch(offered: &[String], supported: &[WireProfile]) -> (r: Negotiation)
    ensures
        r.transport@ == "webtransport"@,
        r.outcome@ == "mismatch"@,
        r.offered@ == offered_label(offered@),
        r.supported@ == supported_label(supported@),
        r.required@ == required_label(offered@),
{
    Negotiation {
        transport: "webtransport",
        outcome: "mismatch",
        offered: offered_profiles_label(offered),
        supported: supported_profiles_label(supported),
        required: required_profile_label(offered),
    }
}

/// What an endpoint is set up with, apart from its socket and its keys.
pub struct Config {
    pub bind: Option<SocketAddress>,
    pub is_dual_stack: bool,
    pub tags: Vec<String>,
    /// The profiles that are spoken, most preferred first.
    pub wire_profiles: Vec<WireProfile>,
}

/// The first occurrence of each profile, in order.
pub open spec fn unique(profiles: Seq<WireProfile>) -> Seq<WireProfile>
    decreases profiles.len(),
{
    if profiles.len() == 0 {
        Seq::empty()
    } else {
        let rest = unique(profiles.drop_last());
        if rest.contains(profiles.last()) {
            rest
        } else {
            rest.push(profiles.last())
        }
    }
}

/// Configured profiles are unique, and the same as those given.
pub proof fn law_wire_profiles_are_unique(profiles: Seq<WireProfile>)
    ensures
        unique(profiles).no_duplicates(),
        forall|p: WireProfile| unique(profiles).contains(p) <==> profiles.contains(p),
    decreases profiles.len(),
{
    if profiles.len() > 0 {
        let shorter = profiles.drop_last();
        let rest = unique(shorter);
        law_wire_profiles_are_unique(shorter);
        assert forall|p: WireProfile| unique(profiles).contains(p) implies profiles.contains(p) by {
            if rest.contains(p) {
                assert(shorter.contains(p));
                let i = choose|i: int| 0 <= i < shorter.len() && shorter[i] == p;
                assert(profiles[i] == p);
            } else {
                assert(p == profiles.last());
                assert(profiles[profiles.len() - 1] == p);
            }
        }
        assert forall|p: WireProfile| profiles.contains(p) implies unique(profiles).contains(p) by {
            let i = choose|i: int| 0 <= i < profiles.len() && profiles[i] == p;
            if i < shorter.len() {
                assert(shorter[i] == p);
                assert(shorter.contains(p));
                assert(unique(shorter).contains(p));
                let k = choose|k: int| 0 <= k < rest.len() && rest[k] == p;
                assert(unique(profiles)[k] == p);
            } else if !rest.contains(p) {
                assert(unique(profiles)[rest.len() as int] == p);
            }
        }
    }
}

/// The texts of tags.
pub open spec fn tag_texts(tags: Seq<String>) -> Seq<Seq<char>> {
    tags.map_values(|t: String| t@)
}

impl Config {
    /// A configuration that speaks draft 16 alone.
    pub fn new(bind: Option<SocketAddress>, is_dual_stack: bool) -> (r: Self)
        ensures
            r.bind == bind,
            r.is_dual_stack == is_dual_stack,
            r.tags@.len() == 0,
            r.wire_profiles@ == seq![WireProfile::Draft16],
    {
        let mut wire_profiles: Vec<WireProfile> = Vec::new();
        wire_profiles.push(WireProfile::Draft16);
        assert(wire_profiles@ =~= seq![WireProfile::Draft16]);
        Config { bind, is_dual_stack, tags: Vec::new(), wire_profiles }
    }

    /// Adds a tag, once.
    pub fn with_tag(self, tag: String) -> (r: Self)
        ensures
            r.bind == self.bind,
            r.is_dual_stack == self.is_dual_stack,
            r.wire_profiles == self.wire_profiles,
            tag_texts(r.tags@) == if tag_texts(self.tags@).contains(tag@) {
                tag_texts(self.tags@)
            } else {
                tag_texts(self.tags@).push(tag@)
            },
    {
        let mut r = self;
        let mut i: usize = 0;
        while i < r.tags.len()
            invariant
                r == self,
                i <= r.tags@.len(),
                forall|j: int| 0 <= j < i ==> #[trigger] tag_texts(r.tags@)[j] != tag@,
            decreases r.tags@.len() - i,
        {
            assert(tag_texts(r.tags@)[i as int] == r.tags@[i as int]@);
            if str_eq(r.tags[i].as_str(), tag.as_str()) {
                return r;
            }
            i = i + 1;
        }
        let ghost text = tag@;
        r.tags.push(tag);
        assert(tag_texts(r.tags@) =~= tag_texts(self.tags@).push(text));
        r
    }

    /// Replaces the profiles, each kept once, in order.
    pub fn with_wire_profiles(self, profiles: &[WireProfile]) -> (r: Self)
        ensures
            r.bind == self.bind,
            r.is_dual_stack == self.is_dual_stack,
            r.tags == self.tags,
            r.wire_profiles@ == unique(profiles@),
    {
        let mut kept: Vec<WireProfile> = Vec::new();
        let mut i: usize = 0;
        assert(profiles@.take(0) =~= Seq::<WireProfile>::empty());
        while i < profiles.len()
            invariant
                i <= profiles@.len(),
                kept@ == unique(profiles@.take(i as int)),
            decreases profiles@.len() - i,
        {
            let p: WireProfile = profiles[i];
            proof {
                assert(profiles@.take(i + 1).drop_last() =~= profiles@.take(i as int));
                assert(profiles@.take(i + 1).last() == p);
            }
            if !has_profile(kept.as_slice(), p) {
                kept.push(p);
            }
            i = i + 1;
        }
        assert(profiles@.take(i as int) =~= profiles@);
        let mut r = self;
        r.wire_profiles = kept;
        r
    }

    /// The ALPNs of a server, most preferred first: WebTransport, then the
    /// profiles. Nothing, where no profile is configured.
    pub fn server_alpns(&self, web_transport: &[u8]) -> (r: Option<Vec<Vec<u8>>>)
        ensures
            self.wire_profiles@.len() == 0 ==> r is None,
            self.wire_profiles@.len() > 0 ==> {
                &&& r matches Some(list)
                &&& list@.len() == self.wire_profiles@.len() + 1
                &&& list@[0]@ == web_transport@
                &&& forall|i: int|
                    0 <= i < self.wire_profiles@.len() ==> (#[trigger] list@[i + 1])@ == encode_utf8(
                        self.wire_profiles@[i].spec_name(),
                    )
            },
    {
        if self.wire_profiles.len() == 0 {
            return None;
        }
        let mut list: Vec<Vec<u8>> = Vec::new();
        let mut first: Vec<u8> = Vec::new();
        first.extend_from_slice(web_transport);
        assert(first@ =~= web_transport@);
        list.push(first);
        let mut i: usize = 0;
        while i < self.wire_profiles.len()
            invariant
                i <= self.wire_profiles@.len(),
                list@.len() == i + 1,
                list@[0]@ == web_transport@,
                forall|j: int|
                    0 <= j < i ==> (#[trigger] list@[j + 1])@ == encode_utf8(
                        self.wire_profiles@[j].spec_name(),
                    ),
            decreases self.wire_profiles@.len() - i,
        {
            let alpn: &[u8] = self.wire_profiles[i].alpn();
            let mut copy: Vec<u8> = Vec::new();
            copy.extend_from_slice(alpn);
            assert(copy@ =~= alpn@);
            list.push(copy);
            i = i + 1;
        }
        Some(list)
    }
}

/// How an incoming connection goes on.
#[derive(Copy, Clone, Debug, PartialEq, Eq, Structural)]
pub enum Incoming {
    /// A WebTransport request follows, which names its protocols.
    WebTransport,
    /// The profile is settled.
    Raw(WireProfile),
    Unsupported,
}

/// How an incoming connection goes on, by its ALPN: that of WebTransport, that
/// of a profile, or any other.
pub open spec fn classified(alpn: Seq<u8>, web_transport: Seq<u8>, r: Incoming) -> bool {
    if alpn == web_transport {
        r == Incoming::WebTransport
    } else {
        match r {
            Incoming::WebTransport => false,
            Incoming::Raw(p) => encode_utf8(p.spec_name()) == alpn,
            Incoming::Unsupported => forall|p: WireProfile|
                encode_utf8(#[trigger] p.spec_name()) != alpn,
        }
    }
}

/// Over QUIC alone a client that requires a profile is taken for a speaker of
/// exactly that profile.
pub proof fn law_native_negotiation_is_exact(
    required: WireProfile,
    web_transport: Seq<u8>,
    r: Incoming,
)
    requires
        encode_utf8(required.spec_name()) != web_transport,
        classified(encode_utf8(required.spec_name()), web_transport, r),
    ensures
        r == Incoming::Raw(required),
        settled(Transport::RawQuic, required, None, Some(encode_utf8(required.spec_name()))),
        forall|other: WireProfile|
            other != required ==> !settled(
                Transport::RawQuic,
                other,
                None,
                Some(encode_utf8(required.spec_name())),
            ),
{
    crate::profile::law_profile_alpns_distinct();
}

/// Tells how an incoming connection goes on.
pub fn classify_incoming(alpn: &[u8], web_transport: &[u8]) -> (r: Incoming)
    ensures
        classified(alpn@, web_transport@, r),
{
    if slice_eq(alpn, web_transport) {
        return Incoming::WebTransport;
    }
    let found: Option<WireProfile> = WireProfile::from_alpn(alpn);
    match found {
        Some(p) => Incoming::Raw(p),
        None => Incoming::Unsupported,
    }
}

/// A connection that is to be made.
pub struct ConnectPlan {
    pub transport: Transport,
    pub alpn: Vec<u8>,
    pub port: u16,
}

/// Why a connection is not made.
#[derive(Copy, Clone, Debug, PartialEq, Eq, Structural)]
pub enum ConnectRefusal {
    /// The profile is not one that this side speaks.
    ProfileNotEnabled { required: WireProfile },
    UnsupportedScheme,
}

/// The port of a URL that gives none.
pub const DEFAULT_PORT: u16 = 443;

/// Plans a connection: WebTransport for an https URL, QUIC with the profile's
/// own ALPN for a moqt URL.
pub fn plan_connect(
    enabled: &[WireProfile],
    required: WireProfile,
    scheme: &str,
    port: Option<u16>,
    web_transport: &[u8],
) -> (r: Result<ConnectPlan, ConnectRefusal>)
    ensures
        if !enabled@.contains(required) {
            r matches Err(e) && e == (ConnectRefusal::ProfileNotEnabled { required })
        } else if scheme@ == "https"@ {
            &&& r matches Ok(plan)
            &&& plan.transport == Transport::WebTransport
            &&& plan.alpn@ == web_transport@
            &&& plan.port == (match port {
                Some(p) => p,
                None => DEFAULT_PORT,
            })
        } else if scheme@ == "moqt"@ {
            &&& r matches Ok(plan)
            &&& plan.transport == Transport::RawQuic
            &&& plan.alpn@ == encode_utf8(required.spec_name())
            &&& plan.port == (match port {
                Some(p) => p,
                None => DEFAULT_PORT,
            })
        } else {
            r matches Err(e) && e == ConnectRefusal::UnsupportedScheme
        },
{
    if !has_profile(enabled, required) {
        return Err(ConnectRefusal::ProfileNotEnabled { required });
    }
    let port: u16 = match port {
        Some(p) => p,
        None => DEFAULT_PORT,
    };
    let mut alpn: Vec<u8> = Vec::new();
    if str_eq(scheme, "https") {
        alpn.extend_from_slice(web_transport);
        assert(alpn@ =~= web_transport@);
        return Ok(ConnectPlan { transport: Transport::WebTransport, alpn, port });
    }
    if str_eq(scheme, "moqt") {
        let name: &[u8] = required.alpn();
        alpn.extend_from_slice(name);
        assert(alpn@ =~= name@);
        return Ok(ConnectPlan { transport: Transport::RawQuic, alpn, port });
    }
    Err(ConnectRefusal::UnsupportedScheme)
}

/// What a connection settled on: the protocol of its WebTransport response, or
/// its ALPN. A profile comes out of it only where it is the one required.
pub open spec fn settled(
    transport: Transport,
    required: WireProfile,
    protocol: Option<Seq<char>>,
    alpn: Option<Seq<u8>>,
) -> bool {
    match transport {
        Transport::WebTransport => protocol == Some(required.spec_name()),
        Transport::RawQuic => alpn == Some(encode_utf8(required.spec_name())),
    }
}

/// Accepts a connection that settled on exactly the required profile.
pub fn accept_settled(
    transport: Transport,
    required: WireProfile,
    protocol: Option<&str>,
    alpn: Option<&[u8]>,
) -> (r: Result<WireProfile, ProfileMismatch>)
    ensures
        r == Ok::<WireProfile, ProfileMismatch>(required) <==> settled(
            transport,
            required,
            match protocol {
                Some(p) => Some(p@),
                None => None,
            },
            match alpn {
                Some(a) => Some(a@),
                None => None,
            },
        ),
        r matches Ok(p) ==> p == required,
        transport == Transport::WebTransport && r is Err ==> r == Err::<
            WireProfile,
            ProfileMismatch,
        >(ProfileMismatch::WebTransport { required }),
        transport == Transport::RawQuic ==> native_checked(
            required,
            match alpn {
                Some(a) => Some(a@),
                None => None,
            },
            r,
        ),
{
    match transport {
        Transport::WebTransport => validate_selected_profile(required, protocol),
        Transport::RawQuic => validate_native_profile(required, alpn),
    }
}

/// The family of a local socket.
pub fn address_family(local: SocketAddress, is_dual_stack: bool) -> (r: AddressFamily)
    ensures
        r == match local.ip {
            IpAddress::V4(_) => AddressFamily::Ipv4,
            IpAddress::V6(_) => if is_dual_stack {
                AddressFamily::Ipv6DualStack
            } else {
                AddressFamily::Ipv6
            },
        },
{
    match local.ip {
        IpAddress::V4(_) => AddressFamily::Ipv4,
        IpAddress::V6(_) => if is_dual_stack {
            AddressFamily::Ipv6DualStack
        } else {
            AddressFamily::Ipv6
        },
    }
}

/// Why a host has no address that can be connected to.
#[derive(Copy, Clone, Debug, PartialEq, Eq, Structural)]
pub enum ResolveError {
    NoAddresses,
    NoIpv4,
    NoIpv6,
}

/// Whether a socket of a family reaches an address.
pub open spec fn reaches(family: AddressFamily, addr: SocketAddress) -> bool {
    match family {
        AddressFamily::Ipv4 => addr.ip is V4,
        AddressFamily::Ipv6 => addr.ip is V6,
        AddressFamily::Ipv6DualStack => true,
    }
}

/// Picks the first address of a host that the local socket reaches.
pub fn choose_address(addrs: &[SocketAddress], family: AddressFamily) -> (r: Result<
    SocketAddress,
    ResolveError,
>)
    ensures
        match r {
            Ok(addr) => exists|i: int|
                {
                    &&& 0 <= i < addrs@.len()
                    &&& #[trigger] addrs@[i] == addr
                    &&& reaches(family, addr)
                    &&& forall|j: int| 0 <= j < i ==> !reaches(family, #[trigger] addrs@[j])
                },
            Err(e) => {
                &&& forall|j: int| 0 <= j < addrs@.len() ==> !reaches(family, #[trigger] addrs@[j])
                &&& e == if addrs@.len() == 0 {
                    ResolveError::NoAddresses
                } else if family == AddressFamily::Ipv4 {
                    ResolveError::NoIpv4
                } else {
                    ResolveError::NoIpv6
                }
            },
        },
{
    if addrs.len() == 0 {
        return Err(ResolveError::NoAddresses);
    }
    let mut i: usize = 0;
    while i < addrs.len()
        invariant
            i <= addrs@.len(),
            forall|j: int| 0 <= j < i ==> !reaches(family, #[trigger] addrs@[j]),
        decreases addrs@.len() - i,
    {
        let addr: SocketAddress = addrs[i];
        let ok: bool = match (family, addr.ip) {
            (AddressFamily::Ipv4, IpAddress::V4(_)) => true,
            (AddressFamily::Ipv6, IpAddress::V6(_)) => true,
            (AddressFamily::Ipv6DualStack, _) => true,
            _ => false,
        };
        if ok {
            assert(addrs@[i as int] == addr);
            return Ok(addr);
        }
        i = i + 1;
    }
    match family {
        AddressFamily::Ipv4 => Err(ResolveError::NoIpv4),
        AddressFamily::Ipv6 => Err(ResolveError::NoIpv6),
        AddressFamily::Ipv6DualStack => {
            assert(reaches(family, addrs@[0]));
            Err(ResolveError::NoIpv6)
        },
    }
}

/// Whether an address is the one that is bound by default: any IPv6 address,
/// any port.
pub open spec fn is_default_bind(addr: SocketAddress) -> bool {
    addr.port == 0 && (addr.ip matches IpAddress::V6(octets) && all_zero(octets@))
}

/// Whether every byte is zero.
pub open spec fn all_zero(bytes: Seq<u8>) -> bool {
    forall|i: int| 0 <= i < bytes.len() ==> #[trigger] bytes[i] == 0
}

/// The address to bind after another one could not be bound: any IPv4 address,
/// in place of the default alone.
pub fn fallback_bind(bind: SocketAddress) -> (r: Option<SocketAddress>)
    ensures
        is_default_bind(bind) ==> (r matches Some(a) && a.port == bind.port && (a.ip
            matches IpAddress::V4(octets) && octets@ == seq![0u8, 0, 0, 0])),
        !is_default_bind(bind) ==> r is None,
{
    if bind.port != 0 {
        return None;
    }
    match bind.ip {
        IpAddress::V4(_) => None,
        IpAddress::V6(octets) => {
            let mut i: usize = 0;
            while i < 16
                invariant
                    i <= 16,
                    bind.port == 0,
                    bind.ip == IpAddress::V6(octets),
                    forall|j: int| 0 <= j < i ==> octets@[j] == 0,
                decreases 16 - i,
            {
                if octets[i] != 0 {
                    assert(octets@[i as int] != 0);
                    return None;
                }
                i = i + 1;
            }
            let any: [u8; 4] = [0, 0, 0, 0];
            assert(any@ =~= seq![0u8, 0, 0, 0]);
            Some(SocketAddress { ip: IpAddress::V4(any), port: bind.port })
        },
    }
}

/// A server selects a profile exactly where it speaks one that was offered by its
/// name, and then none that it prefers less than another one that was offered.
pub proof fn law_server_prefers_its_own_order(
    offered: Seq<String>,
    supported: Seq<WireProfile>,
    r: Option<WireProfile>,
    i: int,
    k: int,
)
    requires
        selected(offered, supported, r),
        0 <= i < supported.len(),
        0 <= k < offered.len(),
        offered[k]@ == supported[i].spec_name(),
    ensures
        r is Some,
        exists|j: int| 0 <= j <= i && #[trigger] supported[j] == r->0,
        exists|m: int| 0 <= m < offered.len() && (#[trigger] offered[m])@ == (r->0).spec_name(),
{
    assert(offers(offered, supported[i].spec_name()));
    let j = choose|j: int|
        {
            &&& 0 <= j < supported.len()
            &&& #[trigger] supported[j] == r->0
            &&& offers(offered, (r->0).spec_name())
            &&& forall|m: int|
                0 <= m < j ==> !offers(offered, (#[trigger] supported[m]).spec_name())
        };
    if i < j {
        assert(!offers(offered, supported[i].spec_name()));
    }
}

/// A server selects nothing that was not offered to it, or that it does not
/// speak.
pub proof fn law_server_selects_what_was_offered(
    offered: Seq<String>,
    supported: Seq<WireProfile>,
    r: Option<WireProfile>,
)
    requires
        selected(offered, supported, r),
    ensures
        r matches Some(p) ==> supported.contains(p) && exists|m: int|
            0 <= m < offered.len() && (#[trigger] offered[m])@ == p.spec_name(),
        offered.len() == 0 ==> r is None,
        supported.len() == 0 ==> r is None,
{
}

/// Only the ALPN of the profile that was asked for is accepted; the ALPN of
/// another profile is told from that of none, and from the lack of one.
pub proof fn law_alpn_must_be_the_required_one(
    required: WireProfile,
    other: WireProfile,
    alpn: Option<Seq<u8>>,
    r: Result<WireProfile, ProfileMismatch>,
)
    requires
        native_checked(required, alpn, r),
    ensures
        alpn is None ==> r == Err::<WireProfile, ProfileMismatch>(ProfileMismatch::MissingAlpn),
        (r is Ok) == (alpn == Some(encode_utf8(required.spec_name()))),
        r matches Ok(p) ==> p == required,
        other != required && alpn == Some(encode_utf8(other.spec_name())) ==> r == Err::<
            WireProfile,
            ProfileMismatch,
        >(ProfileMismatch::Native { required, selected: other }),
        alpn is Some && (forall|p: WireProfile| encode_utf8(#[trigger] p.spec_name()) != alpn->0)
            ==> r == Err::<WireProfile, ProfileMismatch>(ProfileMismatch::UnsupportedAlpn),
{
    crate::profile::law_profile_alpns_distinct();
    if other != required && alpn == Some(encode_utf8(other.spec_name())) {
        assert(encode_utf8(other.spec_name()) != encode_utf8(required.spec_name()));
        match r {
            Err(ProfileMismatch::Native { selected, .. }) => {
                if selected != other {
                    assert(encode_utf8(selected.spec_name()) != encode_utf8(other.spec_name()));
                }
            },
            _ => {},
        }
    }
}

/// An incoming connection is a WebTransport one exactly by that ALPN, speaks a
/// profile exactly by the profile's, and is not supported else.
pub proof fn law_incoming_is_told_by_its_alpn(
    alpn: Seq<u8>,
    web_transport: Seq<u8>,
    profile: WireProfile,
    r: Incoming,
)
    requires
        classified(alpn, web_transport, r),
    ensures
        (r == Incoming::WebTransport) == (alpn == web_transport),
        alpn != web_transport ==> (r == Incoming::Raw(profile)) == (alpn == encode_utf8(
            profile.spec_name(),
        )),
        alpn != web_transport ==> (r == Incoming::Unsupported) == (forall|p: WireProfile|
            encode_utf8(#[trigger] p.spec_name()) != alpn),
{
    crate::profile::law_profile_alpns_distinct();
    if alpn != web_transport {
        if let Incoming::Raw(p) = r {
            if p != profile {
                assert(encode_utf8(p.spec_name()) != encode_utf8(profile.spec_name()));
            }
            assert(encode_utf8(p.spec_name()) == alpn);
        }
    }
}

/// A connection settles on a profile by the protocol of the response over
/// WebTransport, whatever its ALPN, and by its ALPN over QUIC, whatever protocol
/// was named; and on one profile only.
pub proof fn law_connection_settles_on_one_profile(
    a: WireProfile,
    b: WireProfile,
    protocol: Option<Seq<char>>,
    alpn: Option<Seq<u8>>,
)
    ensures
        settled(Transport::WebTransport, a, protocol, alpn) == (protocol == Some(a.spec_name())),
        settled(Transport::RawQuic, a, protocol, alpn) == (alpn == Some(
            encode_utf8(a.spec_name()),
        )),
        settled(Transport::WebTransport, a, protocol, alpn) && settled(
            Transport::WebTransport,
            b,
            protocol,
            alpn,
        ) ==> a == b,
        settled(Transport::RawQuic, a, protocol, alpn) && settled(
            Transport::RawQuic,
            b,
            protocol,
            alpn,
        ) ==> a == b,
{
    crate::profile::law_profile_names_distinct();
    crate::profile::law_profile_alpns_distinct();
    if a != b {
        assert(a.spec_name() != b.spec_name());
        assert(encode_utf8(a.spec_name()) != encode_utf8(b.spec_name()));
    }
}

/// The metric labels say which of the two drafts were offered, and whether
/// anything else was.
pub proof fn law_offer_is_labelled_by_what_is_in_it(offered: Seq<String>)
    ensures
        ({
            let label = offered_label(offered);
            let nineteen = exists|i: int|
                0 <= i < offered.len() && (#[trigger] offered[i])@ == "moqt-19"@;
            let sixteen = exists|i: int|
                0 <= i < offered.len() && (#[trigger] offered[i])@ == "moqt-16"@;
            let unknown = exists|i: int|
                0 <= i < offered.len() && unknown_name((#[trigger] offered[i])@);
            &&& !unknown && nineteen && sixteen ==> label == "moqt-19+moqt-16"@
            &&& !unknown && nineteen && !sixteen ==> label == "moqt-19"@
            &&& !unknown && !nineteen && sixteen ==> label == "moqt-16"@
            &&& !unknown && !nineteen && !sixteen ==> label == "none"@
            &&& unknown && !nineteen && !sixteen ==> label == "unknown"@
            &&& unknown && (nineteen || sixteen) ==> label == "known+unknown"@
        }),
        offered.len() == 0 ==> required_label(offered) == "none"@,
        offered.len() > 1 ==> required_label(offered) == "multiple"@,
        offered.len() == 1 && unknown_name(offered[0]@) ==> required_label(offered) == "unknown"@,
        offered.len() == 1 && !unknown_name(offered[0]@) ==> required_label(offered)
            == offered[0]@,
{
}

/// What this side supports is labelled by the drafts in it.
pub proof fn law_support_is_labelled_by_what_is_in_it(supported: Seq<WireProfile>)
    ensures
        ({
            let nineteen = supported.contains(WireProfile::Draft19);
            let sixteen = supported.contains(WireProfile::Draft16);
            &&& nineteen && sixteen ==> supported_label(supported) == "moqt-19+moqt-16"@
            &&& nineteen && !sixteen ==> supported_label(supported) == "moqt-19"@
            &&& !nineteen && sixteen ==> supported_label(supported) == "moqt-16"@
            &&& !nineteen && !sixteen ==> supported_label(supported) == "none"@
        }),
        Transport::WebTransport.spec_label() == "webtransport"@,
        Transport::RawQuic.spec_label() == "raw_quic"@,
{
}

/// Of all the failures of a connection only the lack of a common protocol counts
/// as a mismatch.
pub proof fn law_only_lack_of_a_protocol_is_a_mismatch(error: ConnectFailure)
    ensures
        error matches ConnectFailure::TransportError { code } && code == 0x178
            ==> failure_label(error) == "mismatch"@,
        !(error matches ConnectFailure::TransportError { code } && code == 0x178)
            ==> failure_label(error) == "connect_error"@,
{
}

/// Of profiles that are given twice the first place counts: what comes first
/// among those given comes first among those kept.
pub proof fn law_unique_profiles_keep_their_order(profiles: Seq<WireProfile>, i: int, j: int)
    requires
        0 <= i < j < profiles.len(),
        forall|k: int| 0 <= k < j ==> #[trigger] profiles[k] != profiles[j],
    ensures
        exists|a: int, b: int|
            0 <= a < b < unique(profiles).len() && #[trigger] unique(profiles)[a] == profiles[i]
                && #[trigger] unique(profiles)[b] == profiles[j],
    decreases profiles.len(),
{
    let shorter = profiles.drop_last();
    let rest = unique(shorter);
    let all = unique(profiles);
    if j < profiles.len() - 1 {
        assert forall|k: int| 0 <= k < j implies #[trigger] shorter[k] != shorter[j] by {
            assert(profiles[k] != profiles[j]);
        }
        law_unique_profiles_keep_their_order(shorter, i, j);
        let (a, b) = choose|a: int, b: int|
            0 <= a < b < rest.len() && #[trigger] rest[a] == shorter[i] && #[trigger] rest[b]
                == shorter[j];
        assert(all[a] == profiles[i]);
        assert(all[b] == profiles[j]);
    } else {
        law_wire_profiles_are_unique(shorter);
        assert(!shorter.contains(profiles[j])) by {
            if shorter.contains(profiles[j]) {
                let k = choose|k: int| 0 <= k < shorter.len() && shorter[k] == profiles[j];
                assert(profiles[k] != profiles[j]);
            }
        }
        assert(!rest.contains(profiles[j]));
        assert(shorter[i] == profiles[i]);
        assert(shorter.contains(profiles[i]));
        assert(rest.contains(profiles[i]));
        let a = choose|a: int| 0 <= a < rest.len() && rest[a] == profiles[i];
        assert(all[a] == profiles[i]);
        assert(all[rest.len() as int] == profiles[j]);
    }
}

/// A socket reaches the addresses of its own family; a dual-stack one reaches
/// all.
pub proof fn law_sockets_reach_their_family(addr: SocketAddress)
    ensures
        reaches(AddressFamily::Ipv4, addr) == (addr.ip is V4),
        reaches(AddressFamily::Ipv6, addr) == (addr.ip is V6),
        reaches(AddressFamily::Ipv6DualStack, addr),
        is_default_bind(addr) ==> addr.port == 0 && addr.ip is V6,
{
}

} // verus!
