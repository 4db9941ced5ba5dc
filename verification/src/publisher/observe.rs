//! What a publisher exposes of itself: its metrics exporter and its profiles.

use vstd::prelude::*;

use crate::text::{slice_eq, str_contains};
use vstd::utf8::encode_utf8;

verus! {

/// What to do about an exporter that a flag asks for.
#[derive(Copy, Clone, Debug, PartialEq, Eq, Structural)]
pub enum ExporterAction {
    /// It is not asked for.
    Nothing,
    /// An exporter is installed already; there can be only one.
    Ignore,
    Install,
    /// The exporter was not compiled in.
    Unavailable,
}

/// Reconciles an exporter that a flag asks for with one that the environment
/// has installed.
pub fn flag_exporter_action(flag_set: bool, env_installed: bool, compiled_in: bool) -> (r:
    ExporterAction)
    ensures
        r == if !flag_set {
            ExporterAction::Nothing
        } else if !compiled_in {
            ExporterAction::Unavailable
        } else if env_installed {
            ExporterAction::Ignore
        } else {
            ExporterAction::Install
        },
        r is Install ==> !env_installed,
{
    if !flag_set {
        return ExporterAction::Nothing;
    }
    if !compiled_in {
        return ExporterAction::Unavailable;
    }
    if env_installed {
        return ExporterAction::Ignore;
    }
    ExporterAction::Install
}

/// The bytes of active pages that are free to be used again.
pub fn reusable_active_bytes(active: u64, allocated: u64) -> (r: u64)
    ensures
        r == if allocated < active {
            (active - allocated) as u64
        } else {
            0
        },
{
    active.saturating_sub(allocated)
}

/// What a request for a profile asks for.
#[derive(Copy, Clone, Debug, PartialEq, Eq, Structural)]
pub enum ProfileRoute {
    Heap,
    Allocator,
    Cpu { seconds: u64, flamegraph: bool },
}

/// Where a byte string first occurs, at or after a place.
pub open spec fn occurs_at(s: Seq<u8>, pattern: Seq<u8>, i: int) -> bool {
    0 <= i <= s.len() - pattern.len() && s.subrange(i, i + pattern.len()) == pattern
}

fn starts_at(s: &[u8], pattern: &[u8], i: usize) -> (r: bool)
    requires
        i <= s@.len(),
    ensures
        r == occurs_at(s@, pattern@, i as int),
{
    let n: usize = pattern.len();
    if s.len() - i < n {
        return false;
    }
    let part: &[u8] = vstd::slice::slice_subrange(s, i, i + n);
    slice_eq(part, pattern)
}

/// The first place of a byte string, or the length.
pub open spec fn first_place(s: Seq<u8>, pattern: Seq<u8>, from: int) -> int
    decreases s.len() - from,
{
    if from >= s.len() {
        s.len() as int
    } else if occurs_at(s, pattern, from) {
        from
    } else {
        first_place(s, pattern, from + 1)
    }
}

fn find_from(s: &[u8], pattern: &[u8], from: usize) -> (r: usize)
    requires
        from <= s@.len(),
        pattern@.len() > 0,
    ensures
        r == first_place(s@, pattern@, from as int),
        from <= r <= s@.len(),
        r < s@.len() ==> occurs_at(s@, pattern@, r as int),
{
    let n: usize = s.len();
    let mut i: usize = from;
    while i < n
        invariant
            from <= i <= n == s@.len(),
            first_place(s@, pattern@, from as int) == first_place(s@, pattern@, i as int),
        decreases n - i,
    {
        if starts_at(s, pattern, i) {
            return i;
        }
        i = i + 1;
    }
    i
}

/// The number that decimal digits spell, where it fits in 64 bits.
pub open spec fn digits_value(s: Seq<u8>) -> Option<u64>
    decreases s.len(),
{
    if s.len() == 0 {
        Some(0)
    } else {
        match digits_value(s.drop_last()) {
            None => None,
            Some(v) => if s.last() < 0x30 || s.last() > 0x39 || v * 10 + (s.last() - 0x30)
                > u64::MAX {
                None
            } else {
                Some((v * 10 + (s.last() - 0x30)) as u64)
            },
        }
    }
}

/// The number that a text spells: digits, with an optional plus before them.
pub open spec fn parse_number(s: Seq<u8>) -> Option<u64> {
    let digits = if s.len() > 0 && s[0] == 0x2b {
        s.skip(1)
    } else {
        s
    };
    if digits.len() == 0 {
        None
    } else {
        digits_value(digits)
    }
}

/// Once the digits at the front spell no number, all of them do not.
proof fn lemma_digits_fail(s: Seq<u8>, k: int)
    requires
        0 <= k <= s.len(),
        digits_value(s.take(k)) is None,
    ensures
        digits_value(s) is None,
    decreases s.len() - k,
{
    if k < s.len() {
        assert(s.take(k + 1).drop_last() =~= s.take(k));
        lemma_digits_fail(s, k + 1);
    } else {
        assert(s.take(k) =~= s);
    }
}

fn parse_u64(s: &[u8]) -> (r: Option<u64>)
    ensures
        r == parse_number(s@),
{
    let n: usize = s.len();
    let mut i: usize = 0;
    if n > 0 && s[0] == 0x2b {
        i = 1;
    }
    let ghost digits = s@.skip(i as int);
    let start: usize = i;
    if i == n {
        return None;
    }
    let mut v: u64 = 0;
    proof {
        assert(digits.take(0) =~= Seq::<u8>::empty());
        if i == 0 {
            assert(digits =~= s@);
        }
    }
    while i < n
        invariant
            start <= i <= n == s@.len(),
            start <= 1,
            digits == s@.skip(start as int),
            digits.len() > 0,
            start == 1 ==> s@[0] == 0x2b,
            start == 0 ==> s@[0] != 0x2b && digits == s@,
            digits_value(digits.take(i - start)) == Some(v),
        decreases n - i,
    {
        let b: u8 = s[i];
        proof {
            let longer = digits.take(i - start + 1);
            assert(longer.drop_last() =~= digits.take(i - start));
            assert(longer.last() == b);
        }
        if b < 0x30 || b > 0x39 {
            proof {
                lemma_digits_fail(digits, i - start + 1);
            }
            return None;
        }
        let wide: u128 = v as u128 * 10 + (b - 0x30) as u128;
        if wide > u64::MAX as u128 {
            proof {
                lemma_digits_fail(digits, i - start + 1);
            }
            return None;
        }
        v = wide as u64;
        i = i + 1;
    }
    assert(digits.take(n - start) =~= digits);
    Some(v)
}

/// The bytes of the parameter's name.
pub open spec fn seconds_key() -> Seq<u8> {
    seq![0x73u8, 0x65, 0x63, 0x6f, 0x6e, 0x64, 0x73, 0x3d]
}

/// A number between one and a hundred and twenty.
pub open spec fn clamp_seconds(v: u64) -> u64 {
    if v < 1 {
        1
    } else if v > 120 {
        120
    } else {
        v
    }
}

/// The seconds that a URL asks for: the number behind the first `seconds=`, up
/// to the next one or to an ampersand; thirty, where there is none.
pub open spec fn seconds_of(url: Seq<u8>) -> u64 {
    let at = first_place(url, seconds_key(), 0);
    if at == url.len() {
        30
    } else {
        let start = at + 8;
        let end_key = first_place(url, seconds_key(), start);
        let end_amp = first_place(url, seq![0x26u8], start);
        let end = if end_key < end_amp {
            end_key
        } else {
            end_amp
        };
        match parse_number(url.subrange(start, end)) {
            Some(v) => clamp_seconds(v),
            None => 30,
        }
    }
}

/// Reads the seconds that a URL asks for.
pub fn parse_seconds(url: &str) -> (r: u64)
    ensures
        r == seconds_of(encode_utf8(url@)),
        1 <= r <= 120,
{
    let s: &[u8] = url.as_bytes();
    let key: [u8; 8] = [0x73, 0x65, 0x63, 0x6f, 0x6e, 0x64, 0x73, 0x3d];
    let amp: [u8; 1] = [0x26];
    assert(key@ =~= seconds_key());
    assert(amp@ =~= seq![0x26u8]);
    let at: usize = find_from(s, key.as_slice(), 0);
    if at == s.len() {
        return 30;
    }
    let start: usize = at + 8;
    let end_key: usize = find_from(s, key.as_slice(), start);
    let end_amp: usize = find_from(s, amp.as_slice(), start);
    let end: usize = if end_key < end_amp {
        end_key
    } else {
        end_amp
    };
    let text: &[u8] = vstd::slice::slice_subrange(s, start, end);
    match parse_u64(text) {
        Some(v) => if v < 1 {
            1
        } else if v > 120 {
            120
        } else {
            v
        },
        None => 30,
    }
}

/// The part of a URL before its query.
pub open spec fn path_of(url: Seq<u8>) -> Seq<u8> {
    url.take(first_place(url, seq![0x3fu8], 0))
}

/// Whether the path of a URL is a text.
fn path_is(url: &str, path: &str) -> (r: bool)
    ensures
        r == (path_of(encode_utf8(url@)) == encode_utf8(path@)),
{
    let s: &[u8] = url.as_bytes();
    let mark: [u8; 1] = [0x3f];
    assert(mark@ =~= seq![0x3fu8]);
    let end: usize = find_from(s, mark.as_slice(), 0);
    let head: &[u8] = vstd::slice::slice_subrange(s, 0, end);
    assert(head@ =~= path_of(encode_utf8(url@)));
    slice_eq(head, path.as_bytes())
}

/// What a URL asks for. Heap profiles and allocator totals are there only where
/// they were compiled in.
pub fn capture_route(url: &str, heap_compiled_in: bool) -> (r: ProfileRoute)
    ensures
        r == if heap_compiled_in && path_of(encode_utf8(url@)) == encode_utf8(
            "/debug/pprof/heap"@,
        ) {
            ProfileRoute::Heap
        } else if heap_compiled_in && path_of(encode_utf8(url@)) == encode_utf8(
            "/debug/allocator"@,
        ) {
            ProfileRoute::Allocator
        } else {
            ProfileRoute::Cpu {
                seconds: seconds_of(encode_utf8(url@)),
                flamegraph: crate::text::occurs_in("flamegraph"@, url@),
            }
        },
{
    if heap_compiled_in && path_is(url, "/debug/pprof/heap") {
        return ProfileRoute::Heap;
    }
    if heap_compiled_in && path_is(url, "/debug/allocator") {
        return ProfileRoute::Allocator;
    }
    ProfileRoute::Cpu { seconds: parse_seconds(url), flamegraph: str_contains(url, "flamegraph") }
}

/// The first place of a byte string is one where it stands, and it stands at no
/// earlier one; where it stands nowhere, it is the end.
pub proof fn law_first_place_is_the_first(s: Seq<u8>, pattern: Seq<u8>, from: int)
    requires
        0 <= from <= s.len(),
        pattern.len() > 0,
    ensures
        from <= first_place(s, pattern, from) <= s.len(),
        first_place(s, pattern, from) < s.len() ==> {
            let i = first_place(s, pattern, from);
            &&& i + pattern.len() <= s.len()
            &&& forall|k: int| 0 <= k < pattern.len() ==> #[trigger] s[i + k] == pattern[k]
        },
        forall|i: int|
            from <= i < first_place(s, pattern, from) ==> !(#[trigger] occurs_at(s, pattern, i)),
    decreases s.len() - from,
{
    if from < s.len() {
        if occurs_at(s, pattern, from) {
            assert forall|k: int| 0 <= k < pattern.len() implies #[trigger] s[from + k]
                == pattern[k] by {
                assert(s.subrange(from, from + pattern.len())[k] == s[from + k]);
            }
        } else {
            law_first_place_is_the_first(s, pattern, from + 1);
        }
    }
}

/// A byte string stands at a place exactly where its bytes do.
pub proof fn law_bytes_stand_at_a_place(s: Seq<u8>, pattern: Seq<u8>, i: int)
    ensures
        occurs_at(s, pattern, i) == (0 <= i && i + pattern.len() <= s.len() && forall|k: int|
            0 <= k < pattern.len() ==> #[trigger] s[i + k] == pattern[k]),
{
    if 0 <= i && i + pattern.len() <= s.len() {
        let part = s.subrange(i, i + pattern.len());
        if part == pattern {
            assert forall|k: int| 0 <= k < pattern.len() implies #[trigger] s[i + k]
                == pattern[k] by {
                assert(part[k] == s[i + k]);
            }
        } else if forall|k: int| 0 <= k < pattern.len() ==> #[trigger] s[i + k] == pattern[k] {
            assert forall|k: int| 0 <= k < pattern.len() implies part[k] == pattern[k] by {
                assert(part[k] == s[i + k]);
            }
            assert(part =~= pattern);
        }
    }
}

/// One digit more makes ten times the number and the digit; anything that is no
/// digit, or does not fit, makes none. A plus before the digits changes nothing.
pub proof fn law_digits_spell_the_number(s: Seq<u8>, d: u8)
    ensures
        digits_value(s) matches Some(v) ==> {
            &&& 48 <= d <= 57 && v * 10 + (d - 48) <= 0xffff_ffff_ffff_ffff ==> digits_value(
                s.push(d),
            ) == Some((v * 10 + (d - 48)) as u64)
            &&& !(48 <= d <= 57) || v * 10 + (d - 48) > 0xffff_ffff_ffff_ffff ==> digits_value(
                s.push(d),
            ) is None
        },
        digits_value(s) is None ==> digits_value(s.push(d)) is None,
        digits_value(Seq::<u8>::empty()) == Some(0u64),
        parse_number(Seq::<u8>::empty()) is None,
        s.len() > 0 && s[0] != 43 ==> parse_number(s) == digits_value(s),
        s.len() > 0 ==> parse_number(seq![43u8] + s) == digits_value(s),
{
    assert(s.push(d).drop_last() =~= s);
    assert((seq![43u8] + s).skip(1) =~= s);
}

/// A profile runs for as many seconds as its URL asks for: the number between
/// the first `seconds=` and the next ampersand, at least one and at most a
/// hundred and twenty. Where the URL names none, or no number, it runs for
/// thirty.
pub proof fn law_profile_runs_as_long_as_asked(url: Seq<u8>, at: int, end: int)
    requires
        0 <= at,
        at + 8 <= end <= url.len(),
        url.subrange(at, at + 8) == seq![115u8, 101, 99, 111, 110, 100, 115, 61],
        forall|i: int|
            0 <= i < at ==> #[trigger] url.subrange(i, i + 8) != seq![
                115u8,
                101,
                99,
                111,
                110,
                100,
                115,
                61,
            ],
        end < url.len() ==> url[end] == 38,
        forall|i: int| at + 8 <= i < end ==> #[trigger] url[i] != 38 && url[i] != 61,
    ensures
        match parse_number(url.subrange(at + 8, end)) {
            Some(v) => {
                &&& v < 1 ==> seconds_of(url) == 1
                &&& 1 <= v <= 120 ==> seconds_of(url) == v
                &&& v > 120 ==> seconds_of(url) == 120
            },
            None => seconds_of(url) == 30,
        },
{
    let key = seconds_key();
    let amp = seq![38u8];
    assert(key =~= seq![115u8, 101, 99, 111, 110, 100, 115, 61]);
    law_first_place_is_the_first(url, key, 0);
    let p = first_place(url, key, 0);
    assert(occurs_at(url, key, at));
    assert(p <= at);
    if p < at {
        law_bytes_stand_at_a_place(url, key, p);
        assert(url.subrange(p, p + 8) =~= key);
    }
    let start = at + 8;
    law_first_place_is_the_first(url, amp, start);
    let a = first_place(url, amp, start);
    if end < url.len() {
        law_bytes_stand_at_a_place(url, amp, end);
        assert(occurs_at(url, amp, end));
        assert(a <= end);
    }
    if a < url.len() {
        assert(url[a + 0] == amp[0]);
        assert(a >= end);
    }
    assert(a == end);
    law_first_place_is_the_first(url, key, start);
    let k = first_place(url, key, start);
    if k < end {
        assert(url[k + 7] == key[7]);
        assert(url[k + 0] == key[0]);
        if k + 7 >= end {
            assert(url[k + (end - k)] == key[end - k]);
        }
    }
    assert(k >= end);
}

} // verus!
