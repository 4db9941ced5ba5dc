//! The variable-length 64-bit integer of the draft-19 profile.
//!
//! The number of leading one bits of the first byte says how many bytes
//! follow; the remaining bits are the value, most significant first.

use bytes::Bytes;
use vstd::prelude::*;

use crate::wire::{
    be_bytes, be_value, bytes_get_u8, bytes_view, decode_remaining, lemma_be_bytes_first,
    lemma_be_round_trip, lemma_be_value_bound, lemma_be_value_concat, pow256, put_be, take_be,
    DecodeError,
};

verus! {

#[derive(Copy, Clone, Debug, PartialEq, Eq, Structural, PartialOrd, Ord, Hash)]
pub struct Vi64(u64);

/// How many bytes an encoding takes that starts with `first`.
pub open spec fn vi64_width(first: u8) -> nat {
    if first < 0x80 {
        1
    } else if first < 0xc0 {
        2
    } else if first < 0xe0 {
        3
    } else if first < 0xf0 {
        4
    } else if first < 0xf8 {
        5
    } else if first < 0xfc {
        6
    } else if first < 0xfe {
        7
    } else if first < 0xff {
        8
    } else {
        9
    }
}

/// The encoding of zero in `n` bytes, for `n` up to eight, as a number: the
/// leading ones that announce the length.
pub open spec fn vi64_mark(n: nat) -> nat {
    if n <= 1 {
        0
    } else if n == 2 {
        0x8000
    } else if n == 3 {
        0xc0_0000
    } else if n == 4 {
        0xe000_0000
    } else if n == 5 {
        0xf0_0000_0000
    } else if n == 6 {
        0xf800_0000_0000
    } else if n == 7 {
        0xfc_0000_0000_0000
    } else {
        0xfe00_0000_0000_0000
    }
}

/// The fewest bytes that hold `v`: seven bits a byte, and nine bytes for what
/// does not fit in fifty-six bits.
pub open spec fn vi64_size(v: u64) -> nat {
    if v < 0x80 {
        1
    } else if v < 0x4000 {
        2
    } else if v < 0x20_0000 {
        3
    } else if v < 0x1000_0000 {
        4
    } else if v < 0x8_0000_0000 {
        5
    } else if v < 0x400_0000_0000 {
        6
    } else if v < 0x2_0000_0000_0000 {
        7
    } else if v < 0x100_0000_0000_0000 {
        8
    } else {
        9
    }
}

/// The shortest encoding of `v`.
pub open spec fn vi64_bytes(v: u64) -> Seq<u8> {
    let n = vi64_size(v);
    if n == 9 {
        seq![0xffu8] + be_bytes(v as nat, 8)
    } else {
        be_bytes(vi64_mark(n) + v as nat, n)
    }
}

/// The value at the start of `s`, with the number of bytes that it takes.
/// Longer encodings than the shortest are read as well.
pub open spec fn vi64_decode(s: Seq<u8>) -> Result<(u64, nat), DecodeError> {
    if s.len() == 0 {
        Err(DecodeError::More(1))
    } else {
        let n = vi64_width(s[0]);
        if s.len() < n {
            Err(DecodeError::More((n - s.len()) as usize))
        } else if n == 9 {
            Ok((be_value(s.subrange(1, 9)) as u64, n))
        } else {
            Ok(((be_value(s.take(n as int)) - vi64_mark(n)) as u64, n))
        }
    }
}

/// What a failed read of a value takes off the buffer: the first byte, where
/// there is one.
pub open spec fn vi64_rest_on_error(s: Seq<u8>) -> Seq<u8> {
    if s.len() == 0 {
        s
    } else {
        s.skip(1)
    }
}

pub proof fn lemma_vi64_bytes_len(v: u64)
    ensures
        vi64_bytes(v).len() == vi64_size(v),
{
    crate::wire::lemma_be_bytes_len(v as nat, 8);
    let n = vi64_size(v);
    crate::wire::lemma_be_bytes_len(vi64_mark(n) + v as nat, n);
}

/// Decoding the encoding of a value, whatever follows it, gives the value and
/// takes exactly the bytes of the encoding.
pub proof fn law_vi64_round_trip(v: u64, rest: Seq<u8>)
    ensures
        vi64_decode(vi64_bytes(v) + rest) == Ok::<(u64, nat), DecodeError>((v, vi64_size(v))),
{
    lemma_pow256_table();
    let n = vi64_size(v);
    let s = vi64_bytes(v) + rest;
    lemma_vi64_bytes_len(v);
    if n == 9 {
        lemma_be_round_trip(v as nat, 8);
        assert(s[0] == 0xff);
        assert(s.subrange(1, 9) =~= be_bytes(v as nat, 8));
    } else {
        let w = vi64_mark(n) + v as nat;
        lemma_be_round_trip(w, n);
        lemma_be_bytes_first(w, n);
        assert(s[0] == vi64_bytes(v)[0]);
        let p = pow256((n - 1) as nat);
        if n == 1 {
            assert(w / p == w);
        } else if n == 2 {
            assert(w / p == w / 0x100);
        } else if n == 3 {
            assert(w / p == w / 0x1_0000);
        } else if n == 4 {
            assert(w / p == w / 0x100_0000);
        } else if n == 5 {
            assert(w / p == w / 0x1_0000_0000);
        } else if n == 6 {
            assert(w / p == w / 0x100_0000_0000);
        } else if n == 7 {
            assert(w / p == w / 0x1_0000_0000_0000);
        } else {
            assert(w / p == w / 0x100_0000_0000_0000);
        }
        assert(vi64_width(s[0]) == n);
        assert(s.take(n as int) =~= be_bytes(w, n));
    }
}

/// No encoding of a value is shorter than the one that is written.
pub proof fn law_vi64_encoding_is_minimal(s: Seq<u8>)
    ensures
        match vi64_decode(s) {
            Ok((v, n)) => vi64_size(v) <= n && 1 <= n <= 9 && n <= s.len(),
            Err(_) => true,
        },
{
    if let Ok((v, n)) = vi64_decode(s) {
        lemma_vi64_split(s);
    }
}

/// A value of `n` bytes from the bits of its first byte and from the rest.
spec fn vi64_join(n: nat, first: u8, tail: nat) -> int {
    if n == 1 {
        first + tail
    } else if n == 2 {
        (first - 0x80) * 0x100 + tail
    } else if n == 3 {
        (first - 0xc0) * 0x1_0000 + tail
    } else if n == 4 {
        (first - 0xe0) * 0x100_0000 + tail
    } else if n == 5 {
        (first - 0xf0) * 0x1_0000_0000 + tail
    } else if n == 6 {
        (first - 0xf8) * 0x100_0000_0000 + tail
    } else if n == 7 {
        (first - 0xfc) * 0x1_0000_0000_0000 + tail
    } else {
        tail as int
    }
}

proof fn lemma_pow256_table()
    ensures
        pow256(0) == 1,
        pow256(1) == 0x100,
        pow256(2) == 0x1_0000,
        pow256(3) == 0x100_0000,
        pow256(4) == 0x1_0000_0000,
        pow256(5) == 0x100_0000_0000,
        pow256(6) == 0x1_0000_0000_0000,
        pow256(7) == 0x100_0000_0000_0000,
        pow256(8) == 0x1_0000_0000_0000_0000,
{
    reveal_with_fuel(pow256, 9);
}

proof fn lemma_vi64_split(s: Seq<u8>)
    requires
        s.len() > 0,
        vi64_width(s[0]) <= s.len(),
    ensures
        ({
            let n = vi64_width(s[0]);
            let tail = be_value(s.subrange(1, n as int));
            &&& tail < pow256((n - 1) as nat)
            &&& 0 <= vi64_join(n, s[0], tail) <= u64::MAX
            &&& vi64_decode(s) == Ok::<(u64, nat), DecodeError>(
                (vi64_join(n, s[0], tail) as u64, n),
            )
            &&& vi64_size(vi64_join(n, s[0], tail) as u64) <= n
        }),
{
    lemma_pow256_table();
    reveal_with_fuel(be_value, 2);
    let n = vi64_width(s[0]);
    let tail = s.subrange(1, n as int);
    lemma_be_value_bound(tail);
    if n < 9 {
        let head = seq![s[0]];
        assert(head.drop_last() =~= Seq::<u8>::empty());
        assert(head.last() == s[0]);
        assert(be_value(head) == s[0]);
        assert(s.take(n as int) =~= head + tail);
        lemma_be_value_concat(head, tail);
        let x = s[0] as nat;
        let p = pow256((n - 1) as nat);
        assert(be_value(s.take(n as int)) == x * p + be_value(tail));
        if n == 1 {
            assert(x * p == x) by (nonlinear_arith)
                requires
                    p == 1,
            ;
        } else if n == 2 {
            assert(x * p == x * 0x100) by (nonlinear_arith)
                requires
                    p == 0x100,
            ;
        } else if n == 3 {
            assert(x * p == x * 0x1_0000) by (nonlinear_arith)
                requires
                    p == 0x1_0000,
            ;
        } else if n == 4 {
            assert(x * p == x * 0x100_0000) by (nonlinear_arith)
                requires
                    p == 0x100_0000,
            ;
        } else if n == 5 {
            assert(x * p == x * 0x1_0000_0000) by (nonlinear_arith)
                requires
                    p == 0x1_0000_0000,
            ;
        } else if n == 6 {
            assert(x * p == x * 0x100_0000_0000) by (nonlinear_arith)
                requires
                    p == 0x100_0000_0000,
            ;
        } else if n == 7 {
            assert(x * p == x * 0x1_0000_0000_0000) by (nonlinear_arith)
                requires
                    p == 0x1_0000_0000_0000,
            ;
        } else {
            assert(x * p == 0xfe * 0x100_0000_0000_0000) by (nonlinear_arith)
                requires
                    p == 0x100_0000_0000_0000,
                    x == 0xfe,
            ;
        }
    }
}

impl Vi64 {
    pub closed spec fn spec_value(self) -> u64 {
        self.0
    }

    pub fn new(value: u64) -> (v: Self)
        ensures
            v.spec_value() == value,
    {
        Self(value)
    }

    pub fn into_inner(self) -> (value: u64)
        ensures
            value == self.spec_value(),
    {
        self.0
    }

    pub fn encoded_len(self) -> (n: usize)
        ensures
            n == vi64_size(self.spec_value()),
            1 <= n <= 9,
    {
        let v: u64 = self.0;
        if v < 0x80 {
            1
        } else if v < 0x4000 {
            2
        } else if v < 0x20_0000 {
            3
        } else if v < 0x1000_0000 {
            4
        } else if v < 0x8_0000_0000 {
            5
        } else if v < 0x400_0000_0000 {
            6
        } else if v < 0x2_0000_0000_0000 {
            7
        } else if v < 0x100_0000_0000_0000 {
            8
        } else {
            9
        }
    }

    /// Appends the shortest encoding.
    pub fn encode(&self, buf: &mut Vec<u8>)
        ensures
            final(buf)@ == old(buf)@ + vi64_bytes(self.spec_value()),
    {
        let n: usize = self.encoded_len();
        if n == 9 {
            buf.push(0xff);
            put_be(buf, self.0, 8);
            assert(buf@ =~= old(buf)@ + vi64_bytes(self.spec_value()));
        } else {
            let mark: u64 = match n {
                1 => 0,
                2 => 0x8000,
                3 => 0xc0_0000,
                4 => 0xe000_0000,
                5 => 0xf0_0000_0000,
                6 => 0xf800_0000_0000,
                7 => 0xfc_0000_0000_0000,
                _ => 0xfe00_0000_0000_0000,
            };
            put_be(buf, mark + self.0, n);
        }
    }

    /// Takes a value off the buffer. A failed read takes the first byte, where
    /// there is one.
    pub fn decode(buf: &mut Bytes) -> (r: Result<Self, DecodeError>)
        ensures
            match vi64_decode(bytes_view(*old(buf))) {
                Ok((v, n)) => {
                    &&& r matches Ok(x)
                    &&& x.spec_value() == v
                    &&& bytes_view(*final(buf)) == bytes_view(*old(buf)).skip(n as int)
                },
                Err(e) => {
                    &&& r == Err::<Self, DecodeError>(e)
                    &&& bytes_view(*final(buf)) == vi64_rest_on_error(bytes_view(*old(buf)))
                },
            },
    {
        let ghost s = bytes_view(*buf);
        decode_remaining(buf, 1)?;
        let first: u8 = bytes_get_u8(buf);
        let n: usize = if first < 0x80 {
            1
        } else if first < 0xc0 {
            2
        } else if first < 0xe0 {
            3
        } else if first < 0xf0 {
            4
        } else if first < 0xf8 {
            5
        } else if first < 0xfc {
            6
        } else if first < 0xfe {
            7
        } else if first < 0xff {
            8
        } else {
            9
        };
        decode_remaining(buf, n - 1)?;
        let tail: u64 = take_be(buf, n - 1);
        proof {
            lemma_pow256_table();
            lemma_vi64_split(s);
            assert(s.skip(1).take(n - 1) =~= s.subrange(1, n as int));
            assert(s.skip(1).skip(n - 1) =~= s.skip(n as int));
        }
        let first: u64 = first as u64;
        let value: u64 = match n {
            1 => first,
            2 => (first - 0x80) * 0x100 + tail,
            3 => (first - 0xc0) * 0x1_0000 + tail,
            4 => (first - 0xe0) * 0x100_0000 + tail,
            5 => (first - 0xf0) * 0x1_0000_0000 + tail,
            6 => (first - 0xf8) * 0x100_0000_0000 + tail,
            7 => (first - 0xfc) * 0x1_0000_0000_0000 + tail,
            _ => tail,
        };
        Ok(Self(value))
    }
}

impl Default for Vi64 {
    fn default() -> (v: Self)
        ensures
            v.spec_value() == 0,
    {
        Self(0)
    }
}

impl From<u64> for Vi64 {
    fn from(value: u64) -> (v: Self) {
        Self(value)
    }
}

impl vstd::std_specs::convert::FromSpecImpl<u64> for Vi64 {
    open spec fn obeys_from_spec() -> bool {
        true
    }

    closed spec fn from_spec(value: u64) -> Self {
        Vi64(value)
    }
}

impl From<Vi64> for u64 {
    fn from(value: Vi64) -> (v: u64) {
        value.0
    }
}

impl vstd::std_specs::convert::FromSpecImpl<Vi64> for u64 {
    open spec fn obeys_from_spec() -> bool {
        true
    }

    open spec fn from_spec(value: Vi64) -> u64 {
        value.spec_value()
    }
}

/// A value takes as many bytes as it has started groups of seven bits, and nine
/// where eight groups are not enough.
pub proof fn law_vi64_holds_seven_bits_a_byte(v: u64)
    ensures
        (vi64_size(v) <= 1) == (v < 128),
        (vi64_size(v) <= 2) == (v < 128 * 128),
        (vi64_size(v) <= 3) == (v < 128 * 128 * 128),
        (vi64_size(v) <= 4) == (v < 128 * 128 * 128 * 128),
        (vi64_size(v) <= 5) == (v < 128 * 128 * 128 * 128 * 128),
        (vi64_size(v) <= 6) == (v < 128 * 128 * 128 * 128 * 128 * 128),
        (vi64_size(v) <= 7) == (v < 128 * 128 * 128 * 128 * 128 * 128 * 128),
        (vi64_size(v) <= 8) == (v < 128 * 128 * 128 * 128 * 128 * 128 * 128 * 128),
        1 <= vi64_size(v) <= 9,
        v < 128 ==> vi64_bytes(v) == seq![v as u8],
{
    if v < 128 {
        reveal_with_fuel(be_bytes, 2);
        assert(be_bytes(v as nat, 1) =~= seq![v as u8]);
    }
}

/// How long an encoding is stands in the leading ones of its first byte.
pub proof fn law_vi64_length_stands_in_the_first_byte(first: u8)
    ensures
        vi64_width(first) == 1 <==> first / 128 == 0,
        vi64_width(first) == 2 <==> first / 64 == 2,
        vi64_width(first) == 3 <==> first / 32 == 6,
        vi64_width(first) == 4 <==> first / 16 == 14,
        vi64_width(first) == 5 <==> first / 8 == 30,
        vi64_width(first) == 6 <==> first / 4 == 62,
        vi64_width(first) == 7 <==> first / 2 == 126,
        vi64_width(first) == 8 <==> first == 254,
        vi64_width(first) == 9 <==> first == 255,
{
}

/// A value that is cut short asks for exactly the bytes that are missing, as far
/// as they are known, and only such a value is refused.
pub proof fn law_short_vi64_asks_for_the_rest(s: Seq<u8>)
    ensures
        s.len() == 0 ==> vi64_decode(s) == Err::<(u64, nat), DecodeError>(DecodeError::More(1)),
        s.len() > 0 && s.len() < vi64_width(s[0]) ==> vi64_decode(s) == Err::<
            (u64, nat),
            DecodeError,
        >(DecodeError::More((vi64_width(s[0]) - s.len()) as usize)),
        s.len() > 0 && s.len() >= vi64_width(s[0]) ==> vi64_decode(s) is Ok && vi64_decode(
            s,
        )->Ok_0.1 == vi64_width(s[0]),
        s.len() > 0 ==> vi64_rest_on_error(s) == s.skip(1),
        s.len() == 0 ==> vi64_rest_on_error(s) == s,
{
}

} // verus!
