//! Byte buffers and the big-endian integers that every message is made of.

use bytes::{Buf, Bytes};
use vstd::prelude::*;

verus! {

/// `bytes::Bytes`, a cheaply clonable handle to immutable bytes.
#[verifier::external_type_specification]
#[verifier::external_body]
pub struct ExBytes(bytes::Bytes);

/// The bytes that a handle still shows, first to last.
pub uninterp spec fn bytes_view(b: Bytes) -> Seq<u8>;

/// `Bytes::len`: how many bytes the handle shows.
#[verifier::external_body]
pub(crate) fn bytes_len(b: &Bytes) -> (n: usize)
    ensures
        n == bytes_view(*b).len(),
{
    b.len()
}

/// `<Bytes as Buf>::get_u8`: takes the first byte off the handle. The call
/// panics on an empty handle.
#[verifier::external_body]
pub(crate) fn bytes_get_u8(b: &mut Bytes) -> (byte: u8)
    requires
        bytes_view(*old(b)).len() > 0,
    ensures
        byte == bytes_view(*old(b))[0],
        bytes_view(*final(b)) == bytes_view(*old(b)).skip(1),
{
    b.get_u8()
}

/// `<Bytes as Buf>::copy_to_bytes`: splits the first `n` bytes off the handle.
/// The call panics where the handle shows fewer.
#[verifier::external_body]
pub(crate) fn bytes_take(b: &mut Bytes, n: usize) -> (head: Bytes)
    requires
        n <= bytes_view(*old(b)).len(),
    ensures
        bytes_view(head) == bytes_view(*old(b)).take(n as int),
        bytes_view(*final(b)) == bytes_view(*old(b)).skip(n as int),
{
    b.copy_to_bytes(n)
}

/// `<Bytes as Clone>::clone`: a second handle that shows the same bytes.
#[verifier::external_body]
pub(crate) fn bytes_clone(b: &Bytes) -> (copy: Bytes)
    ensures
        bytes_view(copy) == bytes_view(*b),
{
    b.clone()
}

/// `<Bytes as From<Vec<u8>>>::from`: a handle to the bytes of the vector.
#[verifier::external_body]
pub(crate) fn bytes_from_vec(v: Vec<u8>) -> (b: Bytes)
    ensures
        bytes_view(b) == v@,
{
    Bytes::from(v)
}

/// `<Bytes as AsRef<[u8]>>::as_ref`: the bytes as a slice.
#[verifier::external_body]
pub(crate) fn bytes_as_slice(b: &Bytes) -> (s: &[u8])
    ensures
        s@ == bytes_view(*b),
{
    b.as_ref()
}

/// A field whose length the protocol bounds.
#[derive(Copy, Clone, Debug, PartialEq, Eq, Structural)]
pub enum Field {
    SessionUri,
}

/// Why bytes could not be read as a message.
#[derive(Copy, Clone, Debug, PartialEq, Eq, Structural)]
pub enum DecodeError {
    /// This many more bytes are needed.
    More(usize),
    /// A key-value pair's type runs past 64 bits.
    KvpTypeOverflow,
    /// A parameter that may stand once stands twice.
    DuplicateParameter(u64),
    /// A key-value pair's value is longer than the protocol allows.
    KeyValuePairLengthExceeded,
    /// The message type is not one that can stand here.
    InvalidMessage(u64),
    /// A bounded field is too long.
    FieldBoundsExceeded(Field),
    /// A payload of the first length was read only up to the second.
    InvalidLength(usize, usize),
    /// A text field is not UTF-8.
    InvalidUtf8,
}

/// Why a message could not be written.
#[derive(Copy, Clone, Debug, PartialEq, Eq, Structural)]
pub enum EncodeError {
    /// A value has no encoding under its key, or a key stands twice.
    InvalidValue,
    /// Keys are not in ascending order.
    KvpKeyOrder,
    /// A key-value pair's value is longer than the protocol allows.
    KeyValuePairLengthExceeded,
    /// The message body does not fit its length field.
    MsgBoundsExceeded,
    /// A bounded field is too long.
    FieldBoundsExceeded(Field),
}

/// `256` to the power `n`.
pub open spec fn pow256(n: nat) -> nat
    decreases n,
{
    if n == 0 {
        1
    } else {
        256 * pow256((n - 1) as nat)
    }
}

/// The number that bytes spell, most significant first.
pub open spec fn be_value(s: Seq<u8>) -> nat
    decreases s.len(),
{
    if s.len() == 0 {
        0
    } else {
        be_value(s.drop_last()) * 256 + s.last() as nat
    }
}

/// The low `n` bytes of a number, most significant first.
pub open spec fn be_bytes(v: nat, n: nat) -> Seq<u8>
    decreases n,
{
    if n == 0 {
        Seq::empty()
    } else {
        be_bytes(v / 256, (n - 1) as nat).push((v % 256) as u8)
    }
}

pub proof fn lemma_be_bytes_len(v: nat, n: nat)
    ensures
        be_bytes(v, n).len() == n,
    decreases n,
{
    if n > 0 {
        lemma_be_bytes_len(v / 256, (n - 1) as nat);
    }
}

pub proof fn lemma_be_value_bound(s: Seq<u8>)
    ensures
        be_value(s) < pow256(s.len()),
    decreases s.len(),
{
    if s.len() > 0 {
        lemma_be_value_bound(s.drop_last());
    }
}

/// Reading back the bytes of a number gives the number.
pub proof fn lemma_be_round_trip(v: nat, n: nat)
    requires
        v < pow256(n),
    ensures
        be_value(be_bytes(v, n)) == v,
    decreases n,
{
    if n > 0 {
        lemma_be_round_trip(v / 256, (n - 1) as nat);
        assert(be_bytes(v, n).drop_last() =~= be_bytes(v / 256, (n - 1) as nat));
    }
}

pub proof fn lemma_be_value_concat(a: Seq<u8>, b: Seq<u8>)
    ensures
        be_value(a + b) == be_value(a) * pow256(b.len()) + be_value(b),
    decreases b.len(),
{
    if b.len() == 0 {
        assert(a + b =~= a);
        assert(be_value(a) * pow256(0) == be_value(a)) by (nonlinear_arith)
            requires
                pow256(0) == 1,
        ;
    } else {
        lemma_be_value_concat(a, b.drop_last());
        assert((a + b).drop_last() =~= a + b.drop_last());
        assert((a + b).last() == b.last());
        let x = be_value(a);
        let p = pow256((b.len() - 1) as nat);
        let y = be_value(b.drop_last());
        assert(be_value(a + b) == (x * p + y) * 256 + b.last());
        assert(pow256(b.len()) == 256 * p);
        assert((x * p + y) * 256 == x * (256 * p) + y * 256) by (nonlinear_arith);
    }
}

/// The first of the `n` bytes of a number.
pub proof fn lemma_be_bytes_first(v: nat, n: nat)
    requires
        n > 0,
    ensures
        be_bytes(v, n).len() == n,
        be_bytes(v, n)[0] == (v / pow256((n - 1) as nat)) % 256,
    decreases n,
{
    lemma_be_bytes_len(v, n);
    lemma_be_bytes_len(v / 256, (n - 1) as nat);
    if n == 1 {
        assert(pow256(0) == 1);
        assert(v / 1 == v);
    } else {
        lemma_be_bytes_first(v / 256, (n - 1) as nat);
        let p = pow256((n - 2) as nat);
        lemma_pow256_positive((n - 2) as nat);
        assert(be_bytes(v, n)[0] == be_bytes(v / 256, (n - 1) as nat)[0]);
        assert(pow256((n - 1) as nat) == 256 * p);
        vstd::arithmetic::div_mod::lemma_div_denominator(v as int, 256, p as int);
    }
}

pub proof fn lemma_pow256_positive(n: nat)
    ensures
        pow256(n) > 0,
    decreases n,
{
    if n > 0 {
        lemma_pow256_positive((n - 1) as nat);
    }
}

pub proof fn lemma_pow256_monotonic(a: nat, b: nat)
    requires
        a <= b,
    ensures
        pow256(a) <= pow256(b),
    decreases b,
{
    if a < b {
        lemma_pow256_monotonic(a, (b - 1) as nat);
    }
}

/// Appends the low `n` bytes of `value`, most significant first.
pub fn put_be(buf: &mut Vec<u8>, value: u64, n: usize)
    ensures
        final(buf)@ == old(buf)@ + be_bytes(value as nat, n as nat),
    decreases n,
{
    if n == 0 {
        assert(buf@ =~= old(buf)@ + be_bytes(value as nat, 0));
    } else {
        put_be(buf, value / 256, n - 1);
        buf.push((value % 256) as u8);
        assert(buf@ =~= old(buf)@ + be_bytes(value as nat, n as nat));
    }
}

/// Takes the number that the first `n` bytes spell.
pub fn take_be(buf: &mut Bytes, n: usize) -> (value: u64)
    requires
        n <= 8,
        n <= bytes_view(*old(buf)).len(),
    ensures
        value as nat == be_value(bytes_view(*old(buf)).take(n as int)),
        bytes_view(*final(buf)) == bytes_view(*old(buf)).skip(n as int),
{
    let ghost s = bytes_view(*buf);
    let mut value: u64 = 0;
    let mut i: usize = 0;
    proof {
        assert(s.skip(0) =~= s);
    }
    while i < n
        invariant
            i <= n <= 8,
            n <= s.len(),
            value as nat == be_value(s.take(i as int)),
            bytes_view(*buf) == s.skip(i as int),
        decreases n - i,
    {
        proof {
            reveal_with_fuel(pow256, 9);
            let longer = s.take(i + 1);
            assert(longer.drop_last() =~= s.take(i as int));
            lemma_be_value_bound(longer);
            lemma_pow256_monotonic((i + 1) as nat, 8);
            assert(s.skip(i as int).skip(1) =~= s.skip(i + 1));
        }
        let b: u8 = bytes_get_u8(buf);
        value = value * 256 + b as u64;
        i = i + 1;
    }
    value
}

/// How a buffer that shows `have` bytes falls short of `need`.
pub open spec fn shortfall(have: nat, need: nat) -> Option<DecodeError> {
    if have < need {
        Some(DecodeError::More((need - have) as usize))
    } else {
        None
    }
}

/// Fails with the number of missing bytes where the buffer shows fewer than
/// `required`.
pub fn decode_remaining(buf: &Bytes, required: usize) -> (r: Result<(), DecodeError>)
    ensures
        r == match shortfall(bytes_view(*buf).len(), required as nat) {
            Some(e) => Err(e),
            None => Ok(()),
        },
{
    let have: usize = bytes_len(buf);
    if have < required {
        Err(DecodeError::More(required - have))
    } else {
        Ok(())
    }
}

/// Big-endian bytes: the first of two stands for 256 times as much as the second,
/// and a number and its bytes go into each other.
pub proof fn law_bytes_spell_numbers(a: u8, b: u8, c: u8, d: u8)
    ensures
        be_value(seq![a]) == a,
        be_value(seq![a, b]) == 256 * a + b,
        be_value(seq![a, b, c, d]) == 16777216 * a + 65536 * b + 256 * c + d,
        be_bytes((256 * a + b) as nat, 2) == seq![a, b],
        be_bytes((16777216 * a + 65536 * b + 256 * c + d) as nat, 4) == seq![a, b, c, d],
{
    reveal_with_fuel(be_value, 5);
    reveal_with_fuel(be_bytes, 5);
    assert(seq![a].drop_last() =~= Seq::empty());
    assert(seq![a, b].drop_last() =~= seq![a]);
    assert(seq![a, b, c].drop_last() =~= seq![a, b]);
    assert(seq![a, b, c, d].drop_last() =~= seq![a, b, c]);
    assert(be_bytes((256 * a + b) as nat, 2) =~= seq![a, b]);
    assert(be_bytes((16777216 * a + 65536 * b + 256 * c + d) as nat, 4) =~= seq![a, b, c, d]);
}

/// A buffer falls short by just as many bytes as are missing.
pub proof fn law_shortfall_is_what_is_missing(have: nat, need: nat)
    requires
        need <= usize::MAX,
    ensures
        (shortfall(have, need) is None) == (have >= need),
        shortfall(have, need) matches Some(e) ==> e is More && have + e->More_0 == need,
{
}

} // verus!
