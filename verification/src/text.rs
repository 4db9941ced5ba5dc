//! Texts: comparisons, and what messages are made of.

use vstd::prelude::*;
use vstd::string::StringExecFns;
use vstd::utf8::{decode_utf8, encode_utf8, valid_utf8};

verus! {

/// Whether two byte strings are equal.
pub fn slice_eq(a: &[u8], b: &[u8]) -> (r: bool)
    ensures
        r == (a@ == b@),
{
    if a.len() != b.len() {
        return false;
    }
    let mut i: usize = 0;
    while i < a.len()
        invariant
            i <= a.len() == b.len(),
            forall|j: int| 0 <= j < i ==> a@[j] == b@[j],
        decreases a.len() - i,
    {
        if a[i] != b[i] {
            return false;
        }
        i = i + 1;
    }
    assert(a@ =~= b@);
    true
}

/// Two texts with the same UTF-8 bytes are the same text.
pub proof fn lemma_encode_utf8_injective(a: Seq<char>, b: Seq<char>)
    requires
        encode_utf8(a) == encode_utf8(b),
    ensures
        a == b,
{
    vstd::utf8::encode_utf8_decode_utf8(a);
    vstd::utf8::encode_utf8_decode_utf8(b);
}

/// Whether two texts are equal.
pub fn str_eq(a: &str, b: &str) -> (r: bool)
    ensures
        r == (a@ == b@),
{
    let r: bool = slice_eq(a.as_bytes(), b.as_bytes());
    proof {
        if r {
            lemma_encode_utf8_injective(a@, b@);
        }
    }
    r
}

/// Whether `needle` occurs in `hay`.
pub open spec fn occurs_in(needle: Seq<char>, hay: Seq<char>) -> bool {
    exists|i: int|
        0 <= i <= hay.len() - needle.len() && #[trigger] hay.subrange(i, i + needle.len())
            == needle
}

/// The characters of a text.
fn chars_of(s: &str) -> (r: Vec<char>)
    ensures
        r@ == s@,
{
    let mut r: Vec<char> = Vec::new();
    for c in walk: s.chars()
        invariant
            walk.seq() == s@,
            r@ == s@.take(walk.index()),
    {
        r.push(c);
        assert(r@ =~= s@.take(walk.index() + 1));
    }
    assert(r@ =~= s@);
    r
}

/// Whether `needle` stands in `hay` at a place.
fn stands_at(needle: &Vec<char>, hay: &Vec<char>, i: usize) -> (r: bool)
    requires
        i + needle@.len() <= hay@.len(),
    ensures
        r == (hay@.subrange(i as int, i + needle@.len()) == needle@),
{
    let ghost part = hay@.subrange(i as int, i + needle@.len());
    let n: usize = hay.len();
    let mut j: usize = 0;
    while j < needle.len()
        invariant
            i + needle@.len() <= n == hay@.len(),
            part == hay@.subrange(i as int, i + needle@.len()),
            j <= needle@.len(),
            forall|k: int| 0 <= k < j ==> part[k] == needle@[k],
        decreases needle@.len() - j,
    {
        if hay[i + j] != needle[j] {
            assert(part[j as int] != needle@[j as int]);
            return false;
        }
        j = j + 1;
    }
    assert(part =~= needle@);
    true
}

/// Tells whether `needle` occurs in `hay`.
pub(crate) fn str_contains(hay: &str, needle: &str) -> (r: bool)
    ensures
        r == occurs_in(needle@, hay@),
{
    let all: Vec<char> = chars_of(hay);
    let part: Vec<char> = chars_of(needle);
    if part.len() > all.len() {
        return false;
    }
    let last: usize = all.len() - part.len();
    let mut i: usize = 0;
    loop
        invariant
            all@ == hay@,
            part@ == needle@,
            last == all@.len() - part@.len(),
            i <= last,
            forall|k: int|
                0 <= k < i ==> #[trigger] hay@.subrange(k, k + needle@.len()) != needle@,
        decreases last - i,
    {
        if stands_at(&part, &all, i) {
            return true;
        }
        if i == last {
            return false;
        }
        i = i + 1;
    }
}

/// `String::from_utf8`: the text that the bytes encode, where they are UTF-8,
/// and nothing where they are not.
#[verifier::external_body]
pub(crate) fn string_from_utf8(bytes: Vec<u8>) -> (r: Option<String>)
    ensures
        r is Some <==> valid_utf8(bytes@),
        r matches Some(s) ==> s@ == decode_utf8(bytes@),
{
    String::from_utf8(bytes).ok()
}

/// The character of a decimal digit.
pub open spec fn digit_char(d: nat) -> char {
    if d == 0 {
        '0'
    } else if d == 1 {
        '1'
    } else if d == 2 {
        '2'
    } else if d == 3 {
        '3'
    } else if d == 4 {
        '4'
    } else if d == 5 {
        '5'
    } else if d == 6 {
        '6'
    } else if d == 7 {
        '7'
    } else if d == 8 {
        '8'
    } else {
        '9'
    }
}

/// A number in decimal.
pub open spec fn decimal(n: nat) -> Seq<char>
    decreases n,
{
    if n < 10 {
        seq![digit_char(n)]
    } else {
        decimal(n / 10).push(digit_char(n % 10))
    }
}

fn digit_str(d: u64) -> (r: &'static str)
    requires
        d < 10,
    ensures
        r@ == seq![digit_char(d as nat)],
{
    proof {
        reveal_strlit("0");
        reveal_strlit("1");
        reveal_strlit("2");
        reveal_strlit("3");
        reveal_strlit("4");
        reveal_strlit("5");
        reveal_strlit("6");
        reveal_strlit("7");
        reveal_strlit("8");
        reveal_strlit("9");
    }
    let r: &'static str = match d {
        0 => "0",
        1 => "1",
        2 => "2",
        3 => "3",
        4 => "4",
        5 => "5",
        6 => "6",
        7 => "7",
        8 => "8",
        _ => "9",
    };
    assert(r@ =~= seq![digit_char(d as nat)]);
    r
}

/// Appends a number in decimal.
pub fn push_decimal(out: &mut String, n: u64)
    ensures
        final(out)@ == old(out)@ + decimal(n as nat),
    decreases n,
{
    if n < 10 {
        out.append(digit_str(n));
    } else {
        push_decimal(out, n / 10);
        out.append(digit_str(n % 10));
        assert(out@ =~= old(out)@ + decimal(n as nat));
    }
}

/// The character of a hexadecimal digit.
pub open spec fn hex_char(d: nat) -> char {
    if d < 10 {
        digit_char(d)
    } else if d == 10 {
        'a'
    } else if d == 11 {
        'b'
    } else if d == 12 {
        'c'
    } else if d == 13 {
        'd'
    } else if d == 14 {
        'e'
    } else {
        'f'
    }
}

/// The hexadecimal digits of a number.
pub open spec fn hex_digits(n: nat) -> Seq<char>
    decreases n,
{
    if n < 16 {
        seq![hex_char(n)]
    } else {
        hex_digits(n / 16).push(hex_char(n % 16))
    }
}

/// A number in hexadecimal, with its prefix.
pub open spec fn hex(n: nat) -> Seq<char> {
    "0x"@ + hex_digits(n)
}

fn hex_str(d: u64) -> (r: &'static str)
    requires
        d < 16,
    ensures
        r@ == seq![hex_char(d as nat)],
{
    if d < 10 {
        return digit_str(d);
    }
    proof {
        reveal_strlit("a");
        reveal_strlit("b");
        reveal_strlit("c");
        reveal_strlit("d");
        reveal_strlit("e");
        reveal_strlit("f");
    }
    let r: &'static str = match d {
        10 => "a",
        11 => "b",
        12 => "c",
        13 => "d",
        14 => "e",
        _ => "f",
    };
    assert(r@ =~= seq![hex_char(d as nat)]);
    r
}

fn push_hex_digits(out: &mut String, n: u64)
    ensures
        final(out)@ == old(out)@ + hex_digits(n as nat),
    decreases n,
{
    if n < 16 {
        out.append(hex_str(n));
    } else {
        push_hex_digits(out, n / 16);
        out.append(hex_str(n % 16));
        assert(out@ =~= old(out)@ + hex_digits(n as nat));
    }
}

/// Appends a number in hexadecimal, with its prefix.
pub fn push_hex(out: &mut String, n: u64)
    ensures
        final(out)@ == old(out)@ + hex(n as nat),
{
    out.append("0x");
    push_hex_digits(out, n);
    assert(out@ =~= old(out)@ + hex(n as nat));
}

/// A pair of numbers.
pub open spec fn pair(p: (u64, u64)) -> Seq<char> {
    "("@ + decimal(p.0 as nat) + ", "@ + decimal(p.1 as nat) + ")"@
}

/// Appends a pair of numbers.
pub fn push_pair(out: &mut String, p: (u64, u64))
    ensures
        final(out)@ == old(out)@ + pair(p),
{
    out.append("(");
    push_decimal(out, p.0);
    out.append(", ");
    push_decimal(out, p.1);
    out.append(")");
    assert(out@ =~= old(out)@ + pair(p));
}

/// Appends a text.
pub fn push_text(out: &mut String, text: &str)
    ensures
        final(out)@ == old(out)@ + text@,
{
    out.append(text);
}

/// A number in decimal spells the number: its digits are decimal ones, the last
/// is the remainder by ten, and those before it spell the quotient. It has no
/// leading zero.
pub proof fn law_decimal_spells_the_number(n: nat)
    ensures
        decimal(n).len() >= 1,
        decimal_value(decimal(n)) == n,
        forall|i: int|
            0 <= i < decimal(n).len() ==> '0' <= (#[trigger] decimal(n)[i]) && decimal(n)[i] <= '9',
        n > 0 ==> decimal(n)[0] != '0',
    decreases n,
{
    if n >= 10 {
        law_decimal_spells_the_number(n / 10);
        let s = decimal(n);
        assert(s.drop_last() =~= decimal(n / 10));
        assert forall|i: int| 0 <= i < s.len() implies '0' <= (#[trigger] s[i]) && s[i] <= '9' by {
            if i < s.len() - 1 {
                assert(s[i] == decimal(n / 10)[i]);
            }
        }
        assert(s[0] == decimal(n / 10)[0]);
    } else {
        reveal_with_fuel(decimal_value, 2);
        assert(decimal(n).drop_last() =~= Seq::<char>::empty());
    }
}

/// The number that decimal digits spell.
pub open spec fn decimal_value(s: Seq<char>) -> nat
    decreases s.len(),
{
    if s.len() == 0 {
        0
    } else {
        (decimal_value(s.drop_last()) * 10 + (s.last() as int - '0' as int)) as nat
    }
}

/// Two numbers that read the same are the same.
pub proof fn law_numbers_read_differently(a: nat, b: nat)
    requires
        decimal(a) == decimal(b),
    ensures
        a == b,
{
    law_decimal_spells_the_number(a);
    law_decimal_spells_the_number(b);
}

/// The number that hexadecimal digits spell.
pub open spec fn hex_value(s: Seq<char>) -> nat
    decreases s.len(),
{
    if s.len() == 0 {
        0
    } else {
        (hex_value(s.drop_last()) * 16 + (if s.last() <= '9' {
            s.last() as int - '0' as int
        } else {
            s.last() as int - 'a' as int + 10
        })) as nat
    }
}

/// A number in hexadecimal spells the number, behind its prefix.
pub proof fn law_hex_spells_the_number(n: nat)
    ensures
        hex_digits(n).len() >= 1,
        hex_value(hex_digits(n)) == n,
        hex(n) == "0x"@ + hex_digits(n),
    decreases n,
{
    if n >= 16 {
        law_hex_spells_the_number(n / 16);
        assert(hex_digits(n).drop_last() =~= hex_digits(n / 16));
    } else {
        reveal_with_fuel(hex_value, 2);
        assert(hex_digits(n).drop_last() =~= Seq::<char>::empty());
    }
}

} // verus!
