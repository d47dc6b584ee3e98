//! The hex text format: an even-length, prefix-free string of hexadecimal
//! digits, two digits per byte, encoded in lower case.
//!
//! The spec functions here are the mathematical model of the format; the
//! executable codec on `Bytes` is proved against them.

use vstd::prelude::*;

verus! {

/// True iff `c` is a hexadecimal digit: `0-9`, `a-f` or `A-F`.
pub open spec fn is_hex_digit(c: char) -> bool {
    ('0' <= c && c <= '9') || ('a' <= c && c <= 'f') || ('A' <= c && c <= 'F')
}

/// The numeric value of a hexadecimal digit, and 0 for any other character;
/// callers guard with `is_hex_digit`.
pub open spec fn nibble_of(c: char) -> u8 {
    if '0' <= c && c <= '9' {
        (c as u32 - '0' as u32) as u8
    } else if 'a' <= c && c <= 'f' {
        (c as u32 - 'a' as u32 + 10) as u8
    } else if 'A' <= c && c <= 'F' {
        (c as u32 - 'A' as u32 + 10) as u8
    } else {
        0
    }
}

/// The lower-case hexadecimal digit for a nibble value `n < 16`.
pub open spec fn hex_char_of(n: u8) -> char {
    if n == 0 { '0' }
    else if n == 1 { '1' }
    else if n == 2 { '2' }
    else if n == 3 { '3' }
    else if n == 4 { '4' }
    else if n == 5 { '5' }
    else if n == 6 { '6' }
    else if n == 7 { '7' }
    else if n == 8 { '8' }
    else if n == 9 { '9' }
    else if n == 10 { 'a' }
    else if n == 11 { 'b' }
    else if n == 12 { 'c' }
    else if n == 13 { 'd' }
    else if n == 14 { 'e' }
    else { 'f' }
}

/// A character sequence is valid hex iff it has even length and every
/// character is a hexadecimal digit.
pub open spec fn spec_hex_valid(s: Seq<char>) -> bool {
    s.len() % 2 == 0 && forall|i: int| 0 <= i < s.len() ==> is_hex_digit(#[trigger] s[i])
}

/// The canonical lower-case hex encoding of a byte sequence: two digits per
/// byte, high nibble first.
pub open spec fn spec_hex_encode(b: Seq<u8>) -> Seq<char> {
    Seq::new(2 * b.len(), |i: int| if i % 2 == 0 {
        hex_char_of(b[i / 2] / 16)
    } else {
        hex_char_of(b[i / 2] % 16)
    })
}

/// The byte sequence denoted by a valid hex character sequence: each pair of
/// digits gives one byte, high nibble first.
pub open spec fn spec_hex_decode(s: Seq<char>) -> Seq<u8> {
    Seq::new(s.len() / 2, |i: int| (nibble_of(s[2 * i]) * 16 + nibble_of(s[2 * i + 1])) as u8)
}

/// Maps the upper-case hex digits to lower case; every other character is
/// left unchanged.
pub open spec fn lower_hex_char(c: char) -> char {
    if c == 'A' { 'a' }
    else if c == 'B' { 'b' }
    else if c == 'C' { 'c' }
    else if c == 'D' { 'd' }
    else if c == 'E' { 'e' }
    else if c == 'F' { 'f' }
    else { c }
}

/// The character sequence with every upper-case hex digit lowered.
pub open spec fn spec_to_lower_hex(s: Seq<char>) -> Seq<char> {
    Seq::new(s.len(), |i: int| lower_hex_char(s[i]))
}

/// Every nibble value encodes to a hex digit, and decoding that digit gives
/// the nibble back.
proof fn lemma_digit_round(n: u8)
    requires
        n < 16,
    ensures
        is_hex_digit(hex_char_of(n)),
        nibble_of(hex_char_of(n)) == n,
{
}

/// For a hex digit, re-encoding its value gives the digit back in lower
/// case, and lowering it does not change its value.
proof fn lemma_char_round(c: char)
    requires
        is_hex_digit(c),
    ensures
        hex_char_of(nibble_of(c)) == lower_hex_char(c),
        nibble_of(lower_hex_char(c)) == nibble_of(c),
{
}

/// Law: the hex encoding of any byte sequence is valid hex, and decoding it
/// gives the byte sequence back.
pub proof fn lemma_hex_round_trip(b: Seq<u8>)
    ensures
        spec_hex_valid(spec_hex_encode(b)),
        spec_hex_decode(spec_hex_encode(b)) == b,
{
    let e = spec_hex_encode(b);
    assert forall|i: int| 0 <= i < e.len() implies is_hex_digit(#[trigger] e[i]) by {
        let n = if i % 2 == 0 { b[i / 2] / 16 } else { b[i / 2] % 16 };
        lemma_digit_round(n);
    }
    assert forall|i: int| 0 <= i < b.len() implies spec_hex_decode(e)[i] == b[i] by {
        assert(e[2 * i] == hex_char_of(b[i] / 16));
        assert(e[2 * i + 1] == hex_char_of(b[i] % 16));
        lemma_digit_round(b[i] / 16);
        lemma_digit_round(b[i] % 16);
        assert(b[i] / 16 * 16 + b[i] % 16 == b[i]);
    }
    assert(spec_hex_decode(e) =~= b);
}

/// Law: encoding the decoding of any valid hex string gives the same string,
/// lowered.
pub proof fn lemma_hex_encode_of_decode(s: Seq<char>)
    requires
        spec_hex_valid(s),
    ensures
        spec_hex_encode(spec_hex_decode(s)) == spec_to_lower_hex(s),
{
    let d = spec_hex_decode(s);
    let e = spec_hex_encode(d);
    assert(e.len() == s.len());
    assert forall|i: int| 0 <= i < s.len() implies e[i] == lower_hex_char(s[i]) by {
        let k = i / 2;
        let x = nibble_of(s[2 * k]);
        let y = nibble_of(s[2 * k + 1]);
        lemma_digit_round(x);
        lemma_digit_round(y);
        assert(d[k] == (x * 16 + y) as u8);
        assert(x * 16 + y < 256);
        assert((x * 16 + y) as u8 / 16 == x);
        assert((x * 16 + y) as u8 % 16 == y);
        if i % 2 == 0 {
            assert(2 * k == i);
            lemma_char_round(s[i]);
        } else {
            assert(2 * k + 1 == i);
            lemma_char_round(s[i]);
        }
    }
    assert(e =~= spec_to_lower_hex(s));
}

/// The lower-case digit for a nibble value, as a one-character string.
pub(crate) fn hex_digit_str(n: u8) -> (r: &'static str)
    requires
        n < 16,
    ensures
        r@ == seq![hex_char_of(n)],
{
    if n == 0 {
        proof { reveal_strlit("0"); assert("0"@ =~= seq![hex_char_of(0u8)]); }
        "0"
    } else if n == 1 {
        proof { reveal_strlit("1"); assert("1"@ =~= seq![hex_char_of(1u8)]); }
        "1"
    } else if n == 2 {
        proof { reveal_strlit("2"); assert("2"@ =~= seq![hex_char_of(2u8)]); }
        "2"
    } else if n == 3 {
        proof { reveal_strlit("3"); assert("3"@ =~= seq![hex_char_of(3u8)]); }
        "3"
    } else if n == 4 {
        proof { reveal_strlit("4"); assert("4"@ =~= seq![hex_char_of(4u8)]); }
        "4"
    } else if n == 5 {
        proof { reveal_strlit("5"); assert("5"@ =~= seq![hex_char_of(5u8)]); }
        "5"
    } else if n == 6 {
        proof { reveal_strlit("6"); assert("6"@ =~= seq![hex_char_of(6u8)]); }
        "6"
    } else if n == 7 {
        proof { reveal_strlit("7"); assert("7"@ =~= seq![hex_char_of(7u8)]); }
        "7"
    } else if n == 8 {
        proof { reveal_strlit("8"); assert("8"@ =~= seq![hex_char_of(8u8)]); }
        "8"
    } else if n == 9 {
        proof { reveal_strlit("9"); assert("9"@ =~= seq![hex_char_of(9u8)]); }
        "9"
    } else if n == 10 {
        proof { reveal_strlit("a"); assert("a"@ =~= seq![hex_char_of(10u8)]); }
        "a"
    } else if n == 11 {
        proof { reveal_strlit("b"); assert("b"@ =~= seq![hex_char_of(11u8)]); }
        "b"
    } else if n == 12 {
        proof { reveal_strlit("c"); assert("c"@ =~= seq![hex_char_of(12u8)]); }
        "c"
    } else if n == 13 {
        proof { reveal_strlit("d"); assert("d"@ =~= seq![hex_char_of(13u8)]); }
        "d"
    } else if n == 14 {
        proof { reveal_strlit("e"); assert("e"@ =~= seq![hex_char_of(14u8)]); }
        "e"
    } else {
        proof { reveal_strlit("f"); assert("f"@ =~= seq![hex_char_of(15u8)]); }
        "f"
    }
}

/// The value of a hex digit character, or `None` for any other character.
pub(crate) fn decode_hex_digit(c: char) -> (r: Option<u8>)
    ensures
        is_hex_digit(c) ==> r == Some(nibble_of(c)),
        !is_hex_digit(c) ==> r is None,
{
    let v = c as u32;
    if v >= 48 && v <= 57 {
        Some((v - 48) as u8)
    } else if v >= 97 && v <= 102 {
        Some((v - 87) as u8)
    } else if v >= 65 && v <= 70 {
        Some((v - 55) as u8)
    } else {
        None
    }
}

} // verus!
