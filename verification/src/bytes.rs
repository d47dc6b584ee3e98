//! The byte-buffer value type: an owned, growable, order-significant
//! sequence of bytes with structural equality, lexicographic ordering,
//! hex text interchange, and splitting/appending that transfers ownership.

use vstd::prelude::*;

use crate::hex::{
    hex_char_of, is_hex_digit, nibble_of, spec_hex_decode, spec_hex_encode, spec_hex_valid,
};

verus! {

use core::cmp::Ordering;
use vstd::string::StrSliceExecFns;
use vstd::string::StringExecFns;

/// Lexicographic, byte-for-byte comparison of two byte sequences: the first
/// differing byte decides; a strict prefix sorts before any extension of it.
pub open spec fn spec_lex_cmp(a: Seq<u8>, b: Seq<u8>) -> Ordering
    decreases a.len(),
{
    if a.len() == 0 && b.len() == 0 {
        Ordering::Equal
    } else if a.len() == 0 {
        Ordering::Less
    } else if b.len() == 0 {
        Ordering::Greater
    } else if a[0] < b[0] {
        Ordering::Less
    } else if a[0] > b[0] {
        Ordering::Greater
    } else {
        spec_lex_cmp(a.drop_first(), b.drop_first())
    }
}

/// Error reported by the raw hex-parse path.
#[derive(Clone, Copy, Debug, PartialEq, Eq, Structural)]
pub enum HexDecodeError {
    /// The input held an odd number of characters.
    OddLength,
    /// The input held a character that is not a hexadecimal digit.
    InvalidCharacter,
}

/// Error reported by the structured-textual decode path.
#[derive(Clone, Copy, Debug, PartialEq, Eq, Structural)]
pub enum StructuredFormatError {
    /// The input was at least two characters long but was not valid hex.
    InvalidHex,
    /// The input was shorter than two characters.
    InvalidFormat,
}

/// An owned, growable, contiguous sequence of bytes.
///
/// Its mathematical model (the view `@`) is the `Seq<u8>` of its contents.
#[derive(Debug, Hash)]
pub struct Bytes {
    data: Vec<u8>,
}

impl View for Bytes {
    type V = Seq<u8>;

    closed spec fn view(&self) -> Seq<u8> {
        self.data@
    }
}

impl Default for Bytes {
    /// An empty buffer.
    fn default() -> (r: Self)
        ensures
            r@ == Seq::<u8>::empty(),
    {
        Bytes { data: Vec::new() }
    }
}

impl Bytes {
    /// A new buffer of length 0.
    pub fn new() -> (r: Self)
        ensures
            r@ == Seq::<u8>::empty(),
    {
        Bytes { data: Vec::new() }
    }

    /// A new buffer of length `len`, every byte zero.
    pub fn new_with_len(len: usize) -> (r: Self)
        ensures
            r@ == Seq::new(len as nat, |i: int| 0u8),
    {
        let mut data: Vec<u8> = Vec::new();
        let mut i: usize = 0;
        while i < len
            invariant
                i <= len,
                data@ =~= Seq::new(i as nat, |j: int| 0u8),
            decreases len - i,
        {
            data.push(0);
            i = i + 1;
        }
        assert(data@ =~= Seq::new(len as nat, |i: int| 0u8));
        Bytes { data }
    }

    /// Wraps an existing owned byte sequence; no copy.
    pub fn from_vec(v: Vec<u8>) -> (r: Self)
        ensures
            r@ == v@,
    {
        Bytes { data: v }
    }

    /// A new buffer holding a copy of the bytes of `s`.
    pub fn from_slice(s: &[u8]) -> (r: Self)
        ensures
            r@ == s@,
    {
        Bytes { data: vstd::slice::slice_to_vec(s) }
    }

    /// Consumes the buffer and returns the underlying owned sequence; no copy.
    pub fn take(self) -> (r: Vec<u8>)
        ensures
            r@ == self@,
    {
        self.data
    }

    /// The current length in bytes.
    pub fn len(&self) -> (r: usize)
        ensures
            r == self@.len(),
    {
        self.data.len()
    }

    /// True iff the buffer holds no bytes.
    pub fn is_empty(&self) -> (r: bool)
        ensures
            r == (self@.len() == 0),
    {
        self.data.len() == 0
    }

    /// Borrows the contents as a slice.
    pub fn as_slice(&self) -> (r: &[u8])
        ensures
            r@ == self@,
    {
        self.data.as_slice()
    }

    /// The byte at position `i`.
    pub fn get(&self, i: usize) -> (r: u8)
        requires
            i < self@.len(),
        ensures
            r == self@[i as int],
    {
        self.data[i]
    }

    /// Overwrites the byte at position `i` with `v`.
    pub fn set(&mut self, i: usize, v: u8)
        requires
            i < old(self)@.len(),
        ensures
            final(self)@ == old(self)@.update(i as int, v),
    {
        self.data.set(i, v);
    }

    /// Appends one byte at the end.
    pub fn push(&mut self, v: u8)
        ensures
            final(self)@ == old(self)@.push(v),
    {
        self.data.push(v);
    }

    /// Moves all bytes of `other` onto the end of `self`; `other` becomes
    /// empty. `self`'s original bytes precede `other`'s.
    pub fn append(&mut self, other: &mut Bytes)
        ensures
            final(self)@ == old(self)@ + old(other)@,
            final(other)@ == Seq::<u8>::empty(),
    {
        self.data.append(&mut other.data);
    }

    /// Splits the buffer at `at`: returns a new buffer holding the bytes
    /// `[at, len())` and truncates `self` to `[0, at)`. The two results,
    /// concatenated in order, are the original contents.
    pub fn split_off(&mut self, at: usize) -> (r: Bytes)
        requires
            at <= old(self)@.len(),
        ensures
            final(self)@ == old(self)@.subrange(0, at as int),
            r@ == old(self)@.subrange(at as int, old(self)@.len() as int),
            old(self)@ == final(self)@ + r@,
    {
        let tail = self.data.split_off(at);
        proof {
            assert(old(self)@ =~= old(self)@.subrange(0, at as int) + old(self)@.subrange(
                at as int,
                old(self)@.len() as int,
            ));
        }
        Bytes { data: tail }
    }

    /// The canonical textual form: a lower-case hex string of exactly
    /// `2 * len()` characters, no separators, no prefix. The empty buffer
    /// encodes to the empty string.
    pub fn to_hex(&self) -> (r: String)
        ensures
            r@ == spec_hex_encode(self@),
            r@.len() == 2 * self@.len(),
            spec_hex_valid(r@),
            spec_hex_decode(r@) == self@,
    {
        proof {
            crate::hex::lemma_hex_round_trip(self@);
        }
        let mut out = String::new();
        let n = self.data.len();
        let mut i: usize = 0;
        while i < n
            invariant
                n == self@.len(),
                i <= n,
                out@ =~= spec_hex_encode(self@.subrange(0, i as int)),
            decreases n - i,
        {
            let b = self.data[i];
            out.append(crate::hex::hex_digit_str(b / 16));
            out.append(crate::hex::hex_digit_str(b % 16));
            proof {
                assert(spec_hex_encode(self@.subrange(0, i + 1)) =~= spec_hex_encode(
                    self@.subrange(0, i as int),
                ) + seq![hex_char_of(self@[i as int] / 16), hex_char_of(self@[i as int] % 16)]);
            }
            i = i + 1;
        }
        proof {
            assert(self@.subrange(0, n as int) =~= self@);
        }
        out
    }

    /// Parses a string of exactly `2k` hex digits (no prefix) into a
    /// `k`-byte buffer. An odd-length input is rejected as `OddLength`; an
    /// even-length input with any non-hex-digit character is rejected as
    /// `InvalidCharacter`; the empty string decodes to the empty buffer.
    pub fn from_hex(s: &str) -> (r: Result<Bytes, HexDecodeError>)
        ensures
            spec_hex_valid(s@) ==> (r matches Ok(b) && b@ == spec_hex_decode(s@)),
            s@.len() % 2 != 0 ==> r == Err::<Bytes, HexDecodeError>(HexDecodeError::OddLength),
            s@.len() % 2 == 0 && !spec_hex_valid(s@) ==> r == Err::<Bytes, HexDecodeError>(
                HexDecodeError::InvalidCharacter,
            ),
    {
        let n = s.unicode_len();
        if n % 2 != 0 {
            return Err(HexDecodeError::OddLength);
        }
        let mut out: Vec<u8> = Vec::new();
        let mut i: usize = 0;
        while i < n
            invariant
                n == s@.len(),
                n % 2 == 0,
                i % 2 == 0,
                i <= n,
                forall|j: int| 0 <= j < i ==> is_hex_digit(#[trigger] s@[j]),
                out@ =~= spec_hex_decode(s@.subrange(0, i as int)),
            decreases n - i,
        {
            let hi = match crate::hex::decode_hex_digit(s.get_char(i)) {
                Some(v) => v,
                None => {
                    return Err(HexDecodeError::InvalidCharacter);
                },
            };
            let lo = match crate::hex::decode_hex_digit(s.get_char(i + 1)) {
                Some(v) => v,
                None => {
                    return Err(HexDecodeError::InvalidCharacter);
                },
            };
            out.push(hi * 16 + lo);
            proof {
                assert(spec_hex_decode(s@.subrange(0, i + 2)) =~= spec_hex_decode(
                    s@.subrange(0, i as int),
                ).push((nibble_of(s@[i as int]) * 16 + nibble_of(s@[i as int + 1])) as u8));
            }
            i = i + 2;
        }
        proof {
            assert(s@.subrange(0, n as int) =~= s@);
        }
        Ok(Bytes { data: out })
    }

    /// Decodes the structured-interchange textual form: the hex form above,
    /// except that any input shorter than 2 characters is rejected as
    /// `InvalidFormat` (even the empty string, which plain hex decoding
    /// accepts), and any other failure is reported as `InvalidHex`.
    pub fn from_structured_text(s: &str) -> (r: Result<Bytes, StructuredFormatError>)
        ensures
            s@.len() < 2 ==> r == Err::<Bytes, StructuredFormatError>(
                StructuredFormatError::InvalidFormat,
            ),
            s@.len() >= 2 && spec_hex_valid(s@) ==> (r matches Ok(b) && b@ == spec_hex_decode(s@)),
            s@.len() >= 2 && !spec_hex_valid(s@) ==> r == Err::<Bytes, StructuredFormatError>(
                StructuredFormatError::InvalidHex,
            ),
    {
        let n = s.unicode_len();
        if n < 2 {
            return Err(StructuredFormatError::InvalidFormat);
        }
        match Bytes::from_hex(s) {
            Ok(b) => Ok(b),
            Err(_) => Err(StructuredFormatError::InvalidHex),
        }
    }
}

impl Clone for Bytes {
    /// A new buffer with the same contents.
    fn clone(&self) -> (r: Self)
        ensures
            r@ == self@,
    {
        let data = self.data.clone();
        proof {
            assert(data@ =~= self.data@);
        }
        Bytes { data }
    }
}

impl PartialEq for Bytes {
    /// Structural equality: same length, same bytes in the same order.
    fn eq(&self, other: &Bytes) -> (r: bool) {
        if self.data.len() != other.data.len() {
            return false;
        }
        let n = self.data.len();
        let mut i: usize = 0;
        while i < n
            invariant
                n == self@.len(),
                n == other@.len(),
                i <= n,
                forall|j: int| 0 <= j < i ==> self@[j] == other@[j],
            decreases n - i,
        {
            if self.data[i] != other.data[i] {
                return false;
            }
            i = i + 1;
        }
        proof {
            assert(self@ =~= other@);
        }
        true
    }
}

impl Eq for Bytes {

}

impl vstd::std_specs::cmp::PartialEqSpecImpl for Bytes {
    open spec fn obeys_eq_spec() -> bool {
        true
    }

    open spec fn eq_spec(&self, other: &Bytes) -> bool {
        self@ == other@
    }
}

impl PartialOrd for Bytes {
    /// Total, lexicographic byte-for-byte order; always returns `Some`.
    fn partial_cmp(&self, other: &Bytes) -> (r: Option<Ordering>) {
        let a_len = self.data.len();
        let b_len = other.data.len();
        let n = if a_len < b_len {
            a_len
        } else {
            b_len
        };
        let mut i: usize = 0;
        proof {
            assert(self@.skip(0) =~= self@);
            assert(other@.skip(0) =~= other@);
        }
        while i < n
            invariant
                n <= self@.len(),
                n <= other@.len(),
                n == vstd::math::min(self@.len() as int, other@.len() as int),
                i <= n,
                spec_lex_cmp(self@, other@) == spec_lex_cmp(
                    self@.skip(i as int),
                    other@.skip(i as int),
                ),
            decreases n - i,
        {
            let x = self.data[i];
            let y = other.data[i];
            proof {
                assert(self@.skip(i as int)[0] == self@[i as int]);
                assert(other@.skip(i as int)[0] == other@[i as int]);
                assert(self@.skip(i as int).drop_first() =~= self@.skip(i + 1));
                assert(other@.skip(i as int).drop_first() =~= other@.skip(i + 1));
            }
            if x < y {
                return Some(Ordering::Less);
            }
            if x > y {
                return Some(Ordering::Greater);
            }
            i = i + 1;
        }
        proof {
            assert(self@.skip(n as int).len() == self@.len() - n);
            assert(other@.skip(n as int).len() == other@.len() - n);
        }
        if a_len < b_len {
            Some(Ordering::Less)
        } else if a_len > b_len {
            Some(Ordering::Greater)
        } else {
            Some(Ordering::Equal)
        }
    }
}

impl vstd::std_specs::cmp::PartialOrdSpecImpl for Bytes {
    open spec fn obeys_partial_cmp_spec() -> bool {
        true
    }

    open spec fn partial_cmp_spec(&self, other: &Bytes) -> Option<Ordering> {
        Some(spec_lex_cmp(self@, other@))
    }
}

/// Law: the lexicographic comparison is `Equal` exactly on equal sequences;
/// together with its other two outcomes it is a total order's comparison.
pub proof fn lemma_lex_cmp_equal_iff(a: Seq<u8>, b: Seq<u8>)
    ensures
        spec_lex_cmp(a, b) == Ordering::Equal <==> a == b,
    decreases a.len(),
{
    if a.len() > 0 && b.len() > 0 && a[0] == b[0] {
        lemma_lex_cmp_equal_iff(a.drop_first(), b.drop_first());
        if a.drop_first() == b.drop_first() {
            assert(a.len() == b.len());
            assert forall|i: int| 0 <= i < a.len() implies a[i] == b[i] by {
                if i > 0 {
                    assert(a[i] == a.drop_first()[i - 1]);
                    assert(b[i] == b.drop_first()[i - 1]);
                }
            }
            assert(a =~= b);
        }
        if a == b {
            assert(a.drop_first() =~= b.drop_first());
        }
    } else {
        if a.len() == 0 && b.len() == 0 {
            assert(a =~= b);
        }
        if a == b {
            assert(a.len() == b.len());
            if a.len() > 0 {
                assert(a[0] == b[0]);
            }
        }
    }
}

/// Law: the comparison is antisymmetric — swapping the arguments swaps
/// `Less` and `Greater` and keeps `Equal`.
pub proof fn lemma_lex_cmp_antisymmetric(a: Seq<u8>, b: Seq<u8>)
    ensures
        spec_lex_cmp(a, b) == Ordering::Less <==> spec_lex_cmp(b, a) == Ordering::Greater,
        spec_lex_cmp(a, b) == Ordering::Equal <==> spec_lex_cmp(b, a) == Ordering::Equal,
    decreases a.len(),
{
    if a.len() > 0 && b.len() > 0 && a[0] == b[0] {
        lemma_lex_cmp_antisymmetric(a.drop_first(), b.drop_first());
    }
}

/// Law: the comparison is transitive in `Less`.
pub proof fn lemma_lex_cmp_transitive(a: Seq<u8>, b: Seq<u8>, c: Seq<u8>)
    requires
        spec_lex_cmp(a, b) == Ordering::Less,
        spec_lex_cmp(b, c) == Ordering::Less,
    ensures
        spec_lex_cmp(a, c) == Ordering::Less,
    decreases a.len(),
{
    if a.len() > 0 && b.len() > 0 && c.len() > 0 && a[0] == b[0] && b[0] == c[0] {
        lemma_lex_cmp_transitive(a.drop_first(), b.drop_first(), c.drop_first());
    }
}

/// Law: a buffer that is a strict prefix of another sorts before it.
pub proof fn lemma_prefix_sorts_first(a: Seq<u8>, b: Seq<u8>)
    requires
        a.len() < b.len(),
        a == b.subrange(0, a.len() as int),
    ensures
        spec_lex_cmp(a, b) == Ordering::Less,
    decreases a.len(),
{
    if a.len() == 0 {
    } else {
        assert(a[0] == b.subrange(0, a.len() as int)[0]);
        assert(a.drop_first() =~= b.drop_first().subrange(0, a.len() - 1));
        lemma_prefix_sorts_first(a.drop_first(), b.drop_first());
    }
}

} // verus!
