//! An owned, growable byte-buffer value type with a canonical hex text form,
//! plus a zero-cost compile-time tagging wrapper that distinguishes buffers
//! playing different semantic roles.

mod bytes;
mod hex;
mod tagged;

pub use bytes::Bytes;
pub use bytes::HexDecodeError;
pub use bytes::StructuredFormatError;
pub use bytes::lemma_lex_cmp_antisymmetric;
pub use bytes::lemma_lex_cmp_equal_iff;
pub use bytes::lemma_lex_cmp_transitive;
pub use bytes::lemma_prefix_sorts_first;
pub use bytes::spec_lex_cmp;
pub use hex::hex_char_of;
pub use hex::is_hex_digit;
pub use hex::lemma_hex_encode_of_decode;
pub use hex::lemma_hex_round_trip;
pub use hex::lower_hex_char;
pub use hex::nibble_of;
pub use hex::spec_hex_decode;
pub use hex::spec_hex_encode;
pub use hex::spec_hex_valid;
pub use hex::spec_to_lower_hex;
pub use tagged::TaggedBytes;
