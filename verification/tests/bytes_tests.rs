use bytebuf::{Bytes, HexDecodeError, StructuredFormatError};

#[test]
fn test_bytes_from_hex() {
    let bytes = Bytes::from_hex("0145").unwrap();
    assert_eq!(bytes, Bytes::from_vec(vec![0x01, 0x45]));
}

#[test]
fn test_bytes_debug_formatter() {
    let bytes = Bytes::from_hex("0145").unwrap();
    assert_eq!(bytes.to_hex(), String::from("0145"));
}

#[test]
fn encode_gives_exact_lowercase_hex() {
    let b = Bytes::from_vec(vec![0x01, 0x45, 0xde, 0xad, 0x00, 0xff]);
    assert_eq!(b.to_hex(), String::from("0145dead00ff"));
}

#[test]
fn encode_empty_is_empty_string() {
    let b = Bytes::new();
    assert_eq!(b.to_hex(), String::from(""));
}

#[test]
fn decode_accepts_upper_and_lower_case() {
    let b = Bytes::from_hex("aB0F").unwrap();
    assert_eq!(b, Bytes::from_vec(vec![0xab, 0x0f]));
}

#[test]
fn round_trip_decode_of_encode() {
    let cases: Vec<Vec<u8>> = vec![
        vec![],
        vec![0x00],
        vec![0xff],
        vec![0x01, 0x45],
        vec![0xde, 0xad, 0xbe, 0xef],
        (0u8..=255u8).collect(),
    ];
    for v in cases {
        let b = Bytes::from_vec(v);
        let text = b.to_hex();
        let back = Bytes::from_hex(&text).unwrap();
        assert_eq!(back, b);
    }
}

#[test]
fn round_trip_encode_of_decode_lowercases() {
    let cases = ["", "00", "0145", "DEADBEEF", "dEaDbEeF", "aB0F"];
    for s in cases {
        let b = Bytes::from_hex(s).unwrap();
        assert_eq!(b.to_hex(), s.to_lowercase());
    }
}

#[test]
fn hex_decode_empty_succeeds() {
    let b = Bytes::from_hex("").unwrap();
    assert!(b.is_empty());
    assert_eq!(b.len(), 0);
}

#[test]
fn hex_decode_odd_length_fails() {
    assert_eq!(Bytes::from_hex("f"), Err(HexDecodeError::OddLength));
    assert_eq!(Bytes::from_hex("012"), Err(HexDecodeError::OddLength));
}

#[test]
fn hex_decode_bad_character_fails() {
    assert_eq!(Bytes::from_hex("zz"), Err(HexDecodeError::InvalidCharacter));
    assert_eq!(Bytes::from_hex("0g"), Err(HexDecodeError::InvalidCharacter));
    assert_eq!(Bytes::from_hex("  "), Err(HexDecodeError::InvalidCharacter));
}

#[test]
fn structured_decode_accepts_valid_hex() {
    let b = Bytes::from_structured_text("0145").unwrap();
    assert_eq!(b, Bytes::from_vec(vec![0x01, 0x45]));
}

#[test]
fn structured_decode_rejects_short_input() {
    assert_eq!(
        Bytes::from_structured_text(""),
        Err(StructuredFormatError::InvalidFormat)
    );
    assert_eq!(
        Bytes::from_structured_text("a"),
        Err(StructuredFormatError::InvalidFormat)
    );
}

#[test]
fn structured_decode_rejects_bad_hex() {
    assert_eq!(
        Bytes::from_structured_text("zz"),
        Err(StructuredFormatError::InvalidHex)
    );
    assert_eq!(
        Bytes::from_structured_text("012"),
        Err(StructuredFormatError::InvalidHex)
    );
}

#[test]
fn split_off_law() {
    let original = vec![1u8, 2, 3, 4, 5];
    for at in 0..=original.len() {
        let mut b = Bytes::from_vec(original.clone());
        let tail = b.split_off(at);
        let mut rejoined = b.take();
        rejoined.extend_from_slice(tail.as_slice());
        assert_eq!(rejoined, original);
    }
}

#[test]
fn append_law() {
    let mut a = Bytes::from_vec(vec![1u8, 2]);
    let mut c = Bytes::from_vec(vec![3u8, 4, 5]);
    a.append(&mut c);
    assert_eq!(a, Bytes::from_vec(vec![1u8, 2, 3, 4, 5]));
    assert!(c.is_empty());
}

#[test]
fn ordering_is_lexicographic() {
    assert!(Bytes::from_hex("01").unwrap() < Bytes::from_hex("02").unwrap());
    assert!(Bytes::from_hex("01").unwrap() < Bytes::from_hex("0100").unwrap());
    assert!(Bytes::from_hex("02").unwrap() > Bytes::from_hex("0100").unwrap());
    assert!(Bytes::from_hex("0145").unwrap() <= Bytes::from_hex("0145").unwrap());
    assert!(Bytes::from_hex("").unwrap() < Bytes::from_hex("00").unwrap());
}

#[test]
fn equality_is_structural() {
    assert_eq!(Bytes::from_vec(vec![1u8, 2]), Bytes::from_vec(vec![1u8, 2]));
    assert_ne!(Bytes::from_vec(vec![1u8, 2]), Bytes::from_vec(vec![1u8, 3]));
    assert_ne!(Bytes::from_vec(vec![1u8, 2]), Bytes::from_vec(vec![1u8, 2, 0]));
}

#[test]
fn constructors_and_access() {
    let z = Bytes::new_with_len(3);
    assert_eq!(z.len(), 3);
    assert_eq!(z.as_slice(), &[0u8, 0, 0]);

    let mut b = Bytes::from_slice(&[9u8, 8, 7]);
    assert_eq!(b.get(1), 8);
    b.set(1, 42);
    assert_eq!(b.get(1), 42);
    b.push(6);
    assert_eq!(b.take(), vec![9u8, 42, 7, 6]);

    assert!(Bytes::new().is_empty());
    assert!(Bytes::default().is_empty());
}

#[test]
fn clone_preserves_contents() {
    let b = Bytes::from_hex("0145").unwrap();
    let c = b.clone();
    assert_eq!(b, c);
    assert_eq!(c.to_hex(), String::from("0145"));
}
