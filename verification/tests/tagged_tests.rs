use bytebuf::{Bytes, TaggedBytes};

struct PublicKeyRole;

struct SignatureRole;

#[test]
fn wrap_unwrap_round_trip() {
    let b = Bytes::from_hex("0145").unwrap();
    let t: TaggedBytes<PublicKeyRole> = TaggedBytes::new(b.clone());
    let rewrapped: TaggedBytes<PublicKeyRole> = TaggedBytes::new(t.clone().into_raw());
    assert!(rewrapped == t);
    assert_eq!(t.into_raw(), b);
}

#[test]
fn tagged_equality_delegates_to_contents() {
    let a: TaggedBytes<PublicKeyRole> = TaggedBytes::new(Bytes::from_vec(vec![1u8, 2]));
    let b: TaggedBytes<PublicKeyRole> = TaggedBytes::new(Bytes::from_vec(vec![1u8, 2]));
    let c: TaggedBytes<PublicKeyRole> = TaggedBytes::new(Bytes::from_vec(vec![1u8, 3]));
    assert!(a == b);
    assert!(!(a == c));
}

// Two markers over byte-identical content give distinct static types: a
// `TaggedBytes<PublicKeyRole>` cannot be passed or compared where a
// `TaggedBytes<SignatureRole>` is expected; the type checker refuses it.
// That guarantee is compile-time only, so no runtime assertion can exercise
// it; this test only shows that both instantiations coexist.
#[test]
fn distinct_markers_coexist() {
    let key: TaggedBytes<PublicKeyRole> = TaggedBytes::new(Bytes::from_vec(vec![7u8]));
    let sig: TaggedBytes<SignatureRole> = TaggedBytes::new(Bytes::from_vec(vec![7u8]));
    assert_eq!(key.into_raw(), sig.into_raw());
}

#[test]
fn tagged_access_passes_through() {
    let mut t: TaggedBytes<PublicKeyRole> = TaggedBytes::new(Bytes::from_vec(vec![5u8, 6]));
    assert_eq!(t.len(), 2);
    assert!(!t.is_empty());
    assert_eq!(t.get(0), 5);
    t.set(0, 9);
    assert_eq!(t.as_slice(), &[9u8, 6]);

    let d: TaggedBytes<SignatureRole> = TaggedBytes::default();
    assert!(d.is_empty());
}
