
use voidmerge::text::{parse_u64, u64_to_text};
use voidmerge::ErrorKind;

#[test]
fn hash_text_round_trip() {
    let h = voidmerge::hash::Hash::from_static(&[1, 2, 3, 250]);
    let t = h.to_string();
    assert_eq!(t, "AQID-g");
    let back = voidmerge::hash::Hash::parse(&t).unwrap();
    assert_eq!(back.as_bytes(), h.as_bytes());
    assert_eq!(voidmerge::hash::Hash::parse("!!").unwrap_err().kind(), ErrorKind::InvalidData);
}

#[test]
fn hash_basics() {
    assert!(voidmerge::hash::Hash::from_vec(vec![]).is_empty());
    assert_eq!(voidmerge::hash::Hash::nonce().len(), 24);
    assert_eq!(voidmerge::hash::Hash::rand(5).len(), 5);
    let s = voidmerge::hash::Hash::sha2_512(b"abc");
    assert_eq!(s.len(), 64);
    assert_eq!(&s.as_bytes()[..4], &[0xdd, 0xaf, 0x35, 0xa1]);
    assert_eq!(s.truncated(24).as_bytes(), &s.as_bytes()[..24]);
}

#[test]
fn decimal_text() {
    assert_eq!(u64_to_text(0), "0");
    assert_eq!(u64_to_text(1234), "1234");
    assert_eq!(parse_u64("1234"), Some(1234));
    assert_eq!(parse_u64("18446744073709551615"), Some(u64::MAX));
    assert_eq!(parse_u64("18446744073709551616"), None);
    assert_eq!(parse_u64(""), None);
    assert_eq!(parse_u64("1x"), None);
}
