use voidmerge::error::WithInfo;
use voidmerge::{Error, ErrorExt, ErrorKind};

#[test]
fn error_fmt() {
    let a = <Error as ErrorExt>::timeout("test1").with_info("hello");
    println!("{}", a.to_string());
    assert_eq!(a.to_string(), "test1: hello");
    assert_eq!(a.kind(), ErrorKind::TimedOut);
    let b = <Error as ErrorExt>::timeout("test2").with_info("world");
    println!("{:?}", b);
    assert_eq!(b.to_string(), "test2: world");
}

#[test]
fn with_info_keeps_kind_and_joins_text() {
    let e = Error::not_found("missing").with_info("while reading");
    assert_eq!(e.kind(), ErrorKind::NotFound);
    assert_eq!(e.to_string(), "missing: while reading");
}

#[test]
fn with_info_without_message_says_none() {
    let e = Error::from_kind(ErrorKind::InvalidData).with_info("x");
    assert_eq!(e.to_string(), "none: x");
}

#[test]
fn kind_with_info_uses_kind_text() {
    let e = ErrorKind::PermissionDenied.with_info("nope");
    assert_eq!(e.kind(), ErrorKind::PermissionDenied);
    assert_eq!(e.to_string(), "permission denied: nope");
}

#[test]
fn error_without_message_shows_kind() {
    assert_eq!(Error::from_kind(ErrorKind::NotFound).to_string(), "entity not found");
    assert_eq!(Error::other("x").kind(), ErrorKind::Other);
    assert_eq!(Error::unauthorized("y").kind(), ErrorKind::PermissionDenied);
}

#[test]
fn with_info_struct_text() {
    let w = WithInfo::new(Error::other("inner"), "more");
    assert_eq!(w.to_string(), "inner: more");
    assert_eq!(w.info, "more");
}

#[test]
fn safe_str_accepts_and_refuses() {
    assert!(voidmerge::safe_str("abc-XYZ_09.~").is_ok());
    let e = voidmerge::safe_str("a/b").unwrap_err();
    assert_eq!(e.kind(), ErrorKind::Other);
    assert!(voidmerge::safe_str("").is_ok());
    assert!(voidmerge::safe_str("a b").is_err());
}
