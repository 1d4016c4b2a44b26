use zstring::ZBytesRef;

#[test]
fn zbytes_basics() {
    let _ = ZBytesRef::try_from("hello\0").unwrap();
    let _ = ZBytesRef::try_from(b"hello\0").unwrap();
    let _ = ZBytesRef::try_from(b"hello\0".as_ref()).unwrap();

    assert_eq!(ZBytesRef::try_from(" A\0").unwrap().to_string(), "[32, 65]");
}
