use bnc::{from_descriptor, to_descriptor, StoreError, Value};

#[test]
fn descriptor_holds_only_the_path() {
    assert_eq!(to_descriptor("/tmp/x"), br#"{"path":"/tmp/x"}"#.to_vec());
}

#[test]
fn descriptor_escapes_and_round_trips() {
    let path = "/tmp/a\"b\\c";
    let d = to_descriptor(path);
    assert_eq!(d, br#"{"path":"/tmp/a\"b\\c"}"#.to_vec());
    assert_eq!(from_descriptor(&d), Ok(path.to_string()));
    assert_eq!(from_descriptor(&to_descriptor("")), Ok(String::new()));
}

#[test]
fn malformed_descriptor_is_a_codec_error() {
    assert_eq!(from_descriptor(b"{\"path\":\"x\""), Err(StoreError::Codec));
    assert_eq!(from_descriptor(b"{\"name\":\"x\"}"), Err(StoreError::Codec));
    assert_eq!(from_descriptor(b"{\"path\":x}"), Err(StoreError::Codec));
    assert_eq!(from_descriptor(b""), Err(StoreError::Codec));
}

#[test]
fn values_compare_by_bytes() {
    let a = Value::new(vec![1, 2]);
    let b = Value::from(vec![1, 2]);
    assert!(a == b);
    assert!(a != Value::new(vec![1]));
    assert_eq!(a.get(), &vec![1, 2]);
    assert!(a == vec![1, 2]);
    assert!(a != vec![2, 1]);
    assert_eq!(b.into_inner(), vec![1, 2]);
}

#[test]
fn errors_describe_themselves() {
    assert_eq!(StoreError::PathNotFound.message(), "collection path not found");
    assert_eq!(StoreError::Codec.message(), "bytes do not decode");
    assert_eq!(StoreError::StoreOpen.message(), "store could not be opened");
    assert_eq!(StoreError::IndexGap.message(), "slot index beyond the sequence length");
}
