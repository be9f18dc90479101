use bnc::codec::{decode_entries, decode_key, decode_len, encode_key, encode_len};
use bnc::StoreError;

#[test]
fn key_bytes_are_big_endian() {
    assert_eq!(encode_key(0x0102030405060708), vec![1, 2, 3, 4, 5, 6, 7, 8]);
    assert_eq!(encode_key(0), vec![0; 8]);
    assert_eq!(encode_key(u64::MAX), vec![255; 8]);
}

#[test]
fn key_round_trip_and_rejects() {
    for k in [0u64, 1, 255, 256, 1 << 40, u64::MAX] {
        assert_eq!(decode_key(&encode_key(k)), Ok(k));
    }
    assert_eq!(decode_key(&[1, 2, 3]), Err(StoreError::Codec));
    assert_eq!(decode_key(&[0; 9]), Err(StoreError::Codec));
}

#[test]
fn key_byte_order_matches_numeric_order() {
    let keys = [0u64, 1, 255, 256, 65535, 65536, 1 << 56, u64::MAX - 1, u64::MAX];
    for a in keys {
        for b in keys {
            assert_eq!(encode_key(a) < encode_key(b), a < b);
        }
    }
}

#[test]
fn length_record_is_little_endian() {
    assert_eq!(encode_len(200), vec![200, 0, 0, 0, 0, 0, 0, 0]);
    assert_eq!(encode_len(0x0102), vec![2, 1, 0, 0, 0, 0, 0, 0]);
    assert_eq!(decode_len(&encode_len(201)), Ok(201));
    let mut longer = encode_len(7);
    longer.push(99);
    assert_eq!(decode_len(&longer), Ok(7));
    assert_eq!(decode_len(&[1, 2, 3, 4, 5, 6, 7]), Err(StoreError::Codec));
}

#[test]
fn scan_decodes_in_order() {
    let raw = vec![
        (encode_key(1), b"a".to_vec()),
        (encode_key(3), b"c".to_vec()),
        (encode_key(300), b"z".to_vec()),
    ];
    assert_eq!(
        decode_entries(&raw),
        Ok(vec![(1, b"a".to_vec()), (3, b"c".to_vec()), (300, b"z".to_vec())])
    );
    assert_eq!(decode_entries(&vec![]), Ok(vec![]));
}

#[test]
fn scan_rejects_disorder_and_bad_keys() {
    let disorder = vec![(encode_key(5), vec![]), (encode_key(2), vec![])];
    assert_eq!(decode_entries(&disorder), Err(StoreError::Codec));
    let repeated = vec![(encode_key(5), vec![]), (encode_key(5), vec![])];
    assert_eq!(decode_entries(&repeated), Err(StoreError::Codec));
    let short = vec![(vec![1, 2], vec![])];
    assert_eq!(decode_entries(&short), Err(StoreError::Codec));
}
