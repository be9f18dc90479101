use bnc::{from_descriptor, to_descriptor, Mapi, SeqLength, SlotWrite, StoreError};

fn sample(idx: u64) -> Vec<u8> {
    idx.to_le_bytes().to_vec()
}

#[test]
fn push_grows_by_one_and_lands_last() {
    let mut len = SeqLength::new(0);
    assert!(len.is_empty());
    assert_eq!(len.last(), None);
    assert_eq!(len.push(), 0);
    assert_eq!(len.push(), 1);
    assert_eq!(len.len(), 2);
    assert_eq!(len.last(), Some(1));
    assert!(len.contains(1));
    assert!(!len.contains(2));
}

#[test]
fn set_at_len_appends_like_push() {
    let mut a = SeqLength::new(5);
    let mut b = SeqLength::new(5);
    assert_eq!(a.set_value(5), Ok(SlotWrite::Append));
    assert_eq!(b.push(), 5);
    assert_eq!(a.len(), b.len());
    assert_eq!(a.set_value(0), Ok(SlotWrite::Overwrite));
    assert_eq!(a.len(), 6);
    assert_eq!(a.set_value(9), Err(StoreError::IndexGap));
    assert_eq!(a.len(), 6);
}

#[test]
fn length_record_round_trip() {
    let len = SeqLength::new(200);
    let back = SeqLength::from_record(&len.record()).unwrap();
    assert_eq!(back.len(), 200);
    assert_eq!(SeqLength::from_record(&[0, 1]).err(), Some(StoreError::Codec));
}

#[test]
fn sequence_restore_scenario() {
    let path = "/tmp/bnc_test/Vecx";
    let mut slots = Mapi::new(path).unwrap();
    let mut len = SeqLength::new(0);
    for i in 0..200u64 {
        let idx = len.push();
        assert_eq!(idx, i);
        slots.set_value(idx, sample(i));
        assert_eq!(len.len(), i + 1);
        assert_eq!(slots.get(&len.last().unwrap()), Some(sample(i)));
    }
    let record = len.record();
    let descriptor = to_descriptor(path);
    let restored_path = from_descriptor(&descriptor).unwrap();
    assert_eq!(restored_path, path);
    let mut restored = SeqLength::from_record(&record).unwrap();
    assert_eq!(restored.len(), 200);
    assert_eq!(slots.get(&150), Some(sample(150)));
    assert_eq!(restored.set_value(0), Ok(SlotWrite::Overwrite));
    slots.set_value(0, sample(20000));
    assert_eq!(restored.len(), 200);
    assert_eq!(restored.set_value(200), Ok(SlotWrite::Append));
    slots.set_value(200, sample(200000));
    assert_eq!(restored.len(), 201);
    assert_eq!(slots.get(&200), Some(sample(200000)));
}
