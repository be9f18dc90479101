use bnc::{Entry, Mapi};

fn v(s: &str) -> Vec<u8> {
    s.as_bytes().to_vec()
}

#[test]
fn scenario_insert_iterate_remove() {
    let mut m = Mapi::new("/tmp/unused").unwrap();
    m.insert(5, v("e"));
    m.insert(1, v("a"));
    m.insert(3, v("c"));
    assert_eq!(m.iter(), vec![(1, v("a")), (3, v("c")), (5, v("e"))]);
    assert_eq!(m.get(&3), Some(v("c")));
    m.remove(&1);
    assert_eq!(m.len(), 2);
}

#[test]
fn len_counts_distinct_live_keys() {
    let mut m = Mapi::new("").unwrap();
    assert!(m.is_empty());
    assert_eq!(m.insert(7, v("x")), None);
    assert_eq!(m.insert(7, v("y")), Some(v("x")));
    m.set_value(8, v("z"));
    assert_eq!(m.len(), 2);
    m.unset_value(&9);
    assert_eq!(m.len(), 2);
    assert_eq!(m.remove(&7), Some(v("y")));
    assert_eq!(m.remove(&7), None);
    assert_eq!(m.len(), 1);
    for k in 0..10u64 {
        assert_eq!(m.contains_key(&k), m.get(&k).is_some());
    }
}

#[test]
fn iteration_ascends_after_mixed_updates() {
    let mut m = Mapi::new("").unwrap();
    for k in [40u64, 3, 17, u64::MAX, 0, 256, 255] {
        m.insert(k, vec![k as u8]);
    }
    m.remove(&17);
    m.insert(1, v("one"));
    let keys: Vec<u64> = m.iter().into_iter().map(|(k, _)| k).collect();
    assert_eq!(keys, vec![0, 1, 3, 40, 255, 256, u64::MAX]);
}

#[test]
fn closest_neighbours_and_range() {
    let mut m = Mapi::new("").unwrap();
    for k in [10u64, 20, 30] {
        m.insert(k, vec![k as u8]);
    }
    assert_eq!(m.get_closest_smaller(&20), Some((10, vec![10])));
    assert_eq!(m.get_closest_smaller(&10), None);
    assert_eq!(m.get_closest_smaller(&31), Some((30, vec![30])));
    assert_eq!(m.get_closest_larger(&20), Some((20, vec![20])));
    assert_eq!(m.get_closest_larger(&21), Some((30, vec![30])));
    assert_eq!(m.get_closest_larger(&31), None);
    assert_eq!(m.range(10, 30), vec![(10, vec![10]), (20, vec![20])]);
    assert_eq!(m.range(11, 11), vec![]);
}

#[test]
fn guard_write_back_makes_mutation_visible() {
    let mut m = Mapi::new("").unwrap();
    m.insert(4, v("old"));
    let mut g = m.get_mut(&4).unwrap();
    assert_eq!(g.get(), &v("old"));
    g.set(v("new"));
    m.write_back(g);
    assert_eq!(m.get(&4), Some(v("new")));
    assert!(m.get_mut(&5).is_none());
}

#[test]
fn guard_left_alone_leaves_value_unchanged() {
    let mut m = Mapi::new("").unwrap();
    m.insert(4, v("same"));
    let g = m.get_mut(&4).unwrap();
    assert_eq!(g.clone_inner(&mut m), v("same"));
    assert_eq!(m.get(&4), Some(v("same")));
    assert_eq!(m.len(), 1);
}

#[test]
fn entry_or_insert_keeps_existing_value() {
    let mut m = Mapi::new("").unwrap();
    m.insert(1, v("kept"));
    let g = m.entry(1).or_insert(&mut m, v("dropped"));
    assert_eq!(g.get(), &v("kept"));
    let g = m.entry(2).or_insert(&mut m, v("fresh"));
    assert_eq!(g.key_of(), 2);
    assert_eq!(m.get(&2), Some(v("fresh")));
}

#[test]
fn entry_or_insert_with_calls_factory_only_when_absent() {
    let mut m = Mapi::new("").unwrap();
    m.insert(1, v("kept"));
    let mut calls = 0;
    let g = Entry::new(1).or_insert_with(&mut m, || {
        calls += 1;
        v("made")
    });
    assert_eq!(g.get(), &v("kept"));
    assert_eq!(calls, 0);
    let g = Entry::new(2).or_insert_with(&mut m, || {
        calls += 1;
        v("made")
    });
    assert_eq!(g.get(), &v("made"));
    assert_eq!(calls, 1);
    assert_eq!(m.get(&2), Some(v("made")));
}

#[test]
fn clone_inner_commits_the_mutation() {
    let mut m = Mapi::new("").unwrap();
    m.insert(7, vec![1]);
    let mut g = m.get_mut(&7).unwrap();
    g.set(vec![2]);
    assert_eq!(g.clone_inner(&mut m), vec![2]);
    assert_eq!(m.get(&7), Some(vec![2]));
}

#[test]
fn length_follows_inserts_of_new_keys_only() {
    let mut m = Mapi::new("").unwrap();
    m.insert(1, v("a"));
    let before = m.len();
    let _ = m.entry(2).or_insert(&mut m, v("b"));
    assert_eq!(m.len(), before + 1);
    let _ = m.entry(2).or_insert(&mut m, v("c"));
    assert_eq!(m.len(), before + 1);
}

#[test]
fn inclusive_range_reaches_the_largest_key() {
    let mut m = Mapi::new("").unwrap();
    m.insert(u64::MAX, v("top"));
    m.insert(3, v("low"));
    assert_eq!(m.range(0, u64::MAX), vec![(3, v("low"))]);
    assert_eq!(m.range_inclusive(3, u64::MAX), vec![(3, v("low")), (u64::MAX, v("top"))]);
    assert_eq!(m.range_inclusive(4, 2), vec![]);
    assert_eq!(m.range(5, 0), vec![]);
}
