use bnc::StoreRegistry;

#[test]
fn acquire_shares_and_release_closes_at_zero() {
    let mut reg: StoreRegistry<u32> = StoreRegistry::new();
    let p = String::from("/tmp/a");
    let q = String::from("/tmp/b");
    assert!(!reg.acquire(&p));
    reg.attach(p.clone(), 11);
    assert!(reg.contains(&p));
    assert_eq!(reg.count(&p), 1);
    assert!(reg.acquire(&p));
    assert_eq!(reg.count(&p), 2);
    assert_eq!(reg.handle(&p), Some(&11));
    assert!(!reg.contains(&q));
    reg.attach(q.clone(), 22);
    assert_eq!(reg.release(&p), None);
    assert_eq!(reg.count(&p), 1);
    assert_eq!(reg.release(&p), Some(11));
    assert!(!reg.contains(&p));
    assert_eq!(reg.release(&p), None);
    assert_eq!(reg.handle(&q), Some(&22));
    assert_eq!(reg.count(&q), 1);
}
