use rx::lifeline::Store;

#[test]
fn owner_reads_while_lifeline_lives() {
    let mut store: Store<u32> = Store::new();
    let (life, owner) = rx::lifeline::new(&mut store, 5);
    assert_eq!(1, store.len());
    assert!(store.is_live(owner.index()));
    assert_eq!(Some(&5), owner.with_value(&store));
    let old = owner.with_mut_value(&mut store, 7);
    assert_eq!(Some(5), old);
    assert_eq!(Some(&7), owner.with_value(&store));
    life.release(&mut store);
    assert!(!store.is_live(owner.index()));
    assert_eq!(None, owner.with_value(&store));
}

#[test]
fn owner_take_is_one_shot() {
    let mut store: Store<u32> = Store::new();
    let (life, owner) = rx::lifeline::new(&mut store, 9);
    assert_eq!(Some(9), owner.take(&mut store));
    // Releasing the lifeline afterwards is a silent no-op.
    life.release(&mut store);
    assert_eq!(1, store.len());
}

#[test]
fn released_lifeline_makes_operations_noops() {
    let mut store: Store<u32> = Store::new();
    let (life, owner) = rx::lifeline::new(&mut store, 3);
    life.release(&mut store);
    assert_eq!(None, owner.with_mut_value(&mut store, 4));
    assert_eq!(None, owner.take(&mut store));
}
