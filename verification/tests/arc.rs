use astaire::arc::{ArcHeap, UnsafeArc};

#[test]
fn counts_follow_the_handles() {
    let mut heap: ArcHeap<u32> = ArcHeap::new();
    let a = UnsafeArc::new(&mut heap, 5);
    assert_eq!((heap.slots[0].strong, heap.slots[0].weak), (1, 1));
    let w = a.downgrade(&mut heap);
    let b = a.clone(&mut heap);
    assert_eq!((heap.slots[0].strong, heap.slots[0].weak), (2, 2));
    assert_eq!(*b.unsafe_ptr(&heap), 5);
    a.drop(&mut heap);
    let c = w.upgrade(&mut heap).expect("the value is alive");
    assert_eq!(heap.slots[0].strong, 2);
    c.drop(&mut heap);
    b.drop(&mut heap);
    // the last strong handle dropped the value
    assert_eq!((heap.slots[0].strong, heap.slots[0].weak), (0, 1));
    assert!(heap.slots[0].data.is_none());
    assert!(!heap.slots[0].freed);
    assert!(w.upgrade(&mut heap).is_none());
    let w2 = w.clone(&mut heap);
    w.drop(&mut heap);
    assert!(!heap.slots[0].freed);
    w2.drop(&mut heap);
    assert!(heap.slots[0].freed);
    assert_eq!(heap.slots[0].weak, 0);
}

#[test]
fn make_unique_clones_only_when_shared() {
    let mut heap: ArcHeap<Vec<u8>> = ArcHeap::new();
    let mut a = UnsafeArc::new(&mut heap, vec![1, 2]);
    assert!(!a.make_unique(&mut heap));
    assert_eq!(a.slot, 0);
    let b = a.clone(&mut heap);
    assert!(a.make_unique(&mut heap));
    assert_eq!(a.slot, 1);
    assert_eq!(*a.unsafe_ptr(&heap), vec![1, 2]);
    assert_eq!((heap.slots[0].strong, heap.slots[0].weak), (1, 1));
    assert_eq!((heap.slots[1].strong, heap.slots[1].weak), (1, 1));
    b.drop(&mut heap);
    assert!(heap.slots[0].freed);
}

#[test]
fn make_unique_leaves_the_others_their_value() {
    let mut heap: ArcHeap<Vec<u8>> = ArcHeap::new();
    let mut a = UnsafeArc::new(&mut heap, vec![3]);
    let b = a.clone(&mut heap);
    let c = a.clone(&mut heap);
    assert!(a.make_unique(&mut heap));
    // the old slot lost one strong handle, the others still read the value
    assert_eq!((heap.slots[0].strong, heap.slots[0].weak), (2, 1));
    heap.slots[a.slot].data = Some(vec![9]);
    assert_eq!(*b.unsafe_ptr(&heap), vec![3]);
    assert_eq!(*c.unsafe_ptr(&heap), vec![3]);
    assert_eq!(*a.unsafe_ptr(&heap), vec![9]);
}

#[test]
fn a_clone_reads_the_same_value() {
    let mut heap: ArcHeap<u32> = ArcHeap::new();
    let a = UnsafeArc::new(&mut heap, 11);
    let b = a.clone(&mut heap);
    assert_eq!(b.slot, a.slot);
    assert_eq!(*b.unsafe_ptr(&heap), *a.unsafe_ptr(&heap));
    assert_eq!((heap.slots[0].strong, heap.slots[0].weak), (2, 1));
}
