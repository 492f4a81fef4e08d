use front_vec::FrontVec;

#[test]
fn create_push_pop_drop() {
    let mut v = FrontVec::new();
    assert_eq!(v.len(), 0);
    assert_eq!(v.capacity(), 0);

    v.push_front(5);
    v.push_front(4);
    v.push_front(1000);
    v.pop_front();
    assert_eq!(v.len(), 2);

    v.push_front(3);
    v.push_front(2);
    v.push_front(1);

    assert_eq!(v.len(), 5);
    assert_eq!(v.capacity(), 8);
    assert_eq!(v.to_vec(), vec![1, 2, 3, 4, 5]);
}

#[test]
fn new_drop() {
    let v = FrontVec::<String>::new();
    drop(v);
}

#[test]
fn random_access() {
    let mut v = FrontVec::<usize>::new();
    v.push_front(5);
    v.push_front(4);
    v.push_front(3);
    v.push_front(2);
    v.push_front(1);
    v.push_front(0);

    assert_eq!(v.get(100), None);
    assert_eq!(v.get(5), Some(&5));
    assert_eq!(v.get(4), Some(&4));
    assert_eq!(v.get(3), Some(&3));
    assert_eq!(v.get(2), Some(&2));
    assert_eq!(v.get(1), Some(&1));
    assert_eq!(v.get(0), Some(&0));
}

#[test]
fn slicing() {
    let v = FrontVec::from_slice(&[0, 1, 2, 3, 4, 5]);
    assert_eq!(&v.to_vec()[1..4], &[1, 2, 3]);
}

#[test]
fn index_mut() {
    let mut v = FrontVec::from_slice(&[0, 1, 2, 3, 4, 5]);
    assert_eq!(*v.get(1).unwrap(), 1);
    v.set(1, 111);
    assert_eq!(*v.get(1).unwrap(), 111);
}

#[test]
fn prepend_order_single_vs_bulk() {
    // Single-element prepends come out in reverse call order.
    let mut v = FrontVec::new();
    v.push_front('a');
    v.push_front('b');
    v.push_front('c');
    assert_eq!(v.to_vec(), vec!['c', 'b', 'a']);

    // A bulk prepend keeps the slice's own order in front of prior contents.
    let mut w = FrontVec::from_slice(&['x', 'y']);
    w.extend_front(&['a', 'b', 'c']);
    assert_eq!(w.to_vec(), vec!['a', 'b', 'c', 'x', 'y']);
}

#[test]
fn capacity_doubling_from_empty() {
    // Six single-element prepends: capacity jumps to 4, then doubles to 8.
    let mut v = FrontVec::new();
    let mut k = 0;
    while k < 6 {
        v.push_front(k);
        k += 1;
    }
    assert_eq!(v.len(), 6);
    assert!(v.capacity() >= 8);
    assert_eq!(v.capacity(), 8);
}

#[test]
fn pop_from_empty_is_none_repeatedly() {
    let mut v = FrontVec::<u32>::new();
    assert_eq!(v.pop_front(), None);
    assert_eq!(v.pop_front(), None);
    assert_eq!(v.len(), 0);
    assert_eq!(v.capacity(), 0);
}

#[test]
fn reserve_front_reports_reallocation() {
    let mut v = FrontVec::<u8>::with_capacity(4);
    assert!(!v.reserve_front(3));
    assert_eq!(v.capacity(), 4);
    assert!(v.reserve_front(10));
    assert_eq!(v.capacity(), 14);
}

#[test]
fn grow_no_realloc_keeps_contents() {
    let mut v = FrontVec::from_slice(&[7, 8, 9]);
    assert_eq!(v.capacity(), 3);
    v.grow_no_realloc(10);
    assert_eq!(v.capacity(), 10);
    assert_eq!(v.to_vec(), vec![7, 8, 9]);
    v.double_no_realloc();
    assert_eq!(v.capacity(), 20);
    assert_eq!(v.to_vec(), vec![7, 8, 9]);
}

#[test]
fn truncate_keeps_last_elements() {
    let mut v = FrontVec::from_slice(&[1, 2, 3, 4, 5]);
    v.truncate(2);
    assert_eq!(v.to_vec(), vec![4, 5]);
    assert_eq!(v.capacity(), 5);
    v.truncate(99);
    assert_eq!(v.to_vec(), vec![4, 5]);
    v.truncate(0);
    assert_eq!(v.len(), 0);
    assert_eq!(v.capacity(), 5);
}

#[test]
fn extend_front_empty_slice_is_noop() {
    let mut v = FrontVec::from_slice(&[1, 2]);
    let empty: [i32; 0] = [];
    v.extend_front(&empty);
    assert_eq!(v.to_vec(), vec![1, 2]);
    assert_eq!(v.capacity(), 2);
}

#[test]
fn from_vec_capacity_equals_length() {
    let v = FrontVec::from_vec(vec![10, 20, 30]);
    assert_eq!(v.len(), 3);
    assert_eq!(v.capacity(), 3);
    assert_eq!(v.to_vec(), vec![10, 20, 30]);
}

#[test]
fn duplicate_copies_contents_and_capacity() {
    let mut v = FrontVec::with_capacity(6);
    v.push_front(2);
    v.push_front(1);
    let w = v.duplicate();
    assert_eq!(w.to_vec(), vec![1, 2]);
    assert_eq!(w.capacity(), v.capacity());
    v.set(0, 99);
    assert_eq!(*w.get(0).unwrap(), 1);
}

#[test]
fn default_is_empty() {
    let v: FrontVec<u64> = Default::default();
    assert_eq!(v.len(), 0);
    assert_eq!(v.capacity(), 0);
}

#[test]
fn structural_equality() {
    let a = FrontVec::from_slice(&[1, 2, 3]);
    let b = FrontVec::from_vec(vec![1, 2, 3]);
    let c = FrontVec::from_slice(&[1, 2, 4]);
    let d = FrontVec::from_slice(&[1, 2]);
    assert!(a.eq_elements(&b));
    assert!(!a.eq_elements(&c));
    assert!(!a.eq_elements(&d));
}
