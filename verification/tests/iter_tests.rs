use front_vec::FrontVec;
use front_vec::IntoIter;

#[test]
fn iterator() {
    let v = FrontVec::from_vec(vec![1, 2, 3, 4, 5]);
    let mut it = IntoIter::new(v);
    assert_eq!(it.next(), Some(1));
    assert_eq!(it.next(), Some(2));
    assert_eq!(it.next(), Some(3));
    assert_eq!(it.next(), Some(4));
    assert_eq!(it.next(), Some(5));
    assert_eq!(it.next(), None);
}

#[test]
fn exhausted_iterator_stays_exhausted() {
    let v = FrontVec::<u8>::new();
    let mut it = IntoIter::new(v);
    assert_eq!(it.next(), None);
    assert_eq!(it.next(), None);
}
