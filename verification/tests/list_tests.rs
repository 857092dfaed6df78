use raytracer::list::List;

#[test]
fn new_list_is_empty() {
    let l: List<u32> = List::new();
    let mut it = l.iter();
    assert!(it.next().is_none());
}

#[test]
fn add_prepends() {
    let l: List<u32> = List::new().add(1).add(2).add(3);
    let mut it = l.iter();
    assert_eq!(it.next(), Some(&3));
    assert_eq!(it.next(), Some(&2));
    assert_eq!(it.next(), Some(&1));
    assert_eq!(it.next(), None);
}

#[test]
fn iterator_is_exhausted_once_done() {
    let l: List<i64> = List::new().add(-5);
    let mut it = l.iter();
    assert_eq!(it.next(), Some(&-5));
    assert_eq!(it.next(), None);
    assert_eq!(it.next(), None);
}

#[test]
fn list_holds_arbitrary_element_types() {
    let l: List<(u8, u8, u8)> = List::new().add((1, 2, 3)).add((4, 5, 6));
    let mut it = l.iter();
    assert_eq!(it.next(), Some(&(4, 5, 6)));
    assert_eq!(it.next(), Some(&(1, 2, 3)));
    assert_eq!(it.next(), None);
}
