use evolutionary_alg::linked_list::LinkedList;

#[test]
fn create_linked_list() {
    let mut list: LinkedList<u32> = LinkedList::new();

    list.push_front(0);
    list.push_front(1);
    list.push_front(2);

    let mut it = list.iter_mut();
    while let Some(v) = it.next() {
        *v += 10;
    }

    let mut iter = list.iter();
    assert_eq!(iter.next(), Some(&12));
    assert_eq!(iter.next(), Some(&11));
    assert_eq!(iter.next(), Some(&10));
    assert_eq!(iter.next(), None);
}
