use libx::collections::list::doubly_linked::{bracketed, List};

fn list_of(items: Vec<i32>) -> List<i32> {
    let mut list = List::new();
    for item in items {
        list.push_back(item);
    }
    list
}

#[test]
fn test_new_list_is_empty() {
    let list: List<u32> = List::new();
    assert!(list.is_empty());
}

#[test]
fn test_list_with_capacity() {
    let list: List<u32> = List::with_capacity(10);
    assert_eq!(list.capacity(), 10);
}

#[test]
fn test_push_front() {
    let mut list = List::new();
    list.push_front(1);
    list.push_front(2);
    assert_eq!(list.pop_front(), Some(2));
}

#[test]
fn test_push_back() {
    let mut list = List::new();
    list.push_back(1);
    list.push_back(2);
    assert_eq!(list.pop_back(), Some(2));
}

#[test]
fn test_push_front_within_capacity() {
    let mut list = List::with_capacity(2);
    assert_eq!(list.push_front_within_capacity(1), Ok(()));
    assert_eq!(list.push_front_within_capacity(2), Ok(()));
    assert_eq!(
        list.push_front_within_capacity(3),
        Err("Maximum capacity reached".to_string())
    );
}

#[test]
fn test_push_back_within_capacity() {
    let mut list = List::with_capacity(2);
    assert_eq!(list.push_back_within_capacity(1), Ok(()));
    assert_eq!(list.push_back_within_capacity(2), Ok(()));
    assert_eq!(
        list.push_back_within_capacity(3),
        Err("Maximum capacity reached".to_string())
    );
}

#[test]
fn test_pop_front() {
    let mut list = list_of(vec![1, 2]);
    assert_eq!(list.pop_front(), Some(1));
    assert_eq!(list.pop_front(), Some(2));
    assert_eq!(list.pop_front(), None);
}

#[test]
fn test_pop_back() {
    let mut list = list_of(vec![1, 2]);
    assert_eq!(list.pop_back(), Some(2));
    assert_eq!(list.pop_back(), Some(1));
    assert_eq!(list.pop_back(), None);
}

#[test]
fn test_len() {
    let list = list_of(vec![1, 2]);
    assert_eq!(list.len(), 2);
}

#[test]
fn test_is_empty() {
    let mut list = List::new();
    assert!(list.is_empty());

    list.push_back(1);
    assert!(!list.is_empty());
}

#[test]
fn test_capacity() {
    let list: List<u32> = List::with_capacity(10);
    assert_eq!(list.capacity(), 10);
}

#[test]
fn test_set_capacity() {
    let mut list = List::<i32>::new();
    list.set_capacity(20);
    assert_eq!(list.capacity(), 20);
}

#[test]
fn test_front() {
    let list = list_of(vec![1, 2]);
    assert_eq!(list.front(), Some(1));
}

#[test]
fn test_back() {
    let list = list_of(vec![1, 2]);
    assert_eq!(list.back(), Some(2));
}

#[test]
fn test_clear() {
    let mut list = list_of(vec![1, 2]);
    list.clear();
    assert!(list.is_empty());
}

#[test]
fn test_insert() {
    let mut list = list_of(vec![1, 2]);
    list.insert(1, 3);
    assert_eq!(list.pop_front(), Some(1));
    assert_eq!(list.pop_front(), Some(3));
    assert_eq!(list.pop_front(), Some(2));
}

#[test]
fn test_insert_from_iterator() {
    let mut list = list_of(vec![1, 2]);
    list.insert_from_iterator(1, vec![3, 4, 5]);
    assert_eq!(list.pop_front(), Some(1));
    assert_eq!(list.pop_front(), Some(3));
    assert_eq!(list.pop_front(), Some(4));
    assert_eq!(list.pop_front(), Some(5));
    assert_eq!(list.pop_front(), Some(2));
}

#[test]
fn test_remove_by_index_single_item_list() {
    let mut list = List::new();
    list.push_back(1);
    assert_eq!(list.len(), 1);

    list.remove_by_index(0);
    assert_eq!(list.len(), 0);
    assert!(list.is_empty());
}

#[test]
fn test_remove_by_index_front() {
    let mut list = list_of(vec![1, 2, 3]);

    list.remove_by_index(0);

    assert_eq!(list.len(), 2);
    assert_eq!(list.pop_front(), Some(2));
    assert_eq!(list.pop_front(), Some(3));
}

#[test]
fn test_remove_by_index_middle() {
    let mut list = list_of(vec![1, 2, 3]);

    list.remove_by_index(1);

    assert_eq!(list.len(), 2);
    assert_eq!(list.pop_front(), Some(1));
    assert_eq!(list.pop_front(), Some(3));
}

#[test]
fn test_remove_by_index_back() {
    let mut list = list_of(vec![1, 2, 3]);

    list.remove_by_index(2);

    assert_eq!(list.len(), 2);
    assert_eq!(list.pop_front(), Some(1));
    assert_eq!(list.pop_front(), Some(2));
}

#[test]
fn test_removed_by_range() {
    let mut list: List<i32> = list_of(vec![10, 20, 30, 40, 50]);

    let removed = list.removed_by_range(1..4);
    assert_eq!(removed, vec![20, 30, 40]);

    assert_eq!(list.len(), 2);
    assert_eq!(list[0], 10);
    assert_eq!(list[1], 50);
}

#[test]
fn push_back_raises_the_capacity() {
    let mut list = List::new();
    assert_eq!(list.capacity(), 0);
    list.push_back(1);
    assert_eq!(list.capacity(), 4);
    list.push_back(2);
    list.push_back(3);
    list.push_back(4);
    assert_eq!(list.capacity(), 4);
    list.push_back(5);
    assert_eq!(list.capacity(), 8);
}

#[test]
fn push_front_doubles_a_full_capacity() {
    let mut list = List::with_capacity(1);
    list.push_front(1);
    assert_eq!(list.capacity(), 1);
    list.push_front(2);
    assert_eq!(list.capacity(), 2);
    let mut empty: List<u8> = List::new();
    empty.push_front(7);
    assert_eq!(empty.capacity(), 0);
}

#[test]
fn insert_from_iterator_at_the_ends_reverses() {
    let mut list = list_of(vec![1, 2]);
    list.insert_from_iterator(0, vec![3, 4, 5]);
    assert_eq!(list.removed_by_range(0..5), vec![5, 4, 3, 1, 2]);
    let mut list = list_of(vec![1, 2]);
    list.insert_from_iterator(2, vec![3, 4, 5]);
    assert_eq!(list.removed_by_range(0..5), vec![1, 2, 5, 4, 3]);
}

#[test]
fn extend_appends_in_order() {
    let mut list = list_of(vec![1]);
    list.extend(vec![2, 3]);
    assert_eq!(list.len(), 3);
    assert_eq!(list.back(), Some(3));
    assert_eq!(list[1], 2);
}

#[test]
fn list_iter_walks_from_the_front() {
    let list = list_of(vec![7, 8]);
    let mut it = list.iter();
    assert_eq!(it.next(), Some(7));
    assert_eq!(it.next(), Some(8));
    assert_eq!(it.next(), None);
}

#[test]
fn list_default_is_new() {
    let list: List<u8> = List::default();
    assert!(list.is_empty());
    assert_eq!(list.capacity(), 0);
    assert_eq!(list.front(), None);
    assert_eq!(list.back(), None);
}

#[test]
fn a_list_is_written_as_its_items_in_brackets() {
    let mut list = List::new();
    assert_eq!(list.to_debug_string(), "[]");
    list.push_back(2);
    assert_eq!(list.to_debug_string(), "[2]");
    list.push_back(3);
    list.push_front(1);
    assert_eq!(list.to_debug_string(), "[1, 2, 3]");
    assert_eq!(list.to_debug_string(), format!("{:?}", vec![1, 2, 3]));
    assert_eq!(list.debug_texts(), vec!["1", "2", "3"]);
    let mut words = List::new();
    words.push_back("a b");
    words.push_back("c");
    assert_eq!(words.to_debug_string(), format!("{:?}", vec!["a b", "c"]));
    assert_eq!(bracketed(&vec![String::from("x"), String::from("y")]), "[x, y]");
    assert_eq!(bracketed(&vec![]), "[]");
}
