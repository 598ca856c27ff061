use deet::linked_list::{LinkedList, Node};

#[test]
fn push_then_pop_returns_values_in_reverse_order() {
    let mut list: LinkedList<u32> = LinkedList::new();
    assert!(list.is_empty());
    assert_eq!(list.get_size(), 0);
    list.push_front(1);
    list.push_front(2);
    list.push_front(3);
    assert!(!list.is_empty());
    assert_eq!(list.get_size(), 3);
    assert_eq!(list.pop_front(), Some(3));
    assert_eq!(list.pop_front(), Some(2));
    assert_eq!(list.get_size(), 1);
    assert_eq!(list.pop_front(), Some(1));
    assert_eq!(list.pop_front(), None);
    assert!(list.is_empty());
    assert_eq!(list.get_size(), 0);
}

#[test]
fn node_holds_its_value_and_its_rest() {
    let tail = Node::new(2u32, None);
    let head = Node::new(1u32, Some(Box::new(tail)));
    assert_eq!(head.value, 1);
    let rest = head.next.expect("the node was given a rest");
    assert_eq!(rest.value, 2);
    assert!(rest.next.is_none());
}

#[test]
fn clone_keeps_values_and_order() {
    let mut list: LinkedList<String> = LinkedList::new();
    for i in 1..12 {
        list.push_front(i.to_string());
    }
    let mut copy = list.clone();
    assert_eq!(copy.get_size(), 11);
    assert!(list == copy);
    assert_eq!(copy.pop_front(), Some("11".to_string()));
    assert_eq!(copy.pop_front(), Some("10".to_string()));
    assert_eq!(list.get_size(), 11);
    assert_eq!(list.pop_front(), Some("11".to_string()));
}

#[test]
fn clone_of_the_empty_list_is_empty() {
    let list: LinkedList<u8> = LinkedList::new();
    let copy = list.clone();
    assert!(copy.is_empty());
    assert!(list == copy);
}

#[test]
fn lists_are_equal_when_values_are_equal_in_order() {
    let mut a: LinkedList<u32> = LinkedList::new();
    let mut b: LinkedList<u32> = LinkedList::new();
    assert!(a == b);
    a.push_front(1);
    assert!(a != b);
    b.push_front(1);
    assert!(a == b);
    a.push_front(2);
    b.push_front(3);
    assert!(a != b);
    let _ = b.pop_front();
    assert!(a != b);
    let _ = a.pop_front();
    assert!(a == b);
}

#[test]
fn lists_with_the_same_values_in_another_order_differ() {
    let mut a: LinkedList<u32> = LinkedList::new();
    let mut b: LinkedList<u32> = LinkedList::new();
    a.push_front(1);
    a.push_front(2);
    b.push_front(2);
    b.push_front(1);
    assert!(a != b);
}

#[test]
fn to_string_puts_a_space_before_each_value() {
    let mut list: LinkedList<String> = LinkedList::new();
    assert_eq!(list.to_string(), "");
    list.push_front("c".to_string());
    list.push_front("b".to_string());
    list.push_front("a".to_string());
    assert_eq!(list.to_string(), " a b c");
}
