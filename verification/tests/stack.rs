use libx::collections::stack::linked_list::{join_with_arrows, Stack};
use libx::utils::join;

#[test]
fn test_stack_push() {
    let mut stack = Stack::new();
    stack.push(1);
    stack.push(2);
    stack.push(3);
    assert_eq!(stack.len(), 3);
    assert_eq!(stack.pop(), Some(3));
    assert_eq!(stack.pop(), Some(2));
    assert_eq!(stack.pop(), Some(1));
    assert_eq!(stack.pop(), None);
}

#[test]
fn test_stack_pop() {
    let mut stack = Stack::new();
    stack.push(1);
    stack.push(2);
    stack.push(3);
    assert_eq!(stack.len(), 3);
    assert_eq!(stack.pop(), Some(3));
    assert_eq!(stack.pop(), Some(2));
    assert_eq!(stack.pop(), Some(1));
    assert_eq!(stack.pop(), None);
}

#[test]
fn test_stack_is_empty() {
    let mut stack = Stack::new();
    assert!(stack.is_empty());
    stack.push(1);
    assert!(!stack.is_empty());
    stack.pop();
    assert!(stack.is_empty());
}

#[test]
fn test_stack_len() {
    let mut stack = Stack::new();
    assert_eq!(stack.len(), 0);
    stack.push(1);
    assert_eq!(stack.len(), 1);
    stack.push(2);
    assert_eq!(stack.len(), 2);
    stack.pop();
    assert_eq!(stack.len(), 1);
    stack.pop();
    assert_eq!(stack.len(), 0);
}

#[test]
fn test_stack_display() {
    let mut stack = Stack::new();
    stack.push(1);
    stack.push(2);
    stack.push(3);
    assert_eq!(stack.to_debug_string(), "3 -> 2 -> 1");
}

#[test]
fn test_stack_display_empty() {
    let stack = Stack::<String>::new();
    assert_eq!(stack.to_debug_string(), "");
}

#[test]
fn test_stack_display_one() {
    let mut stack = Stack::new();
    stack.push(1);
    assert_eq!(stack.to_debug_string(), "1");
}

#[test]
fn test_stack_peak() {
    let mut stack = Stack::new();
    stack.push(1);
    stack.push(2);
    stack.push(3);
    assert_eq!(stack.peek(), Some(&3));
    stack.pop();
    assert_eq!(stack.peek(), Some(&2));
    stack.pop();
    assert_eq!(stack.peek(), Some(&1));
    stack.pop();
    assert_eq!(stack.peek(), None);
}

#[test]
fn test_stack_clear() {
    let mut stack = Stack::new();
    stack.push("The");
    stack.push("quick");
    stack.push("brown");
    stack.push("fox");
    stack.push("jumps");

    assert_eq!(stack.len(), 5);

    stack.clear();
    assert_eq!(stack.len(), 0);
}

#[test]
fn stack_index_counts_from_the_bottom() {
    let mut stack = Stack::new();
    stack.push(10);
    stack.push(20);
    stack.push(30);
    assert_eq!(stack[0], 10);
    assert_eq!(stack[1], 20);
    assert_eq!(stack[2], 30);
}

#[test]
fn stack_iter_walks_from_the_bottom() {
    let mut stack = Stack::new();
    stack.push(String::from("a"));
    stack.push(String::from("b"));
    let mut it = stack.iter();
    assert_eq!(it.next(), Some(String::from("a")));
    assert_eq!(it.next(), Some(String::from("b")));
    assert_eq!(it.next(), None);
    assert_eq!(it.next(), None);
}

#[test]
fn stack_debug_string_uses_debug_of_items() {
    let mut stack = Stack::new();
    stack.push("x");
    stack.push("y");
    assert_eq!(stack.to_debug_string(), "\"y\" -> \"x\"");
}

#[test]
fn stack_default_is_empty() {
    let stack: Stack<u8> = Stack::default();
    assert!(stack.is_empty());
    assert_eq!(stack.peek(), None);
}

#[test]
fn texts_are_joined_with_arrows() {
    assert_eq!(join_with_arrows(&vec![]), "");
    assert_eq!(join_with_arrows(&vec![String::from("a")]), "a");
    assert_eq!(
        join_with_arrows(&vec![String::from("3"), String::from("2"), String::from("1")]),
        "3 -> 2 -> 1"
    );
    assert_eq!(
        join_with_arrows(&vec![String::new(), String::from("x"), String::new()]),
        " -> x -> "
    );
    assert_eq!(join(&vec![String::from("a"), String::from("b")], ""), "ab");
    assert_eq!(join(&vec![String::from("a"), String::from("b")], ", "), "a, b");
}

#[test]
fn each_item_has_its_own_debug_text() {
    let mut stack = Stack::new();
    stack.push(1);
    stack.push(2);
    stack.push(3);
    assert_eq!(stack.debug_texts(), vec!["3", "2", "1"]);
    assert_eq!(stack.to_debug_string(), join_with_arrows(&stack.debug_texts()));
    let empty: Stack<u8> = Stack::new();
    assert!(empty.debug_texts().is_empty());
}
