use befreak::stack::Stack;

#[test]
fn stack_starts_empty() {
    let s: Stack<i32> = Stack::new();
    assert!(s.is_empty());
    assert_eq!(s.len(), 0);
    assert_eq!(s.last(), None);
    assert_eq!(s.get(0), None);
}

#[test]
fn stack_push_pop_is_lifo() {
    let mut s: Stack<i32> = Stack::new();
    s.push(1);
    s.push(2);
    s.push(3);
    assert_eq!(s.len(), 3);
    assert_eq!(s.last(), Some(3));
    assert_eq!(s.get(0), Some(1));
    assert_eq!(s.get(1), Some(2));
    assert_eq!(s.pop(), Some(3));
    assert_eq!(s.pop(), Some(2));
    assert_eq!(s.pop(), Some(1));
    assert_eq!(s.pop(), None);
    assert!(s.is_empty());
}

#[test]
fn stack_of_chars() {
    let mut s: Stack<char> = Stack::new();
    s.push('a');
    s.push('b');
    assert_eq!(s.last(), Some('b'));
    assert_eq!(s.pop(), Some('b'));
    assert_eq!(s.last(), Some('a'));
}
