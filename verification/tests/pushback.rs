use arithmetic::common::PushbackIterator;

#[test]
fn next_works_without_push() {
    let mut pushback = PushbackIterator::new(vec!['a']);
    assert_eq!(Option::Some('a'), pushback.next());
    assert_eq!(Option::None, pushback.next());
}

#[test]
fn next_char_works_with_look_here_first() {
    let mut pushback = PushbackIterator::new(vec!['a']);
    pushback.push('b');
    assert_eq!(Option::Some('b'), pushback.next());
    assert_eq!(Option::Some('a'), pushback.next());
    assert_eq!(Option::None, pushback.next());
}

#[test]
fn source_keeps_its_order() {
    let mut pushback = PushbackIterator::new(vec![1, 2, 3]);
    assert_eq!(Some(1), pushback.next());
    assert_eq!(Some(2), pushback.next());
    assert_eq!(Some(3), pushback.next());
    assert_eq!(None, pushback.next());
    assert_eq!(None, pushback.next());
}

#[test]
fn latest_push_comes_out_first() {
    let mut pushback = PushbackIterator::new(vec![1, 2]);
    assert_eq!(Some(1), pushback.next());
    pushback.push(10);
    pushback.push(20);
    assert_eq!(Some(20), pushback.next());
    assert_eq!(Some(10), pushback.next());
    assert_eq!(Some(2), pushback.next());
    assert_eq!(None, pushback.next());
}

#[test]
fn push_after_the_end_is_read_again() {
    let mut pushback: PushbackIterator<char> = PushbackIterator::new(vec![]);
    assert_eq!(None, pushback.next());
    pushback.push('x');
    assert_eq!(Some('x'), pushback.next());
    assert_eq!(None, pushback.next());
}

#[test]
fn items_need_not_be_copyable() {
    let mut pushback = PushbackIterator::new(vec![String::from("a"), String::from("b")]);
    let first = pushback.next();
    assert_eq!(Some(String::from("a")), first);
    pushback.push(String::from("c"));
    assert_eq!(Some(String::from("c")), pushback.next());
    assert_eq!(Some(String::from("b")), pushback.next());
    assert_eq!(None, pushback.next());
}
