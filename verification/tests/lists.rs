use rgrep::deque;
use rgrep::linked_stack;
use rgrep::persistent_list;

#[test]
fn first_basics() {
    let mut list = linked_stack::List::new();

    // Check empty list behaves right
    assert_eq!(list.pop(), None);

    // Populate list
    list.push(1);
    list.push(2);
    list.push(3);

    // Check normal removal
    assert_eq!(list.pop(), Some(3));
    assert_eq!(list.pop(), Some(2));

    // Push some more just to make sure nothing's corrupted
    list.push(4);
    list.push(5);

    // Check normal removal
    assert_eq!(list.pop(), Some(5));
    assert_eq!(list.pop(), Some(4));

    // Check exhaustion
    assert_eq!(list.pop(), Some(1));
    assert_eq!(list.pop(), None);
}

#[test]
fn fourth_basics() {
    let mut list = deque::List::new();

    println!("dg-- 0");
    // Check empty list behaves right
    assert_eq!(list.pop_front(), None);

    println!("dg-- 1");
    // Populate list
    list.push_front(1);
    list.push_front(2);
    list.push_front(3);

    println!("dg-- 2");
    // Check normal removal
    assert_eq!(list.pop_front(), Some(3));
    assert_eq!(list.pop_front(), Some(2));

    println!("dg-- 3");
    // Push some more just to make sure nothing's corrupted
    list.push_front(4);
    list.push_front(5);

    println!("dg-- 4");
    // Check normal removal
    assert_eq!(list.pop_front(), Some(5));
    assert_eq!(list.pop_front(), Some(4));

    println!("dg-- 5");
    // Check exhaustion
    assert_eq!(list.pop_front(), Some(1));
    assert_eq!(list.pop_front(), None);

    println!("dg-- 6");
    // ---- back -----

    // Check empty list behaves right
    assert_eq!(list.pop_front(), None);

    println!("dg-- 7");
    // Populate list
    list.push_back(1);
    list.push_back(2);
    list.push_back(3);

    println!("dg-- 8");
    // Check normal removal
    assert_eq!(list.pop_back(), Some(3));
    println!("dg-- 8a");
    assert_eq!(list.pop_back(), Some(2));

    println!("dg-- 9");
    // Push some more just to make sure nothing's corrupted
    list.push_back(4);
    list.push_back(5);

    println!("dg-- 10");
    // Check normal removal
    assert_eq!(list.pop_back(), Some(5));
    assert_eq!(list.pop_back(), Some(4));

    println!("dg-- 11");
    // Check exhaustion
    assert_eq!(list.pop_back(), Some(1));
    assert_eq!(list.pop_back(), None);
}

#[test]
fn peek() {
    let mut list = deque::List::new();
    assert!(list.peek_front().is_none());
    assert!(list.peek_back().is_none());
    assert!(list.peek_front_mut().is_none());
    assert!(list.peek_back_mut().is_none());

    list.push_front(1);
    list.push_front(2);
    list.push_front(3);

    assert_eq!(&*list.peek_front().unwrap(), &3);
    assert_eq!(&mut *list.peek_front_mut().unwrap(), &mut 3);
    assert_eq!(&*list.peek_back().unwrap(), &1);
    assert_eq!(&mut *list.peek_back_mut().unwrap(), &mut 1);
}

#[test]
fn test_push_pop() {
    let mut list = deque::List::new();

    list.push_back(4);
    assert_eq!(list.pop_back(), Some(4));
    assert_eq!(list.pop_back(), None);
    assert_eq!(list.pop_back(), None);

    list.push_front(3);
    assert_eq!(list.pop_front(), Some(3));
    assert_eq!(list.pop_front(), None);
    assert_eq!(list.pop_front(), None);

    list.push_back(4);
    list.push_back(5);
    list.push_front(2);
    list.push_front(1);
    assert_eq!(list.pop_back(), Some(5));
    assert_eq!(list.pop_back(), Some(4));
    assert_eq!(list.pop_front(), Some(1));
    assert_eq!(list.pop_front(), Some(2));
    assert_eq!(list.pop_front(), None);
    assert_eq!(list.pop_back(), None);
}

#[test]
fn third_basics() {
    let list1 = persistent_list::List::new();
    assert_eq!(list1.head(), None);
    let list2 = list1.append(2).append(3);
    assert_eq!(list2.head(), Some(&3));
    assert_eq!(list2.tail().head(), Some(&2));
    assert_eq!(list2.tail().tail().head(), None);
}

#[test]
fn iters() {
    let list = persistent_list::List::new().append(2).append(3).append(4);
    let mut iter = list.iter();
    assert_eq!(iter.next(), Some(&4));
    assert_eq!(iter.next(), Some(&3));
    assert_eq!(iter.next(), Some(&2));
    assert_eq!(iter.next(), None);
}

#[test]
fn third_drop_leaves_empty() {
    let mut list = persistent_list::List::new().append(1).append(2);
    let kept = list.append(3);
    list.drop();
    assert_eq!(list.head(), None);
    // The structure shared with `kept` is untouched.
    assert_eq!(kept.head(), Some(&3));
    assert_eq!(kept.tail().head(), Some(&2));
}

#[test]
fn deque_drop_clears() {
    let mut list = deque::List::new();
    list.push_back(1);
    list.push_back(2);
    list.drop();
    assert_eq!(list.pop_front(), None);
}
