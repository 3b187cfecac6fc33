use rgrep::bst::BST;

#[test]
fn bst_basics() {
    let mut bst = BST::new();

    assert_eq!(bst.search(2), false);

    assert_eq!(bst.insert(2), true);
    assert_eq!(bst.search(2), true);
    assert_eq!(bst.insert(2), false);
    println!("{:#?}", bst);

    assert_eq!(bst.insert(3), true);
    assert_eq!(bst.search(2), true);
    assert_eq!(bst.search(3), true);
    println!("{:#?}", bst);

    assert_eq!(bst.insert(1), true);
    assert_eq!(bst.insert(8), true);
    assert_eq!(bst.insert(7), true);
    assert_eq!(bst.search(1), true);
    assert_eq!(bst.search(2), true);
    assert_eq!(bst.search(3), true);
    assert_eq!(bst.search(7), true);
    println!("{:#?}", bst);
}

#[test]
fn into_iter() {
    let mut bst = BST::new();
    bst.insert(1);
    bst.insert(2);
    bst.insert(3);

    let mut iter = bst.into_iter();
    assert_eq!(iter.next(), Some(1));
    assert_eq!(iter.next(), Some(2));
    assert_eq!(iter.next(), Some(3));
}

#[test]
fn bst_iter() {
    let mut bst = BST::new();
    bst.insert(1);
    bst.insert(2);
    bst.insert(3);

    let mut iter = bst.iter();
    assert_eq!(iter.next(), Some(&1));
    assert_eq!(iter.next(), Some(&2));
    assert_eq!(iter.next(), Some(&3));
}

#[test]
fn bst_search_misses() {
    let mut bst = BST::new();
    bst.insert(10u64);
    bst.insert(5);
    bst.insert(20);
    assert!(bst.search(10));
    assert!(bst.search(5));
    assert!(bst.search(20));
    assert!(!bst.search(6));
    assert!(!bst.search(0));
    assert!(!bst.search(21));
}
