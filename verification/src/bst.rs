use vstd::prelude::*;
use crate::order::{CmpResult, TotalOrder};

verus! {

#[derive(Debug)]
struct Node<T: TotalOrder> {
    val: T,
    left: Option<Box<Node<T>>>,
    right: Option<Box<Node<T>>>,
}

/// The set of values held below a link.
spec fn node_set<T: TotalOrder>(n: Option<Box<Node<T>>>) -> Set<T>
    decreases n,
{
    match n {
        None => Set::empty(),
        Some(node) => node_set(node.left).union(node_set(node.right)).insert(node.val),
    }
}

/// The search-tree ordering: everything to the left of a value precedes it,
/// everything to its right follows it.
spec fn node_wf<T: TotalOrder>(n: Option<Box<Node<T>>>) -> bool
    decreases n,
{
    match n {
        None => true,
        Some(node) => {
            &&& node_wf(node.left)
            &&& node_wf(node.right)
            &&& forall|x: T|
                #[trigger] node_set(node.left).contains(x) ==> x.leq(node.val) && x != node.val
            &&& forall|x: T|
                #[trigger] node_set(node.right).contains(x) ==> node.val.leq(x) && x != node.val
        },
    }
}

/// The values along a link's rightmost spine, top first.
spec fn node_spine<T: TotalOrder>(n: Option<Box<Node<T>>>) -> Seq<T>
    decreases n,
{
    match n {
        None => Seq::empty(),
        Some(node) => seq![node.val] + node_spine(node.right),
    }
}

/// A binary search tree holding a set of distinct values.
#[derive(Debug)]
pub struct BST<T: TotalOrder> {
    root: Option<Box<Node<T>>>,
}

impl<T: TotalOrder> View for BST<T> {
    type V = Set<T>;

    closed spec fn view(&self) -> Set<T> {
        node_set(self.root)
    }
}

fn node_search<T: TotalOrder>(n: &Option<Box<Node<T>>>, val: &T) -> (b: bool)
    requires
        node_wf(*n),
    ensures
        b == node_set(*n).contains(*val),
    decreases n,
{
    match n {
        None => false,
        Some(node) => {
            match val.compare(&node.val) {
                CmpResult::Equal => true,
                CmpResult::Less => {
                    proof {
                        if node_set(node.right).contains(*val) {
                            T::lemma_antisymmetric(*val, node.val);
                        }
                    }
                    node_search(&node.left, val)
                },
                CmpResult::Greater => {
                    proof {
                        if node_set(node.left).contains(*val) {
                            T::lemma_antisymmetric(*val, node.val);
                        }
                    }
                    node_search(&node.right, val)
                },
            }
        },
    }
}

fn node_insert<T: TotalOrder>(n: &mut Option<Box<Node<T>>>, val: T) -> (added: bool)
    requires
        node_wf(*old(n)),
    ensures
        node_wf(*final(n)),
        node_set(*final(n)) == node_set(*old(n)).insert(val),
        added == !node_set(*old(n)).contains(val),
    decreases *old(n),
{
    match n.take() {
        None => {
            *n = Some(Box::new(Node { val, left: None, right: None }));
            proof {
                assert(node_set(*n) =~= node_set::<T>(None).insert(val));
            }
            true
        },
        Some(mut boxed) => {
            let added = match val.compare(&boxed.val) {
                CmpResult::Equal => false,
                CmpResult::Less => {
                    let ghost old_left = node_set(boxed.left);
                    proof {
                        if node_set(boxed.right).contains(val) {
                            T::lemma_antisymmetric(val, boxed.val);
                        }
                    }
                    node_insert(&mut boxed.left, val)
                },
                CmpResult::Greater => {
                    let ghost old_right = node_set(boxed.right);
                    proof {
                        if node_set(boxed.left).contains(val) {
                            T::lemma_antisymmetric(val, boxed.val);
                        }
                    }
                    node_insert(&mut boxed.right, val)
                },
            };
            let ghost new_set = node_set(boxed.left).union(node_set(boxed.right)).insert(boxed.val);
            *n = Some(boxed);
            proof {
                assert(node_set(*n) =~= node_set(*old(n)).insert(val));
            }
            added
        },
    }
}

impl<T: TotalOrder> BST<T> {
    /// Whether the tree satisfies the search ordering. Every tree built by
    /// `new` and grown by `insert` does.
    pub closed spec fn wf(&self) -> bool {
        node_wf(self.root)
    }

    /// The values of the rightmost spine, which is what this tree's
    /// iterators walk.
    pub closed spec fn right_spine(&self) -> Seq<T> {
        node_spine(self.root)
    }

    /// Creates an empty tree.
    pub fn new() -> (t: Self)
        ensures
            t@ == Set::<T>::empty(),
            t.wf(),
            t.right_spine() == Seq::<T>::empty(),
    {
        BST { root: None }
    }

    /// Adds a value; returns whether it was absent before. The tree's
    /// contents afterwards are the old contents plus the value.
    pub fn insert(&mut self, val: T) -> (added: bool)
        requires
            old(self).wf(),
        ensures
            final(self).wf(),
            final(self)@ == old(self)@.insert(val),
            added == !old(self)@.contains(val),
    {
        node_insert(&mut self.root, val)
    }

    /// Whether the tree holds the value.
    pub fn search(&self, val: T) -> (found: bool)
        requires
            self.wf(),
        ensures
            found == self@.contains(val),
    {
        node_search(&self.root, &val)
    }

    /// Turns the tree into an iterator that consumes its rightmost spine.
    pub fn into_iter(self) -> (it: IntoIter<T>)
        ensures
            it@ == self.right_spine(),
    {
        IntoIter(self)
    }

    /// An iterator over the rightmost spine, by reference.
    pub fn iter<'a>(&'a self) -> (it: Iter<'a, T>)
        ensures
            it@ == self.right_spine(),
    {
        let next = match &self.root {
            None => None,
            Some(node) => Some(&**node),
        };
        proof {
            match next {
                None => {},
                Some(node) => {
                    assert(seq![node.val] + node_spine(node.right) =~= self.right_spine());
                },
            }
        }
        Iter { next }
    }
}

/// An owning iterator down a tree's rightmost spine: each step yields the
/// current root's value and moves to its right child.
pub struct IntoIter<T: TotalOrder>(BST<T>);

impl<T: TotalOrder> View for IntoIter<T> {
    type V = Seq<T>;

    closed spec fn view(&self) -> Seq<T> {
        node_spine(self.0.root)
    }
}

impl<T: TotalOrder> IntoIter<T> {
    /// The next spine value, or `None` once the spine is exhausted.
    pub fn next(&mut self) -> (r: Option<T>)
        ensures
            old(self)@.len() == 0 ==> r is None && final(self)@ == old(self)@,
            old(self)@.len() > 0 ==> r == Some(old(self)@[0]) && final(self)@ == old(
                self,
            )@.drop_first(),
    {
        match self.0.root.take() {
            None => None,
            Some(boxed) => {
                let node = *boxed;
                self.0.root = node.right;
                proof {
                    assert(self@ =~= old(self)@.drop_first());
                }
                Some(node.val)
            },
        }
    }
}

/// A borrowing iterator down a tree's rightmost spine.
pub struct Iter<'a, T: TotalOrder> {
    next: Option<&'a Node<T>>,
}

impl<'a, T: TotalOrder> View for Iter<'a, T> {
    type V = Seq<T>;

    closed spec fn view(&self) -> Seq<T> {
        match self.next {
            None => Seq::empty(),
            Some(node) => seq![node.val] + node_spine(node.right),
        }
    }
}

impl<'a, T: TotalOrder> Iter<'a, T> {
    /// The next spine value, or `None` once the spine is exhausted.
    pub fn next(&mut self) -> (r: Option<&'a T>)
        ensures
            old(self)@.len() == 0 ==> r is None && final(self)@ == old(self)@,
            old(self)@.len() > 0 ==> r == Some(&old(self)@[0]) && final(self)@ == old(
                self,
            )@.drop_first(),
    {
        match self.next {
            None => None,
            Some(node) => {
                let r = &node.val;
                let next = match &node.right {
                    None => None,
                    Some(b) => Some(&**b),
                };
                self.next = next;
                proof {
                    assert(self@ =~= old(self)@.drop_first());
                }
                Some(r)
            },
        }
    }
}

} // verus!
