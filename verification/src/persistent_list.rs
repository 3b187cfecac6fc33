use vstd::prelude::*;
use std::sync::Arc;

verus! {

struct Node<T> {
    val: T,
    next: Option<Arc<Node<T>>>,
}

/// The values reachable from a link, head first.
spec fn link_view<T>(l: Option<Arc<Node<T>>>) -> Seq<T>
    decreases l,
{
    match l {
        None => Seq::empty(),
        Some(node) => seq![node.val] + link_view(node.next),
    }
}

/// A persistent singly linked list: `append` and `tail` share structure with
/// the original list instead of copying it.
pub struct List<T> {
    head: Option<Arc<Node<T>>>,
}

impl<T> View for List<T> {
    type V = Seq<T>;

    closed spec fn view(&self) -> Seq<T> {
        link_view(self.head)
    }
}

impl<T> List<T> {
    /// Creates an empty list.
    pub fn new() -> (l: Self)
        ensures
            l@ == Seq::<T>::empty(),
    {
        List { head: None }
    }

    /// Detaches this handle from the shared chain, leaving it empty.
    pub fn drop(&mut self)
        ensures
            final(self)@ == Seq::<T>::empty(),
    {
        self.head = None;
    }

    /// A new list with `val` in front of everything in this one; the tail is
    /// shared, not copied.
    pub fn append(&self, val: T) -> (r: List<T>)
        ensures
            r@ == seq![val] + self@,
    {
        let next = match &self.head {
            None => None,
            Some(rc) => Some(rc.clone()),
        };
        List { head: Some(Arc::new(Node { val, next })) }
    }

    /// The list without its head element; the empty list stays empty.
    pub fn tail(&self) -> (r: List<T>)
        ensures
            self@.len() == 0 ==> r@ == Seq::<T>::empty(),
            self@.len() > 0 ==> r@ == self@.drop_first(),
    {
        match &self.head {
            None => List { head: None },
            Some(rc) => {
                let next = match &rc.next {
                    None => None,
                    Some(n) => Some(n.clone()),
                };
                proof {
                    assert(link_view(next) =~= self@.drop_first());
                }
                List { head: next }
            },
        }
    }

    /// A reference to the head value, or `None` when the list is empty.
    pub fn head(&self) -> (r: Option<&T>)
        ensures
            self@.len() == 0 ==> r is None,
            self@.len() > 0 ==> r == Some(&self@[0]),
    {
        match &self.head {
            None => None,
            Some(rc) => Some(&rc.val),
        }
    }

    /// An iterator over the values, head first.
    pub fn iter<'a>(&'a self) -> (it: Iter<'a, T>)
        ensures
            it@ == self@,
    {
        let next = match &self.head {
            None => None,
            Some(rc) => Some(&**rc),
        };
        Iter { next }
    }
}

/// An iterator over a persistent list; yields the values still ahead of it,
/// in list order.
pub struct Iter<'a, T> {
    next: Option<&'a Node<T>>,
}

impl<'a, T> View for Iter<'a, T> {
    type V = Seq<T>;

    closed spec fn view(&self) -> Seq<T> {
        match self.next {
            None => Seq::empty(),
            Some(node) => seq![node.val] + link_view(node.next),
        }
    }
}

impl<'a, T> Iter<'a, T> {
    /// The next value, or `None` once the list is exhausted.
    pub fn next(&mut self) -> (r: Option<&'a T>)
        ensures
            old(self)@.len() == 0 ==> r is None && final(self)@ == old(self)@,
            old(self)@.len() > 0 ==> r == Some(&old(self)@[0]) && final(self)@ == old(
                self,
            )@.drop_first(),
    {
        match self.next {
            None => None,
            Some(node) => {
                let r = &node.val;
                let next = match &node.next {
                    None => None,
                    Some(rc) => Some(&**rc),
                };
                self.next = next;
                proof {
                    assert(self@ =~= old(self)@.drop_first());
                }
                Some(r)
            },
        }
    }
}

} // verus!
