use vstd::prelude::*;

verus! {

enum Link {
    Empty,
    Valid(Box<Node>),
}

struct Node {
    val: i32,
    next: Link,
}

/// The values held by a chain of links, head first.
spec fn link_view(l: Link) -> Seq<i32>
    decreases l,
{
    match l {
        Link::Empty => Seq::empty(),
        Link::Valid(node) => seq![node.val] + link_view(node.next),
    }
}

/// A singly linked stack of integers: values are pushed and popped at the
/// head.
pub struct List {
    head: Link,
}

impl View for List {
    type V = Seq<i32>;

    closed spec fn view(&self) -> Seq<i32> {
        link_view(self.head)
    }
}

impl List {
    /// Creates an empty list.
    pub fn new() -> (l: List)
        ensures
            l@ == Seq::<i32>::empty(),
    {
        List { head: Link::Empty }
    }

    /// Pushes a value at the head.
    pub fn push(&mut self, val: i32)
        ensures
            final(self)@ == seq![val] + old(self)@,
    {
        let mut old_head = Link::Empty;
        core::mem::swap(&mut self.head, &mut old_head);
        self.head = Link::Valid(Box::new(Node { val, next: old_head }));
    }

    /// Pops the value at the head, or `None` when the list is empty.
    pub fn pop(&mut self) -> (r: Option<i32>)
        ensures
            old(self)@.len() == 0 ==> r is None && final(self)@ == old(self)@,
            old(self)@.len() > 0 ==> r == Some(old(self)@[0]) && final(self)@ == old(
                self,
            )@.drop_first(),
    {
        let mut cur = Link::Empty;
        core::mem::swap(&mut self.head, &mut cur);
        match cur {
            Link::Empty => None,
            Link::Valid(boxed) => {
                let node = *boxed;
                self.head = node.next;
                proof {
                    assert(link_view(self.head) =~= old(self)@.drop_first());
                }
                Some(node.val)
            },
        }
    }
}

} // verus!
