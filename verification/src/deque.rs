use vstd::prelude::*;

verus! {

/// A double-ended list of values: pushes, pops and peeks at both ends. The
/// front of the list is the first element of its view.
pub struct List<T> {
    items: Vec<T>,
}

impl<T> View for List<T> {
    type V = Seq<T>;

    closed spec fn view(&self) -> Seq<T> {
        self.items@
    }
}

impl<T> List<T> {
    /// Creates an empty list.
    pub fn new() -> (l: Self)
        ensures
            l@ == Seq::<T>::empty(),
    {
        let items: Vec<T> = Vec::new();
        proof {
            assert(items@ =~= Seq::<T>::empty());
        }
        List { items }
    }

    /// Removes every element.
    pub fn drop(&mut self)
        ensures
            final(self)@ == Seq::<T>::empty(),
    {
        self.items.clear();
        proof {
            assert(self.items@ =~= Seq::<T>::empty());
        }
    }

    /// Adds a value at the front.
    pub fn push_front(&mut self, val: T)
        ensures
            final(self)@ == seq![val] + old(self)@,
    {
        self.items.insert(0, val);
        proof {
            assert(self.items@ =~= seq![val] + old(self)@);
        }
    }

    /// Removes and returns the front value, or `None` when empty.
    pub fn pop_front(&mut self) -> (r: Option<T>)
        ensures
            old(self)@.len() == 0 ==> r is None && final(self)@ == old(self)@,
            old(self)@.len() > 0 ==> r == Some(old(self)@[0]) && final(self)@ == old(
                self,
            )@.drop_first(),
    {
        if self.items.len() == 0 {
            None
        } else {
            let v = self.items.remove(0);
            proof {
                assert(self.items@ =~= old(self)@.drop_first());
            }
            Some(v)
        }
    }

    /// A reference to the front value, or `None` when empty.
    pub fn peek_front(&self) -> (r: Option<&T>)
        ensures
            self@.len() == 0 ==> r is None,
            self@.len() > 0 ==> r == Some(&self@[0]),
    {
        if self.items.len() == 0 {
            None
        } else {
            Some(&self.items[0])
        }
    }

    /// A mutable reference to the front value, or `None` when empty.
    pub fn peek_front_mut(&mut self) -> (r: Option<&mut T>)
        ensures
            old(self)@.len() == 0 ==> r is None && final(self)@ == old(self)@,
            old(self)@.len() > 0 ==> (r matches Some(p) && *p == old(self)@[0] && final(self)@
                == old(self)@.update(0, *final(p))),
    {
        if self.items.len() == 0 {
            None
        } else {
            Some(&mut self.items[0])
        }
    }

    /// Adds a value at the back.
    pub fn push_back(&mut self, val: T)
        ensures
            final(self)@ == old(self)@.push(val),
    {
        self.items.push(val);
    }

    /// Removes and returns the back value, or `None` when empty.
    pub fn pop_back(&mut self) -> (r: Option<T>)
        ensures
            old(self)@.len() == 0 ==> r is None && final(self)@ == old(self)@,
            old(self)@.len() > 0 ==> r == Some(old(self)@.last()) && final(self)@ == old(
                self,
            )@.drop_last(),
    {
        self.items.pop()
    }

    /// A reference to the back value, or `None` when empty.
    pub fn peek_back(&self) -> (r: Option<&T>)
        ensures
            self@.len() == 0 ==> r is None,
            self@.len() > 0 ==> r == Some(&self@[self@.len() - 1]),
    {
        if self.items.len() == 0 {
            None
        } else {
            Some(&self.items[self.items.len() - 1])
        }
    }

    /// A mutable reference to the back value, or `None` when empty.
    pub fn peek_back_mut(&mut self) -> (r: Option<&mut T>)
        ensures
            old(self)@.len() == 0 ==> r is None && final(self)@ == old(self)@,
            old(self)@.len() > 0 ==> (r matches Some(p) && *p == old(self)@.last() && final(self)@
                == old(self)@.update(old(self)@.len() - 1, *final(p))),
    {
        if self.items.len() == 0 {
            None
        } else {
            let i = self.items.len() - 1;
            Some(&mut self.items[i])
        }
    }
}

} // verus!
