use vstd::prelude::*;

verus! {

/// A bounded FIFO channel between one producer and one consumer.
///
/// The queue holds at most `capacity` units at a time; a producer that finds
/// it full must wait for the consumer to drain it (the waiting itself is the
/// caller's concern — `push` simply demands free space). Once closed by its
/// producer, the queue accepts nothing further and only yields what is still
/// buffered.
pub struct BoundedQueue<T> {
    items: Vec<T>,
    capacity: usize,
    closed: bool,
}

impl<T> BoundedQueue<T> {
    /// The buffered units, oldest first.
    pub closed spec fn contents(&self) -> Seq<T> {
        self.items@
    }

    /// The fixed capacity the queue was created with.
    pub closed spec fn cap(&self) -> int {
        self.capacity as int
    }

    /// Whether the producer has closed the queue.
    pub closed spec fn closed_spec(&self) -> bool {
        self.closed
    }

    /// Creates an open, empty queue of the given capacity.
    pub fn new(capacity: usize) -> (q: Self)
        requires
            capacity >= 1,
        ensures
            q.contents() == Seq::<T>::empty(),
            q.cap() == capacity,
            !q.closed_spec(),
    {
        let items: Vec<T> = Vec::new();
        proof {
            assert(items@ =~= Seq::<T>::empty());
        }
        BoundedQueue { items, capacity, closed: false }
    }

    /// The number of units currently buffered.
    pub fn len(&self) -> (n: usize)
        ensures
            n == self.contents().len(),
    {
        self.items.len()
    }

    /// Whether the queue holds no units.
    pub fn is_empty(&self) -> (b: bool)
        ensures
            b == (self.contents().len() == 0),
    {
        self.items.len() == 0
    }

    /// Whether the queue is at capacity, so a push must wait.
    pub fn is_full(&self) -> (b: bool)
        ensures
            b == (self.contents().len() >= self.cap()),
    {
        self.items.len() >= self.capacity
    }

    /// Whether the producer has closed the queue.
    pub fn is_closed(&self) -> (b: bool)
        ensures
            b == self.closed_spec(),
    {
        self.closed
    }

    /// Appends one unit at the back. The unit is neither lost nor duplicated:
    /// the new contents are exactly the old contents followed by `t`.
    pub fn push(&mut self, t: T)
        requires
            !old(self).closed_spec(),
            old(self).contents().len() < old(self).cap(),
        ensures
            final(self).contents() == old(self).contents().push(t),
            final(self).cap() == old(self).cap(),
            !final(self).closed_spec(),
    {
        self.items.push(t);
    }

    /// Removes and returns the oldest unit, or `None` when the buffer is
    /// empty. Units come out in the exact order they went in.
    pub fn pop(&mut self) -> (r: Option<T>)
        ensures
            final(self).cap() == old(self).cap(),
            final(self).closed_spec() == old(self).closed_spec(),
            old(self).contents().len() == 0 ==> r is None && final(self).contents()
                == old(self).contents(),
            old(self).contents().len() > 0 ==> r == Some(old(self).contents()[0])
                && final(self).contents() == old(self).contents().drop_first(),
    {
        if self.items.len() == 0 {
            None
        } else {
            let t = self.items.remove(0);
            proof {
                assert(self.items@ =~= old(self).items@.drop_first());
            }
            Some(t)
        }
    }

    /// Closes the queue: the one-shot end-of-stream signal. Buffered units
    /// stay available to the consumer.
    pub fn close(&mut self)
        ensures
            final(self).closed_spec(),
            final(self).contents() == old(self).contents(),
            final(self).cap() == old(self).cap(),
    {
        self.closed = true;
    }
}

/// Drives every unit of `items` through a bounded queue of the given
/// capacity and returns what the consumer received. However small the
/// capacity and however slowly the consumer drains, each unit comes out
/// exactly once, in order: nothing is dropped and nothing is duplicated.
pub fn relay_through_queue<T>(items: Vec<T>, capacity: usize) -> (out: Vec<T>)
    requires
        capacity >= 1,
    ensures
        out@ == items@,
{
    let ghost all = items@;
    let mut source = items;
    let mut q: BoundedQueue<T> = BoundedQueue::new(capacity);
    let mut out: Vec<T> = Vec::new();
    proof {
        assert(out@ + q.contents() + source@ =~= all);
    }
    while source.len() > 0
        invariant
            capacity >= 1,
            q.cap() == capacity,
            !q.closed_spec(),
            q.contents().len() <= capacity,
            out@ + q.contents() + source@ == all,
        decreases source@.len(),
    {
        if q.is_full() {
            let ghost qc = q.contents();
            let u = q.pop();
            proof {
                assert(qc.len() > 0);
            }
            match u {
                Some(t) => {
                    let ghost pre = out@;
                    out.push(t);
                    proof {
                        assert(out@ + q.contents() =~= pre + qc);
                        assert(out@ + q.contents() + source@ =~= all);
                    }
                },
                None => {},
            }
        }
        let ghost pre_src = source@;
        let t = source.remove(0);
        q.push(t);
        proof {
            assert(source@ =~= pre_src.drop_first());
            assert(out@ + q.contents() + source@ =~= all);
        }
    }
    q.close();
    while q.len() > 0
        invariant
            out@ + q.contents() == all,
        decreases q.contents().len(),
    {
        let ghost pre_out = out@;
        let ghost pre_q = q.contents();
        let u = q.pop();
        match u {
            Some(t) => {
                out.push(t);
                proof {
                    assert(out@ + q.contents() =~= pre_out + pre_q);
                }
            },
            None => {},
        }
    }
    proof {
        assert(out@ =~= all);
    }
    out
}

} // verus!
