use vstd::prelude::*;

verus! {

/// The outcome of a three-way comparison.
pub enum CmpResult {
    Less,
    Equal,
    Greater,
}

/// A total order that verified code can compare through: the relation itself
/// as a spec function, the laws that make it a total order, and an
/// executable three-way comparison that agrees with it.
pub trait TotalOrder: Sized {
    /// The order's "no later than" relation.
    spec fn leq(self, other: Self) -> bool;

    proof fn lemma_reflexive(a: Self)
        ensures
            a.leq(a),
    ;

    proof fn lemma_transitive(a: Self, b: Self, c: Self)
        requires
            a.leq(b),
            b.leq(c),
        ensures
            a.leq(c),
    ;

    proof fn lemma_antisymmetric(a: Self, b: Self)
        requires
            a.leq(b),
            b.leq(a),
        ensures
            a == b,
    ;

    proof fn lemma_total(a: Self, b: Self)
        ensures
            a.leq(b) || b.leq(a),
    ;

    /// Compares two values; the outcome agrees with the order.
    fn compare(&self, other: &Self) -> (c: CmpResult)
        ensures
            match c {
                CmpResult::Less => self.leq(*other) && *self != *other,
                CmpResult::Equal => *self == *other,
                CmpResult::Greater => other.leq(*self) && *self != *other,
            },
    ;
}

impl TotalOrder for i32 {
    open spec fn leq(self, other: Self) -> bool {
        self <= other
    }

    proof fn lemma_reflexive(a: Self) {
    }

    proof fn lemma_transitive(a: Self, b: Self, c: Self) {
    }

    proof fn lemma_antisymmetric(a: Self, b: Self) {
    }

    proof fn lemma_total(a: Self, b: Self) {
    }

    fn compare(&self, other: &Self) -> (c: CmpResult) {
        if *self < *other {
            CmpResult::Less
        } else if *self == *other {
            CmpResult::Equal
        } else {
            CmpResult::Greater
        }
    }
}

impl TotalOrder for u64 {
    open spec fn leq(self, other: Self) -> bool {
        self <= other
    }

    proof fn lemma_reflexive(a: Self) {
    }

    proof fn lemma_transitive(a: Self, b: Self, c: Self) {
    }

    proof fn lemma_antisymmetric(a: Self, b: Self) {
    }

    proof fn lemma_total(a: Self, b: Self) {
    }

    fn compare(&self, other: &Self) -> (c: CmpResult) {
        if *self < *other {
            CmpResult::Less
        } else if *self == *other {
            CmpResult::Equal
        } else {
            CmpResult::Greater
        }
    }
}

} // verus!
