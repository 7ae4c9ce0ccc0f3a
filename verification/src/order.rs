//! Three-way comparison results and the ordering capability that pooled
//! artifacts must provide.

use vstd::prelude::*;

verus! {

/// Result of a three-way comparison.
#[derive(Clone, Copy, Debug, PartialEq, Eq, Structural)]
pub enum Order {
    Less,
    Equal,
    Greater,
}

/// A type whose values are totally preordered.
///
/// `le` is reflexive, transitive and total; two values are *equivalent*
/// when each is `le` the other.  The executable `compare` decides the order.
pub trait Ranked: Sized {
    /// `self` is ordered before, or equivalent to, `other`.
    spec fn le(&self, other: &Self) -> bool;

    proof fn le_reflexive(a: &Self)
        ensures
            a.le(a),
    ;

    proof fn le_transitive(a: &Self, b: &Self, c: &Self)
        requires
            a.le(b),
            b.le(c),
        ensures
            a.le(c),
    ;

    proof fn le_total(a: &Self, b: &Self)
        ensures
            a.le(b) || b.le(a),
    ;

    /// Decides the order of two values.
    fn compare(&self, other: &Self) -> (o: Order)
        ensures
            o == Order::Less <==> self.le(other) && !other.le(self),
            o == Order::Equal <==> self.le(other) && other.le(self),
            o == Order::Greater <==> !self.le(other),
    ;
}

impl Ranked for u64 {
    open spec fn le(&self, other: &Self) -> bool {
        *self <= *other
    }

    proof fn le_reflexive(a: &Self) {
    }

    proof fn le_transitive(a: &Self, b: &Self, c: &Self) {
    }

    proof fn le_total(a: &Self, b: &Self) {
    }

    fn compare(&self, other: &Self) -> (o: Order) {
        if *self < *other {
            Order::Less
        } else if *self == *other {
            Order::Equal
        } else {
            Order::Greater
        }
    }
}

} // verus!
