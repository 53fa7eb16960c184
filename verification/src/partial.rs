use vstd::prelude::*;
use vstd::relations::total_ordering;

verus! {

/// Wrapper giving a stream value a total order.
///
/// A value whose own comparison is only partial (floating point, say, where
/// incomparable pairs exist) takes part in sorting through the key stored
/// here: the caller encodes each value as a signed 64-bit key through an
/// order-preserving map that sends every incomparable value to one fixed
/// key. Comparison of wrappers is comparison of keys, so it is total by
/// construction and never fails, and equality agrees with the order.
#[derive(Clone, Copy, PartialEq, Eq, Structural)]
pub struct Partial(pub i64);

/// The order on wrapped values: comparison of their keys.
pub open spec fn partial_le() -> spec_fn(Partial, Partial) -> bool {
    |a: Partial, b: Partial| a.0 <= b.0
}

impl Partial {
    /// Whether this wrapper sorts at or before the other one.
    pub fn le(&self, other: &Partial) -> (r: bool)
        ensures
            r == partial_le()(*self, *other),
    {
        self.0 <= other.0
    }
}

/// The order on wrapped values is a total ordering: reflexive, transitive,
/// antisymmetric, and any two values are comparable.
pub proof fn lemma_partial_le_total_ordering()
    ensures
        total_ordering(partial_le()),
{
}

} // verus!
