//! Distance metrics and the direction in which each one ranks scores.

use vstd::prelude::*;

verus! {

/// The scoring function family of a collection.
#[derive(Clone, Copy, Debug, PartialEq, Eq, Structural)]
pub enum Distance {
    Euclidean,
    Cosine,
    DotProduct,
}

impl Distance {
    /// Whether a smaller score means a closer match under this metric.
    pub open spec fn spec_lower_is_better(self) -> bool {
        self is Euclidean
    }

    /// Whether a smaller score means a closer match: true for a distance
    /// (Euclidean), false for a similarity (cosine, dot product).
    #[verifier::when_used_as_spec(spec_lower_is_better)]
    pub fn lower_is_better(self) -> (r: bool)
        ensures
            r == self.spec_lower_is_better(),
    {
        match self {
            Distance::Euclidean => true,
            Distance::Cosine => false,
            Distance::DotProduct => false,
        }
    }

    /// Whether vectors are scaled to unit length before they are stored,
    /// so that a plain dot product against a stored vector is a cosine.
    pub open spec fn spec_stores_normalized(self) -> bool {
        self is Cosine
    }

    #[verifier::when_used_as_spec(spec_stores_normalized)]
    pub fn stores_normalized(self) -> (r: bool)
        ensures
            r == self.spec_stores_normalized(),
    {
        match self {
            Distance::Cosine => true,
            _ => false,
        }
    }
}

} // verus!
