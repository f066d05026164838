//! The per-node inputs that the orchestration reads: available space and display mode.

use vstd::prelude::*;

verus! {

/// The space offered to a node along one axis.
#[derive(Clone, Copy, Debug, PartialEq, Eq, Structural)]
pub enum AvailableSpace {
    /// A definite amount, in length units.
    Definite(i64),
    /// Size to the smallest the content allows.
    MinContent,
    /// Size to the largest the content wants.
    MaxContent,
}

impl AvailableSpace {
    /// Whether the space is a definite amount.
    pub fn is_definite(&self) -> (r: bool)
        ensures
            r == (*self is Definite),
    {
        match self {
            AvailableSpace::Definite(_) => true,
            _ => false,
        }
    }

    /// Whether two constraints are the same kind and, if definite, the same amount.
    /// Lengths are whole units, so two definite amounts are close exactly when equal.
    pub fn is_roughly_equal(self, other: AvailableSpace) -> (r: bool)
        ensures
            r == (self == other),
    {
        match (self, other) {
            (AvailableSpace::Definite(a), AvailableSpace::Definite(b)) => a == b,
            (AvailableSpace::MinContent, AvailableSpace::MinContent) => true,
            (AvailableSpace::MaxContent, AvailableSpace::MaxContent) => true,
            _ => false,
        }
    }
}

/// Selects the sizing algorithm of a node that has children.
#[derive(Clone, Copy, Debug, PartialEq, Eq, Structural)]
pub enum Display {
    /// Laid out by the flex algorithm.
    Flex,
    /// Laid out by the grid algorithm.
    Grid,
    /// Not rendered: the node and its whole subtree collapse to zero size.
    Hidden,
}

} // verus!
