//! The one error the orchestration reports.

use vstd::prelude::*;
use crate::tree::Node;

verus! {

/// An error of a layout computation.
#[derive(Clone, Copy, Debug, PartialEq, Eq, Structural)]
pub enum TaffyError {
    /// The given node is not a handle of the tree.
    InvalidInputNode(Node),
    /// A node given as a child is not a handle of the tree.
    InvalidChildNode(Node),
}

} // verus!
