//! Layout orchestration: a memoizing, recursive traversal over a tree of styled
//! nodes that dispatches each node to a sizing algorithm, caches results per
//! sizing query, collapses hidden subtrees and snaps the final layout to whole
//! pixels.
//!
//! Lengths are fixed-point: one pixel is `geometry::UNITS_PER_PIXEL` units.

pub mod cache;
pub mod compute;
pub mod error;
pub mod geometry;
pub mod layout;
pub mod node;
pub mod style;
pub mod tree;
