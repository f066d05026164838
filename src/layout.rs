//! Per-node layout results and sizing-query memo entries.

use vstd::prelude::*;
use crate::geometry::{Point, Size, round_units, is_whole_pixel};
use crate::style::AvailableSpace;

verus! {

/// Whether a query wants the size alone or also the placement of children.
#[derive(Clone, Copy, Debug, PartialEq, Eq, Structural)]
pub enum RunMode {
    ComputeSize,
    PerformLayout,
}

/// Whether a node sizes from its own style or from its content.
#[derive(Clone, Copy, Debug, PartialEq, Eq, Structural)]
pub enum SizingMode {
    InherentSize,
    ContentSize,
}

/// The final result of laying out one node.
#[derive(Clone, Copy, Debug)]
pub struct Layout {
    /// The node's index among its siblings when it was placed.
    pub order: u32,
    /// Width and height, in length units.
    pub size: Size<i64>,
    /// Offset from the parent's origin, in length units.
    pub location: Point<i64>,
}

/// One memoized sizing query and its answer.
#[derive(Clone, Copy, Debug)]
pub struct Cache {
    pub known_dimensions: Size<Option<i64>>,
    pub available_space: Size<AvailableSpace>,
    pub run_mode: RunMode,
    pub cached_size: Size<i64>,
}

impl Layout {
    /// The all-zero layout, as a value for specifications.
    pub open spec fn zero_spec() -> Layout {
        Layout { order: 0, size: Size { width: 0, height: 0 }, location: Point { x: 0, y: 0 } }
    }

    /// The all-zero layout.
    pub fn zero() -> (r: Layout)
        ensures
            r == Layout::zero_spec(),
    {
        Layout { order: 0, size: Size { width: 0, height: 0 }, location: Point { x: 0, y: 0 } }
    }

    /// The layout of a hidden node: zero size at the origin, with the given order.
    pub fn with_order(order: u32) -> (r: Layout)
        ensures
            r.order == order,
            r.size.width == 0 && r.size.height == 0,
            r.location.x == 0 && r.location.y == 0,
    {
        Layout { order, size: Size { width: 0, height: 0 }, location: Point { x: 0, y: 0 } }
    }
}

/// `l` with each length rounded to a whole pixel; the order is kept.
pub open spec fn rounded(l: Layout) -> Layout {
    Layout {
        order: l.order,
        size: Size {
            width: round_units(l.size.width as int) as i64,
            height: round_units(l.size.height as int) as i64,
        },
        location: Point {
            x: round_units(l.location.x as int) as i64,
            y: round_units(l.location.y as int) as i64,
        },
    }
}

/// Whether every length of `l` is a whole number of pixels.
pub open spec fn is_whole(l: Layout) -> bool {
    &&& is_whole_pixel(l.size.width as int)
    &&& is_whole_pixel(l.size.height as int)
    &&& is_whole_pixel(l.location.x as int)
    &&& is_whole_pixel(l.location.y as int)
}

/// Whether `l` has zero size and lies at its parent's origin.
pub open spec fn is_collapsed(l: Layout) -> bool {
    l.size.width == 0 && l.size.height == 0 && l.location.x == 0 && l.location.y == 0
}

/// A rounded layout is whole, and rounding it again changes nothing.
pub proof fn lemma_rounded(l: Layout)
    ensures
        is_whole(rounded(l)),
        rounded(rounded(l)) == rounded(l),
{
    crate::geometry::lemma_round_is_whole(l.size.width);
    crate::geometry::lemma_round_is_whole(l.size.height);
    crate::geometry::lemma_round_is_whole(l.location.x);
    crate::geometry::lemma_round_is_whole(l.location.y);
    crate::geometry::lemma_round_idempotent(l.size.width);
    crate::geometry::lemma_round_idempotent(l.size.height);
    crate::geometry::lemma_round_idempotent(l.location.x);
    crate::geometry::lemma_round_idempotent(l.location.y);
}

/// A whole layout is its own rounding.
pub proof fn lemma_whole_is_rounded(l: Layout)
    requires
        is_whole(l),
    ensures
        rounded(l) == l,
{
    crate::geometry::lemma_round_whole_fixed(l.size.width);
    crate::geometry::lemma_round_whole_fixed(l.size.height);
    crate::geometry::lemma_round_whole_fixed(l.location.x);
    crate::geometry::lemma_round_whole_fixed(l.location.y);
}

/// A collapsed layout is its own rounding.
pub proof fn lemma_collapsed_is_rounded(l: Layout)
    requires
        is_collapsed(l),
    ensures
        rounded(l) == l,
        is_whole(l),
{
    lemma_whole_is_rounded(l);
}

} // verus!
