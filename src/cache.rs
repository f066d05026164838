//! Memoized sizing queries: when a stored entry answers a query, and the lookup
//! over a node's four slots.

use vstd::prelude::*;
use crate::geometry::Size;
use crate::layout::{Cache, RunMode, SizingMode};
use crate::style::AvailableSpace;
use crate::tree::{LayoutTree, Node};

verus! {

/// The slot that a query with these known dimensions is stored in: bit 0 for a
/// known width, bit 1 for a known height.
pub open spec fn slot_index(known_dimensions: Size<Option<i64>>) -> int {
    (if known_dimensions.width is Some { 1int } else { 0int }) + (if known_dimensions.height is Some {
        2int
    } else {
        0int
    })
}

/// Whether an axis of a query is answered by an entry: its known length is the
/// entry's or the length the entry produced; and, if not known, the available
/// space is the same, or (content sizing) definite and no less than the produced length.
pub open spec fn axis_usable(
    known: Option<i64>,
    available: AvailableSpace,
    entry_known: Option<i64>,
    entry_available: AvailableSpace,
    cached: i64,
    sizing_mode: SizingMode,
) -> bool {
    &&& (known == entry_known || known == Some(cached))
    &&& (known is Some || entry_available == available || (sizing_mode == SizingMode::ContentSize
        && available is Definite && available->Definite_0 >= cached))
}

/// Whether `entry` answers the query.
pub open spec fn entry_usable(
    entry: Cache,
    known_dimensions: Size<Option<i64>>,
    available_space: Size<AvailableSpace>,
    run_mode: RunMode,
    sizing_mode: SizingMode,
) -> bool {
    &&& !(entry.run_mode == RunMode::ComputeSize && run_mode == RunMode::PerformLayout)
    &&& axis_usable(
        known_dimensions.width,
        available_space.width,
        entry.known_dimensions.width,
        entry.available_space.width,
        entry.cached_size.width,
        sizing_mode,
    )
    &&& axis_usable(
        known_dimensions.height,
        available_space.height,
        entry.known_dimensions.height,
        entry.available_space.height,
        entry.cached_size.height,
        sizing_mode,
    )
}

/// The size held by the first slot, from `from` on, whose entry answers the query.
pub open spec fn lookup_from(
    slots: Seq<Option<Cache>>,
    from: int,
    known_dimensions: Size<Option<i64>>,
    available_space: Size<AvailableSpace>,
    run_mode: RunMode,
    sizing_mode: SizingMode,
) -> Option<Size<i64>>
    decreases slots.len() - from,
{
    if from < 0 || from >= slots.len() {
        None
    } else {
        match slots[from] {
            Some(e) if entry_usable(e, known_dimensions, available_space, run_mode, sizing_mode) => Some(
                e.cached_size,
            ),
            _ => lookup_from(
                slots,
                from + 1,
                known_dimensions,
                available_space,
                run_mode,
                sizing_mode,
            ),
        }
    }
}

/// The size held by the first slot whose entry answers the query, if any.
pub open spec fn lookup(
    slots: Seq<Option<Cache>>,
    known_dimensions: Size<Option<i64>>,
    available_space: Size<AvailableSpace>,
    run_mode: RunMode,
    sizing_mode: SizingMode,
) -> Option<Size<i64>> {
    lookup_from(slots, 0, known_dimensions, available_space, run_mode, sizing_mode)
}

/// The four memo slots of `node`.
pub open spec fn slots_of<T: LayoutTree>(t: &T, node: Node) -> Seq<Option<Cache>> {
    seq![t.cache_of(node, 0), t.cache_of(node, 1), t.cache_of(node, 2), t.cache_of(node, 3)]
}

/// A lookup finds a size wherever a slot at or after where it starts answers the query.
pub proof fn lemma_lookup_finds(
    slots: Seq<Option<Cache>>,
    from: int,
    j: int,
    known_dimensions: Size<Option<i64>>,
    available_space: Size<AvailableSpace>,
    run_mode: RunMode,
    sizing_mode: SizingMode,
)
    requires
        0 <= from <= j < slots.len(),
        slots[j] is Some,
        entry_usable(slots[j]->Some_0, known_dimensions, available_space, run_mode, sizing_mode),
    ensures
        lookup_from(slots, from, known_dimensions, available_space, run_mode, sizing_mode) is Some,
    decreases j - from,
{
    if from < j {
        lemma_lookup_finds(slots, from + 1, j, known_dimensions, available_space, run_mode, sizing_mode);
    }
}

/// A lookup that finds nothing passed over every slot from where it started.
pub proof fn lemma_lookup_none(
    slots: Seq<Option<Cache>>,
    from: int,
    known_dimensions: Size<Option<i64>>,
    available_space: Size<AvailableSpace>,
    run_mode: RunMode,
    sizing_mode: SizingMode,
)
    requires
        0 <= from,
        lookup_from(slots, from, known_dimensions, available_space, run_mode, sizing_mode) is None,
    ensures
        forall|j: int|
            from <= j < slots.len() && #[trigger] slots[j] is Some ==> !entry_usable(
                slots[j]->Some_0,
                known_dimensions,
                available_space,
                run_mode,
                sizing_mode,
            ),
    decreases slots.len() - from,
{
    if from < slots.len() {
        lemma_lookup_none(slots, from + 1, known_dimensions, available_space, run_mode, sizing_mode);
    }
}

/// A lookup yields the size of the first slot, from where it starts, that answers the query.
pub proof fn lemma_lookup_first(
    slots: Seq<Option<Cache>>,
    from: int,
    k: int,
    known_dimensions: Size<Option<i64>>,
    available_space: Size<AvailableSpace>,
    run_mode: RunMode,
    sizing_mode: SizingMode,
)
    requires
        0 <= from <= k < slots.len(),
        slots[k] is Some,
        entry_usable(slots[k]->Some_0, known_dimensions, available_space, run_mode, sizing_mode),
        forall|j: int|
            from <= j < k && #[trigger] slots[j] is Some ==> !entry_usable(
                slots[j]->Some_0,
                known_dimensions,
                available_space,
                run_mode,
                sizing_mode,
            ),
    ensures
        lookup_from(slots, from, known_dimensions, available_space, run_mode, sizing_mode) == Some(
            slots[k]->Some_0.cached_size,
        ),
    decreases k - from,
{
    if from < k {
        assert(slots[from] is Some ==> !entry_usable(
            slots[from]->Some_0,
            known_dimensions,
            available_space,
            run_mode,
            sizing_mode,
        ));
        lemma_lookup_first(slots, from + 1, k, known_dimensions, available_space, run_mode, sizing_mode);
    }
}

/// A size that a lookup finds comes from a slot whose entry answers the query.
pub proof fn lemma_lookup_found(
    slots: Seq<Option<Cache>>,
    from: int,
    known_dimensions: Size<Option<i64>>,
    available_space: Size<AvailableSpace>,
    run_mode: RunMode,
    sizing_mode: SizingMode,
) -> (j: int)
    requires
        lookup_from(slots, from, known_dimensions, available_space, run_mode, sizing_mode) is Some,
    ensures
        0 <= from <= j < slots.len(),
        slots[j] is Some,
        entry_usable(slots[j]->Some_0, known_dimensions, available_space, run_mode, sizing_mode),
        slots[j]->Some_0.cached_size == lookup_from(
            slots,
            from,
            known_dimensions,
            available_space,
            run_mode,
            sizing_mode,
        )->Some_0,
    decreases slots.len() - from,
{
    match slots[from] {
        Some(e) => {
            if entry_usable(e, known_dimensions, available_space, run_mode, sizing_mode) {
                from
            } else {
                lemma_lookup_found(slots, from + 1, known_dimensions, available_space, run_mode, sizing_mode)
            }
        },
        None => lemma_lookup_found(slots, from + 1, known_dimensions, available_space, run_mode, sizing_mode),
    }
}

fn same_known(a: Option<i64>, b: Option<i64>) -> (r: bool)
    ensures
        r == (a == b),
{
    match (a, b) {
        (Some(x), Some(y)) => x == y,
        (None, None) => true,
        _ => false,
    }
}

fn axis_matches(
    known: Option<i64>,
    available: AvailableSpace,
    entry_known: Option<i64>,
    entry_available: AvailableSpace,
    cached: i64,
    sizing_mode: SizingMode,
) -> (r: bool)
    ensures
        r == axis_usable(known, available, entry_known, entry_available, cached, sizing_mode),
{
    let pinned = same_known(known, entry_known) || same_known(known, Some(cached));
    let room = match available {
        AvailableSpace::Definite(v) => sizing_mode == SizingMode::ContentSize && v >= cached,
        _ => false,
    };
    pinned && (known.is_some() || entry_available.is_roughly_equal(available) || room)
}

/// Returns the size stored for an equivalent query on `node`, if any: the entry
/// of the first of its four slots that answers the query.
pub fn compute_from_cache<T: LayoutTree>(
    tree: &T,
    node: Node,
    known_dimensions: Size<Option<i64>>,
    available_space: Size<AvailableSpace>,
    run_mode: RunMode,
    sizing_mode: SizingMode,
) -> (r: Option<Size<i64>>)
    requires
        tree.contains(node),
    ensures
        r == lookup(slots_of(tree, node), known_dimensions, available_space, run_mode, sizing_mode),
{
    let ghost slots = slots_of(tree, node);
    let mut idx: usize = 0;
    while idx < 4
        invariant
            idx <= 4,
            tree.contains(node),
            slots == slots_of(tree, node),
            lookup(slots, known_dimensions, available_space, run_mode, sizing_mode) == lookup_from(
                slots,
                idx as int,
                known_dimensions,
                available_space,
                run_mode,
                sizing_mode,
            ),
        decreases 4 - idx,
    {
        if let Some(entry) = tree.cache(node, idx) {
            let compatible = !(entry.run_mode == RunMode::ComputeSize && run_mode
                == RunMode::PerformLayout) && axis_matches(
                known_dimensions.width,
                available_space.width,
                entry.known_dimensions.width,
                entry.available_space.width,
                entry.cached_size.width,
                sizing_mode,
            ) && axis_matches(
                known_dimensions.height,
                available_space.height,
                entry.known_dimensions.height,
                entry.available_space.height,
                entry.cached_size.height,
                sizing_mode,
            );
            if compatible {
                return Some(entry.cached_size);
            }
        }
        idx = idx + 1;
    }
    None
}

} // verus!
