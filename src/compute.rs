//! The orchestration: cache-checked sizing of a node, dispatch to a sizing
//! algorithm, the hidden-subtree collapse and the rounding pass.

use vstd::prelude::*;
use crate::geometry::{Point, Size, round};
use crate::cache::compute_from_cache;
use crate::error::TaffyError;
use crate::layout::{Cache, Layout, RunMode, SizingMode};
use crate::style::{AvailableSpace, Display};
use crate::tree::{LayoutTree, Node, SizingAlgorithms};

verus! {

/// Every node of `t` keeps its memo slots in `u`.
pub open spec fn same_caches<T: LayoutTree>(t: &T, u: &T) -> bool {
    forall|n: Node, s: int| #[trigger] u.cache_of(n, s) == t.cache_of(n, s)
}

/// The run mode that a query on a node is memoized under: a childless node is
/// measured alike in both modes, so its queries share `PerformLayout` entries.
pub open spec fn cache_run_mode(childless: bool, run_mode: RunMode) -> RunMode {
    if childless {
        RunMode::PerformLayout
    } else {
        run_mode
    }
}

/// The size that the algorithm for `node` returns on a query: leaf measurement
/// for a childless node, else the algorithm its display mode selects; a hidden
/// node is zero.
pub open spec fn dispatched_size<T: LayoutTree, A: SizingAlgorithms<T>>(
    algorithms: &A,
    t: &T,
    node: Node,
    known_dimensions: Size<Option<i64>>,
    available_space: Size<AvailableSpace>,
    run_mode: RunMode,
    sizing_mode: SizingMode,
) -> Size<i64> {
    if t.children_of(node).len() == 0 {
        algorithms.leaf_size(t, node, known_dimensions, available_space, run_mode, sizing_mode)
    } else {
        match t.display_of(node) {
            Display::Flex => algorithms.flex_size(
                t,
                node,
                known_dimensions,
                available_space,
                run_mode,
            ),
            Display::Grid => algorithms.grid_size(
                t,
                node,
                known_dimensions,
                available_space,
                run_mode,
            ),
            Display::Hidden => Size { width: 0, height: 0 },
        }
    }
}

/// What `compute_node_layout` on tree `t` made of it in tree `u`, returning `r`.
/// A hit in the node's memo slots returns the stored size and changes nothing. A
/// miss returns what the node's algorithm returns and stores it with the query in
/// the slot of its known dimensions; the node's other slots, its own layout, and
/// the layouts and slots of every node not below it stay. A hidden node with
/// children collapses its whole subtree and leaves every other slot alone.
pub open spec fn sized_as<T: LayoutTree, A: SizingAlgorithms<T>>(
    algorithms: &A,
    t: &T,
    u: &T,
    node: Node,
    known_dimensions: Size<Option<i64>>,
    available_space: Size<AvailableSpace>,
    run_mode: RunMode,
    sizing_mode: SizingMode,
    r: Size<i64>,
) -> bool {
    let memo_mode = cache_run_mode(t.children_of(node).len() == 0, run_mode);
    let found = crate::cache::lookup(
        crate::cache::slots_of(t, node),
        known_dimensions,
        available_space,
        memo_mode,
        sizing_mode,
    );
    let slot = crate::cache::slot_index(known_dimensions);
    &&& found is Some ==> r == found->Some_0 && u == t
    &&& found is None ==> {
        &&& r == dispatched_size(
            algorithms,
            t,
            node,
            known_dimensions,
            available_space,
            run_mode,
            sizing_mode,
        )
        &&& u.cache_of(node, slot) == Some(
            Cache { known_dimensions, available_space, run_mode: memo_mode, cached_size: r },
        )
        &&& forall|s: int| s != slot ==> #[trigger] u.cache_of(node, s) == t.cache_of(node, s)
        &&& forall|m: Node|
            !crate::tree::is_descendant(t, node, m) ==> #[trigger] u.layout_of(m) == t.layout_of(m)
        &&& forall|m: Node, s: int|
            m != node && !crate::tree::is_descendant(t, node, m) ==> #[trigger] u.cache_of(m, s)
                == t.cache_of(m, s)
        &&& t.children_of(node).len() > 0 && t.display_of(node) == Display::Hidden ==> {
            &&& forall|m: Node|
                crate::tree::is_descendant(t, node, m) ==> crate::layout::is_collapsed(
                    #[trigger] u.layout_of(m),
                )
            &&& forall|m: Node, s: int| m != node ==> #[trigger] u.cache_of(m, s) == t.cache_of(m, s)
            &&& crate::tree::single_parent(t) ==> hidden_orders(t, u, node)
        }
    }
}

/// What `compute_layout` on `root` with `available_space` made of tree `t` in
/// tree `u`: sizing the root made `mid` of `t` with root size `size`; then the
/// root got the rounding of `{order 0, size, origin}`, every other node below it
/// the rounding of its layout in `mid`, and everything else stayed as in `mid`.
pub open spec fn laid_out_via<T: LayoutTree, A: SizingAlgorithms<T>>(
    algorithms: &A,
    t: &T,
    mid: &T,
    u: &T,
    root: Node,
    available_space: Size<AvailableSpace>,
    size: Size<i64>,
) -> bool {
    &&& sized_as(
        algorithms,
        t,
        mid,
        root,
        Size { width: None, height: None },
        available_space,
        RunMode::PerformLayout,
        SizingMode::InherentSize,
        size,
    )
    &&& crate::tree::same_shape(t, mid)
    &&& crate::tree::same_shape(mid, u)
    &&& same_caches(mid, u)
    &&& u.layout_of(root) == crate::layout::rounded(
        Layout { order: 0, size, location: Point { x: 0, y: 0 } },
    )
    &&& forall|m: Node|
        m != root ==> #[trigger] u.layout_of(m) == if crate::tree::in_subtree(t, root, m) {
            crate::layout::rounded(mid.layout_of(m))
        } else {
            mid.layout_of(m)
        }
    &&& forall|m: Node|
        crate::tree::in_subtree(t, root, m) ==> crate::layout::is_whole(#[trigger] u.layout_of(m))
}

/// What `compute_layout` on `root` with `available_space` made of tree `t` in tree `u`.
pub open spec fn laid_out<T: LayoutTree, A: SizingAlgorithms<T>>(
    algorithms: &A,
    t: &T,
    u: &T,
    root: Node,
    available_space: Size<AvailableSpace>,
) -> bool {
    exists|mid: T, size: Size<i64>| #[trigger]
        laid_out_via(algorithms, t, &mid, u, root, available_space, size)
}

/// In `u`, every strict descendant of `node` in `t` has as its order its index
/// among its siblings.
pub open spec fn hidden_orders<T: LayoutTree>(t: &T, u: &T, node: Node) -> bool {
    forall|p: Node, k: int|
        t.contains(p) && 0 <= k < t.children_of(p).len() && crate::tree::is_descendant(
            t,
            node,
            #[trigger] t.children_of(p)[k],
        ) ==> u.layout_of(t.children_of(p)[k]).order == k as u32
}

/// `hidden_orders` for the strict descendants that lie in the subtrees of the
/// first `i` children of `node`.
pub open spec fn hidden_orders_first<T: LayoutTree>(t: &T, u: &T, node: Node, i: int) -> bool {
    forall|p: Node, k: int|
        t.contains(p) && 0 <= k < t.children_of(p).len() && crate::tree::in_first_children(
            t,
            node,
            i,
            #[trigger] t.children_of(p)[k],
        ) ==> u.layout_of(t.children_of(p)[k]).order == k as u32
}

/// After the hidden layout of the child at `i`, the orders it fixed join those
/// fixed before.
proof fn lemma_hidden_orders_step<T: LayoutTree>(
    orig: &T,
    before: &T,
    after: &T,
    node: Node,
    i: int,
)
    requires
        crate::tree::is_tree(orig),
        crate::tree::single_parent(orig),
        orig.contains(node),
        0 <= i < orig.children_of(node).len(),
        crate::tree::same_shape(orig, before),
        hidden_orders_first(orig, before, node, i),
        after.layout_of(orig.children_of(node)[i]).order == i as u32,
        crate::tree::single_parent(before) ==> hidden_orders(
            before,
            after,
            orig.children_of(node)[i],
        ),
        forall|m: Node|
            !crate::tree::in_subtree(before, orig.children_of(node)[i], m)
                ==> #[trigger] after.layout_of(m) == before.layout_of(m),
    ensures
        hidden_orders_first(orig, after, node, i + 1),
{
    let c = orig.children_of(node)[i];
    crate::tree::lemma_same_shape_single_parent(orig, before);
    assert forall|p: Node, k: int|
        orig.contains(p) && 0 <= k < orig.children_of(p).len() && crate::tree::in_first_children(
            orig,
            node,
            i + 1,
            #[trigger] orig.children_of(p)[k],
        ) implies after.layout_of(orig.children_of(p)[k]).order == k as u32 by {
        let m = orig.children_of(p)[k];
        crate::tree::lemma_same_shape_subtree(before, orig, c, m);
        crate::tree::lemma_same_shape_below(before, orig, c, 0, m);
        assert(before.children_of(p) == orig.children_of(p));
        assert(before.contains(p) == orig.contains(p));
        if crate::tree::in_subtree(orig, c, m) {
            if m == c {
                assert(orig.children_of(node)[i] == orig.children_of(p)[k]);
            } else {
                assert(crate::tree::is_descendant(before, c, before.children_of(p)[k]));
            }
        }
    }
}

/// Gives `node` the layout of a hidden node with the given order, and every node
/// below it zero size at its parent's origin.
fn perform_hidden_layout_inner<T: LayoutTree>(tree: &mut T, node: Node, order: u32)
    requires
        crate::tree::is_tree(old(tree)),
        old(tree).contains(node),
    ensures
        crate::tree::same_shape(old(tree), final(tree)),
        same_caches(old(tree), final(tree)),
        crate::layout::is_collapsed(final(tree).layout_of(node)),
        final(tree).layout_of(node).order == order,
        forall|m: Node|
            crate::tree::in_subtree(old(tree), node, m) ==> crate::layout::is_collapsed(
                #[trigger] final(tree).layout_of(m),
            ),
        forall|m: Node|
            !crate::tree::in_subtree(old(tree), node, m) ==> #[trigger] final(tree).layout_of(m)
                == old(tree).layout_of(m),
        crate::tree::single_parent(old(tree)) ==> hidden_orders(old(tree), final(tree), node),
    decreases old(tree).rank(node),
{
    let ghost orig = *tree;
    tree.set_layout(node, Layout::with_order(order));
    let count = tree.child_count(node);
    let mut i: usize = 0;
    while i < count
        invariant
            i <= count,
            count == orig.children_of(node).len(),
            orig == *old(tree),
            crate::tree::is_tree(&orig),
            orig.contains(node),
            crate::tree::same_shape(&orig, tree),
            same_caches(&orig, tree),
            tree.layout_of(node).order == order,
            crate::tree::single_parent(&orig) ==> hidden_orders_first(&orig, tree, node, i as int),
            forall|m: Node|
                (m == node || crate::tree::in_first_children(&orig, node, i as int, m))
                    ==> crate::layout::is_collapsed(#[trigger] tree.layout_of(m)),
            forall|m: Node|
                !(m == node || crate::tree::in_first_children(&orig, node, i as int, m))
                    ==> #[trigger] tree.layout_of(m) == orig.layout_of(m),
        decreases count - i,
    {
        let child = tree.child(node, i);
        proof {
            assert(orig.children_of(node)[i as int] == child);
            assert(orig.contains(child) && orig.rank(child) < orig.rank(node));
            assert(tree.rank(child) < orig.rank(node));
            crate::tree::lemma_same_shape_tree(&orig, tree);
        }
        let ghost before = *tree;
        perform_hidden_layout_inner(tree, child, #[verifier::truncate] (i as u32));
        proof {
            assert forall|m: Node| #[trigger]
                crate::tree::in_subtree(&before, child, m) == crate::tree::in_subtree(
                    &orig,
                    child,
                    m,
                ) by {
                crate::tree::lemma_same_shape_subtree(&before, &orig, child, m);
            }
            if crate::tree::in_subtree(&orig, child, node) {
                crate::tree::lemma_subtree_rank(&orig, child, node);
            }
            if crate::tree::single_parent(&orig) {
                lemma_hidden_orders_step(&orig, &before, tree, node, i as int);
            }
        }
        i = i + 1;
    }
    proof {
        assert forall|m: Node|
            crate::tree::in_subtree(&orig, node, m) == (m == node
                || crate::tree::in_first_children(
                &orig,
                node,
                count as int,
                m,
            )) by {
            crate::tree::lemma_descendant_children(&orig, node, m);
        }
        assert forall|m: Node|
            crate::tree::is_descendant(&orig, node, m) == crate::tree::in_first_children(
                &orig,
                node,
                count as int,
                m,
            ) by {
            crate::tree::lemma_descendant_children(&orig, node, m);
        }
    }
}

/// Lays out the hidden `node`: its own size is zero, and every node below it,
/// whatever its style, gets zero size at its parent's origin. Memo slots are
/// neither read nor written.
pub fn perform_hidden_layout<T: LayoutTree>(tree: &mut T, node: Node) -> (r: Size<i64>)
    requires
        crate::tree::is_tree(old(tree)),
        old(tree).contains(node),
    ensures
        r.width == 0 && r.height == 0,
        crate::tree::same_shape(old(tree), final(tree)),
        same_caches(old(tree), final(tree)),
        forall|m: Node|
            crate::tree::is_descendant(old(tree), node, m) ==> crate::layout::is_collapsed(
                #[trigger] final(tree).layout_of(m),
            ),
        forall|m: Node|
            !crate::tree::is_descendant(old(tree), node, m) ==> #[trigger] final(tree).layout_of(m)
                == old(tree).layout_of(m),
        crate::tree::single_parent(old(tree)) ==> hidden_orders(old(tree), final(tree), node),
{
    let ghost orig = *tree;
    let count = tree.child_count(node);
    let mut i: usize = 0;
    while i < count
        invariant
            i <= count,
            count == orig.children_of(node).len(),
            orig == *old(tree),
            crate::tree::is_tree(&orig),
            orig.contains(node),
            crate::tree::same_shape(&orig, tree),
            same_caches(&orig, tree),
            crate::tree::single_parent(&orig) ==> hidden_orders_first(&orig, tree, node, i as int),
            forall|m: Node|
                crate::tree::in_first_children(&orig, node, i as int, m)
                    ==> crate::layout::is_collapsed(#[trigger] tree.layout_of(m)),
            forall|m: Node|
                !crate::tree::in_first_children(&orig, node, i as int, m)
                    ==> #[trigger] tree.layout_of(m) == orig.layout_of(m),
        decreases count - i,
    {
        let child = tree.child(node, i);
        proof {
            assert(orig.children_of(node)[i as int] == child);
            assert(orig.contains(child) && orig.rank(child) < orig.rank(node));
            assert(tree.rank(child) < orig.rank(node));
            crate::tree::lemma_same_shape_tree(&orig, tree);
        }
        let ghost before = *tree;
        perform_hidden_layout_inner(tree, child, #[verifier::truncate] (i as u32));
        proof {
            assert forall|m: Node| #[trigger]
                crate::tree::in_subtree(&before, child, m) == crate::tree::in_subtree(
                    &orig,
                    child,
                    m,
                ) by {
                crate::tree::lemma_same_shape_subtree(&before, &orig, child, m);
            }
            if crate::tree::single_parent(&orig) {
                lemma_hidden_orders_step(&orig, &before, tree, node, i as int);
            }
        }
        i = i + 1;
    }
    proof {
        assert forall|m: Node|
            crate::tree::is_descendant(&orig, node, m) == crate::tree::in_first_children(
                &orig,
                node,
                count as int,
                m,
            ) by {
            crate::tree::lemma_descendant_children(&orig, node, m);
        }
    }
    Size { width: 0, height: 0 }
}

/// Stores the size computed for a query on `node` in the memo slot chosen by which
/// dimensions the query knew (bit 0 for width, bit 1 for height), replacing what
/// that slot held.
pub fn cache_result<T: LayoutTree>(
    tree: &mut T,
    node: Node,
    known_dimensions: Size<Option<i64>>,
    available_space: Size<AvailableSpace>,
    run_mode: RunMode,
    computed_size: Size<i64>,
)
    requires
        old(tree).contains(node),
    ensures
        crate::tree::same_shape(old(tree), final(tree)),
        final(tree).cache_of(node, crate::cache::slot_index(known_dimensions)) == Some(
            Cache { known_dimensions, available_space, run_mode, cached_size: computed_size },
        ),
        forall|n: Node, s: int|
            !(n == node && s == crate::cache::slot_index(known_dimensions))
                ==> #[trigger] final(tree).cache_of(n, s) == old(tree).cache_of(n, s),
        forall|n: Node| #[trigger] final(tree).layout_of(n) == old(tree).layout_of(n),
{
    let slot: usize = (if known_dimensions.width.is_some() {
        1usize
    } else {
        0usize
    }) + (if known_dimensions.height.is_some() {
        2usize
    } else {
        0usize
    });
    tree.set_cache(
        node,
        slot,
        Some(Cache { known_dimensions, available_space, run_mode, cached_size: computed_size }),
    );
}

/// Sizes `node` for a query and returns its outer size. The query is first
/// looked up in the node's memo slots; on a hit the stored size is returned and
/// nothing changes. On a miss the node's algorithm runs (leaf measurement for a
/// childless node, else flex, grid, or the hidden-subtree collapse, by display
/// mode) and its result is stored in the slot chosen by which dimensions are known.
pub fn compute_node_layout<T: LayoutTree, A: SizingAlgorithms<T>>(
    algorithms: &A,
    tree: &mut T,
    node: Node,
    known_dimensions: Size<Option<i64>>,
    available_space: Size<AvailableSpace>,
    run_mode: RunMode,
    sizing_mode: SizingMode,
) -> (r: Size<i64>)
    requires
        crate::tree::is_tree(old(tree)),
        old(tree).contains(node),
    ensures
        crate::tree::same_shape(old(tree), final(tree)),
        sized_as(
            algorithms,
            old(tree),
            final(tree),
            node,
            known_dimensions,
            available_space,
            run_mode,
            sizing_mode,
            r,
        ),
{
    let childless = tree.is_childless(node);
    let memo_mode = if childless {
        RunMode::PerformLayout
    } else {
        run_mode
    };
    if let Some(cached_size) = compute_from_cache(
        tree,
        node,
        known_dimensions,
        available_space,
        memo_mode,
        sizing_mode,
    ) {
        return cached_size;
    }
    let ghost orig = *tree;
    let computed_size = if childless {
        algorithms.compute_leaf(tree, node, known_dimensions, available_space, run_mode, sizing_mode)
    } else {
        match tree.display(node) {
            Display::Flex => algorithms.compute_flexbox(
                tree,
                node,
                known_dimensions,
                available_space,
                run_mode,
            ),
            Display::Grid => algorithms.compute_grid(
                tree,
                node,
                known_dimensions,
                available_space,
                run_mode,
            ),
            Display::Hidden => perform_hidden_layout(tree, node),
        }
    };
    let ghost sized = *tree;
    cache_result(tree, node, known_dimensions, available_space, memo_mode, computed_size);
    proof {
        if crate::tree::is_descendant(&orig, node, node) {
            crate::tree::lemma_below_rank(&orig, node, 0, node);
        }
        assert(sized.layout_of(node) == orig.layout_of(node));
    }
    computed_size
}

/// Lays out the tree below `root` for the given space: sizes the root with no
/// known dimensions, inherent sizing and full layout, stores its layout (order 0,
/// at the origin), then rounds the whole subtree to pixels. Fails, changing
/// nothing, when `root` is not a node of the tree.
pub fn compute_layout<T: LayoutTree, A: SizingAlgorithms<T>>(
    algorithms: &A,
    tree: &mut T,
    root: Node,
    available_space: Size<AvailableSpace>,
) -> (r: Result<(), TaffyError>)
    requires
        crate::tree::is_tree(old(tree)),
    ensures
        crate::tree::same_shape(old(tree), final(tree)),
        crate::tree::is_tree(final(tree)),
        !old(tree).contains(root) ==> r == Err::<(), TaffyError>(TaffyError::InvalidInputNode(root))
            && *final(tree) == *old(tree),
        old(tree).contains(root) ==> r is Ok,
        r is Ok ==> laid_out(algorithms, old(tree), final(tree), root, available_space),
{
    if !tree.is_valid(root) {
        return Err(TaffyError::InvalidInputNode(root));
    }
    let ghost orig = *tree;
    let size = compute_node_layout(
        algorithms,
        tree,
        root,
        Size { width: None, height: None },
        available_space,
        RunMode::PerformLayout,
        SizingMode::InherentSize,
    );
    let ghost sized = *tree;
    tree.set_layout(root, Layout { order: 0, size, location: Point { x: 0, y: 0 } });
    let ghost placed = *tree;
    proof {
        crate::tree::lemma_same_shape_trans(&orig, &sized, tree);
        crate::tree::lemma_same_shape_tree(&orig, tree);
    }
    round_layout(tree, root);
    proof {
        crate::tree::lemma_same_shape_trans(&orig, &placed, tree);
        crate::tree::lemma_same_shape_trans(&sized, &placed, tree);
        assert forall|m: Node| #[trigger]
            crate::tree::in_subtree(&placed, root, m) == crate::tree::in_subtree(&orig, root, m) by {
            crate::tree::lemma_same_shape_subtree(&placed, &orig, root, m);
        }
        assert forall|m: Node|
            crate::tree::in_subtree(&orig, root, m) implies crate::layout::is_whole(
                #[trigger] tree.layout_of(m),
            ) by {
            crate::layout::lemma_rounded(placed.layout_of(m));
        }
        assert forall|m: Node|
            m != root implies #[trigger] tree.layout_of(m) == if crate::tree::in_subtree(
                &orig,
                root,
                m,
            ) {
                crate::layout::rounded(sized.layout_of(m))
            } else {
                sized.layout_of(m)
            } by {
            assert(placed.layout_of(m) == sized.layout_of(m));
        }
        assert(tree.layout_of(root) == crate::layout::rounded(placed.layout_of(root)));
        assert(same_caches(&sized, tree));
        assert(laid_out_via(algorithms, &orig, &sized, tree, root, available_space, size));
        crate::tree::lemma_same_shape_tree(&orig, tree);
    }
    Ok(())
}

/// Rounds the layout of `node` and of every node below it to whole pixels: each
/// node's size and its offset from its parent are rounded on their own, half
/// away from zero, with no correction for how its ancestors were rounded.
pub fn round_layout<T: LayoutTree>(tree: &mut T, node: Node)
    requires
        crate::tree::is_tree(old(tree)),
        old(tree).contains(node),
    ensures
        crate::tree::same_shape(old(tree), final(tree)),
        same_caches(old(tree), final(tree)),
        forall|m: Node| #[trigger]
            final(tree).layout_of(m) == if crate::tree::in_subtree(old(tree), node, m) {
                crate::layout::rounded(old(tree).layout_of(m))
            } else {
                old(tree).layout_of(m)
            },
    decreases old(tree).rank(node),
{
    let ghost orig = *tree;
    let layout = tree.layout(node);
    let snapped = Layout {
        order: layout.order,
        size: Size { width: round(layout.size.width), height: round(layout.size.height) },
        location: Point { x: round(layout.location.x), y: round(layout.location.y) },
    };
    tree.set_layout(node, snapped);
    let count = tree.child_count(node);
    let mut i: usize = 0;
    while i < count
        invariant
            i <= count,
            count == orig.children_of(node).len(),
            orig == *old(tree),
            crate::tree::is_tree(&orig),
            orig.contains(node),
            crate::tree::same_shape(&orig, tree),
            same_caches(&orig, tree),
            forall|m: Node| #[trigger]
                tree.layout_of(m) == if m == node || crate::tree::in_first_children(
                    &orig,
                    node,
                    i as int,
                    m,
                ) {
                    crate::layout::rounded(orig.layout_of(m))
                } else {
                    orig.layout_of(m)
                },
        decreases count - i,
    {
        let child = tree.child(node, i);
        proof {
            assert(orig.children_of(node)[i as int] == child);
            assert(orig.contains(child) && orig.rank(child) < orig.rank(node));
            assert(tree.rank(child) < orig.rank(node));
            crate::tree::lemma_same_shape_tree(&orig, tree);
        }
        let ghost before = *tree;
        round_layout(tree, child);
        proof {
            assert forall|m: Node| #[trigger]
                tree.layout_of(m) == if m == node || crate::tree::in_first_children(
                    &orig,
                    node,
                    i + 1,
                    m,
                ) {
                    crate::layout::rounded(orig.layout_of(m))
                } else {
                    orig.layout_of(m)
                } by {
                crate::tree::lemma_same_shape_subtree(&before, &orig, child, m);
                crate::layout::lemma_rounded(orig.layout_of(m));
            }
        }
        i = i + 1;
    }
    proof {
        assert forall|m: Node|
            crate::tree::in_subtree(&orig, node, m) == (m == node
                || crate::tree::in_first_children(
                &orig,
                node,
                count as int,
                m,
            )) by {
            crate::tree::lemma_descendant_children(&orig, node, m);
        }
    }
}

/// Once a node has been sized for a query, asking the same again, in any run mode
/// that is memoized alike, is answered from its memo slots with the same size.
pub proof fn lemma_repeat_query<T: LayoutTree, A: SizingAlgorithms<T>>(
    algorithms: &A,
    t: &T,
    u: &T,
    node: Node,
    known_dimensions: Size<Option<i64>>,
    available_space: Size<AvailableSpace>,
    run_mode: RunMode,
    sizing_mode: SizingMode,
    r: Size<i64>,
    next_run_mode: RunMode,
)
    requires
        crate::tree::same_shape(t, u),
        sized_as(algorithms, t, u, node, known_dimensions, available_space, run_mode, sizing_mode, r),
        cache_run_mode(t.children_of(node).len() == 0, next_run_mode) == cache_run_mode(
            t.children_of(node).len() == 0,
            run_mode,
        ),
    ensures
        crate::cache::lookup(
            crate::cache::slots_of(u, node),
            known_dimensions,
            available_space,
            cache_run_mode(u.children_of(node).len() == 0, next_run_mode),
            sizing_mode,
        ) == Some(r),
{
    let memo = cache_run_mode(t.children_of(node).len() == 0, run_mode);
    let slots = crate::cache::slots_of(t, node);
    assert(u.children_of(node) == t.children_of(node));
    if crate::cache::lookup(slots, known_dimensions, available_space, memo, sizing_mode) is None {
        crate::cache::lemma_lookup_none(slots, 0, known_dimensions, available_space, memo, sizing_mode);
        let k = crate::cache::slot_index(known_dimensions);
        let after = crate::cache::slots_of(u, node);
        assert forall|j: int| 0 <= j < k && #[trigger] after[j] is Some implies !crate::cache::entry_usable(
            after[j]->Some_0,
            known_dimensions,
            available_space,
            memo,
            sizing_mode,
        ) by {
            assert(after[j] == slots[j]);
        }
        crate::cache::lemma_lookup_first(after, 0, k, known_dimensions, available_space, memo, sizing_mode);
    }
}

/// Once a childless node has been sized for a query, asking it again with both
/// dimensions known and equal to the size it produced is answered from its memo
/// slots, so measurement does not run again, whatever the space, run mode and
/// sizing mode of the second query. If its slots were empty before, the answer
/// is that size.
pub proof fn lemma_cache_reuse<T: LayoutTree, A: SizingAlgorithms<T>>(
    algorithms: &A,
    t: &T,
    u: &T,
    node: Node,
    known_dimensions: Size<Option<i64>>,
    available_space: Size<AvailableSpace>,
    run_mode: RunMode,
    sizing_mode: SizingMode,
    r: Size<i64>,
    next_space: Size<AvailableSpace>,
    next_run_mode: RunMode,
    next_sizing_mode: SizingMode,
)
    requires
        t.children_of(node).len() == 0,
        crate::tree::same_shape(t, u),
        sized_as(algorithms, t, u, node, known_dimensions, available_space, run_mode, sizing_mode, r),
    ensures
        crate::cache::lookup(
            crate::cache::slots_of(u, node),
            Size { width: Some(r.width), height: Some(r.height) },
            next_space,
            cache_run_mode(u.children_of(node).len() == 0, next_run_mode),
            next_sizing_mode,
        ) is Some,
        (forall|s: int| 0 <= s < 4 ==> #[trigger] t.cache_of(node, s) is None) ==> crate::cache::lookup(
            crate::cache::slots_of(u, node),
            Size { width: Some(r.width), height: Some(r.height) },
            next_space,
            cache_run_mode(u.children_of(node).len() == 0, next_run_mode),
            next_sizing_mode,
        ) == Some(r),
{
    let slots = crate::cache::slots_of(t, node);
    let again = Size { width: Some(r.width), height: Some(r.height) };
    let memo = cache_run_mode(true, run_mode);
    assert(u.children_of(node) == t.children_of(node));
    if crate::cache::lookup(slots, known_dimensions, available_space, memo, sizing_mode) is Some {
        let j = crate::cache::lemma_lookup_found(
            slots,
            0,
            known_dimensions,
            available_space,
            memo,
            sizing_mode,
        );
        crate::cache::lemma_lookup_finds(
            slots,
            0,
            j,
            again,
            next_space,
            RunMode::PerformLayout,
            next_sizing_mode,
        );
    } else {
        let k = crate::cache::slot_index(known_dimensions);
        let after = crate::cache::slots_of(u, node);
        crate::cache::lemma_lookup_finds(
            after,
            0,
            k,
            again,
            next_space,
            RunMode::PerformLayout,
            next_sizing_mode,
        );
        if forall|s: int| 0 <= s < 4 ==> #[trigger] t.cache_of(node, s) is None {
            assert forall|j: int| 0 <= j < k && #[trigger] after[j] is Some implies !crate::cache::entry_usable(
                after[j]->Some_0,
                again,
                next_space,
                RunMode::PerformLayout,
                next_sizing_mode,
            ) by {
                assert(after[j] == t.cache_of(node, j));
            }
            crate::cache::lemma_lookup_first(
                after,
                0,
                k,
                again,
                next_space,
                RunMode::PerformLayout,
                next_sizing_mode,
            );
        }
    }
}

/// A content-sized query that was computed with no known dimensions is answered,
/// with the size it produced, for any later content-sized query of the same run
/// mode with no known dimensions that offers at least that much definite width
/// and the same space in height: a box sized to its content does not grow with
/// the room it is given.
pub proof fn lemma_content_size_reuse<T: LayoutTree, A: SizingAlgorithms<T>>(
    algorithms: &A,
    t: &T,
    u: &T,
    node: Node,
    available_space: Size<AvailableSpace>,
    run_mode: RunMode,
    r: Size<i64>,
    wider: i64,
)
    requires
        crate::tree::same_shape(t, u),
        crate::cache::lookup(
            crate::cache::slots_of(t, node),
            Size { width: None, height: None },
            available_space,
            cache_run_mode(t.children_of(node).len() == 0, run_mode),
            SizingMode::ContentSize,
        ) is None,
        sized_as(
            algorithms,
            t,
            u,
            node,
            Size { width: None, height: None },
            available_space,
            run_mode,
            SizingMode::ContentSize,
            r,
        ),
        wider >= r.width,
    ensures
        crate::cache::lookup(
            crate::cache::slots_of(u, node),
            Size { width: None, height: None },
            Size { width: AvailableSpace::Definite(wider), height: available_space.height },
            cache_run_mode(u.children_of(node).len() == 0, run_mode),
            SizingMode::ContentSize,
        ) == Some(r),
{
    assert(u.children_of(node) == t.children_of(node));
    assert(crate::cache::slot_index(Size { width: None::<i64>, height: None::<i64> }) == 0);
}

/// Laying out a tree a second time, with the same space and nothing changed in
/// between, leaves every node's layout as the first time left it.
pub proof fn lemma_compute_layout_idempotent<T: LayoutTree, A: SizingAlgorithms<T>>(
    algorithms: &A,
    t0: &T,
    t1: &T,
    t2: &T,
    root: Node,
    available_space: Size<AvailableSpace>,
)
    requires
        laid_out(algorithms, t0, t1, root, available_space),
        laid_out(algorithms, t1, t2, root, available_space),
    ensures
        forall|m: Node| #[trigger] t2.layout_of(m) == t1.layout_of(m),
{
    let (mid1, s1) = choose|mid: T, s: Size<i64>| #[trigger]
        laid_out_via(algorithms, t0, &mid, t1, root, available_space, s);
    let (mid2, s2) = choose|mid: T, s: Size<i64>| #[trigger]
        laid_out_via(algorithms, t1, &mid, t2, root, available_space, s);
    let none = Size { width: None, height: None };
    let q0 = crate::cache::lookup(
        crate::cache::slots_of(t0, root),
        none,
        available_space,
        RunMode::PerformLayout,
        SizingMode::InherentSize,
    );
    let q1 = crate::cache::lookup(
        crate::cache::slots_of(t1, root),
        none,
        available_space,
        RunMode::PerformLayout,
        SizingMode::InherentSize,
    );
    crate::tree::lemma_same_shape_trans(t0, &mid1, t1);
    assert(t1.children_of(root) == t0.children_of(root));
    assert(crate::cache::slots_of(t1, root) == crate::cache::slots_of(&mid1, root));
    if q0 is None {
        assert(crate::cache::slot_index(none) == 0);
    }
    assert(q1 == Some(s1));
    assert forall|m: Node| #[trigger] t2.layout_of(m) == t1.layout_of(m) by {
        crate::tree::lemma_same_shape_subtree(t0, t1, root, m);
        if m != root && crate::tree::in_subtree(t1, root, m) {
            crate::layout::lemma_whole_is_rounded(t1.layout_of(m));
        }
    }
}

} // verus!
