//! The tree-access contract that the orchestration works through, and the
//! shape facts it relies on.

use vstd::prelude::*;
use crate::geometry::Size;
use crate::layout::{Cache, Layout, RunMode, SizingMode};
use crate::style::{AvailableSpace, Display};

verus! {

/// A handle to a node of a tree.
#[derive(Clone, Copy, Debug, PartialEq, Eq, Structural)]
pub struct Node(pub usize);

/// Access to a tree of styled nodes: its shape, each node's layout slot and its
/// four memo slots.
pub trait LayoutTree {
    /// Whether `node` is a handle of this tree.
    spec fn contains(&self, node: Node) -> bool;

    /// The children of `node`, in order.
    spec fn children_of(&self, node: Node) -> Seq<Node>;

    /// The display mode of `node`.
    spec fn display_of(&self, node: Node) -> Display;

    /// A measure of how far `node` lies from the leaves; every child has a lower
    /// rank than its parent in a well-formed tree (see `is_tree`).
    spec fn rank(&self, node: Node) -> nat;

    /// The layout stored for `node`.
    spec fn layout_of(&self, node: Node) -> Layout;

    /// Memo slot `slot` (0 to 3) of `node`.
    spec fn cache_of(&self, node: Node, slot: int) -> Option<Cache>;

    /// Whether `node` is a handle of this tree.
    fn is_valid(&self, node: Node) -> (r: bool)
        ensures
            r == self.contains(node),
    ;

    /// The number of children of `node`.
    fn child_count(&self, node: Node) -> (r: usize)
        requires
            self.contains(node),
        ensures
            r == self.children_of(node).len(),
    ;

    /// Child `index` of `node`.
    fn child(&self, node: Node, index: usize) -> (r: Node)
        requires
            self.contains(node),
            index < self.children_of(node).len(),
        ensures
            r == self.children_of(node)[index as int],
    ;

    /// Whether `node` has no children.
    fn is_childless(&self, node: Node) -> (r: bool)
        requires
            self.contains(node),
        ensures
            r == (self.children_of(node).len() == 0),
    ;

    /// The display mode of `node`.
    fn display(&self, node: Node) -> (r: Display)
        requires
            self.contains(node),
        ensures
            r == self.display_of(node),
    ;

    /// The layout stored for `node`.
    fn layout(&self, node: Node) -> (r: Layout)
        requires
            self.contains(node),
        ensures
            r == self.layout_of(node),
    ;

    /// Stores `layout` as the layout of `node`.
    fn set_layout(&mut self, node: Node, layout: Layout)
        requires
            old(self).contains(node),
        ensures
            forall|n: Node| #[trigger] final(self).contains(n) == old(self).contains(n),
            forall|n: Node| #[trigger] final(self).children_of(n) == old(self).children_of(n),
            forall|n: Node| #[trigger] final(self).display_of(n) == old(self).display_of(n),
            forall|n: Node| #[trigger] final(self).rank(n) == old(self).rank(n),
            forall|n: Node, s: int| #[trigger] final(self).cache_of(n, s) == old(self).cache_of(n, s),
            final(self).layout_of(node) == layout,
            forall|n: Node| n != node ==> #[trigger] final(self).layout_of(n) == old(self).layout_of(n),
    ;

    /// Memo slot `slot` of `node`.
    fn cache(&self, node: Node, slot: usize) -> (r: Option<Cache>)
        requires
            self.contains(node),
            slot < 4,
        ensures
            r == self.cache_of(node, slot as int),
    ;

    /// Stores `entry` in memo slot `slot` of `node`.
    fn set_cache(&mut self, node: Node, slot: usize, entry: Option<Cache>)
        requires
            old(self).contains(node),
            slot < 4,
        ensures
            forall|n: Node| #[trigger] final(self).contains(n) == old(self).contains(n),
            forall|n: Node| #[trigger] final(self).children_of(n) == old(self).children_of(n),
            forall|n: Node| #[trigger] final(self).display_of(n) == old(self).display_of(n),
            forall|n: Node| #[trigger] final(self).rank(n) == old(self).rank(n),
            forall|n: Node| #[trigger] final(self).layout_of(n) == old(self).layout_of(n),
            final(self).cache_of(node, slot as int) == entry,
            forall|n: Node, s: int|
                !(n == node && s == slot) ==> #[trigger] final(self).cache_of(n, s) == old(
                    self,
                ).cache_of(n, s),
    ;
}

/// The sizing algorithms that lay out one node: leaf measurement, flex and grid.
///
/// Each is deterministic: what it returns is a function of the tree's state and
/// the query, named by `leaf_size`, `flex_size` and `grid_size`. Under
/// `RunMode::PerformLayout` it places the node's children, calling back into
/// `compute::compute_node_layout` for each, in index order, and storing each
/// child's layout. It writes only the layouts and memo slots of nodes below the
/// node it sizes, and never changes the tree's shape.
pub trait SizingAlgorithms<T: LayoutTree> {
    /// What leaf measurement returns for the childless `node` of tree `t`.
    spec fn leaf_size(
        &self,
        t: &T,
        node: Node,
        known_dimensions: Size<Option<i64>>,
        available_space: Size<AvailableSpace>,
        run_mode: RunMode,
        sizing_mode: SizingMode,
    ) -> Size<i64>;

    /// What the flex algorithm returns for `node` of tree `t`.
    spec fn flex_size(
        &self,
        t: &T,
        node: Node,
        known_dimensions: Size<Option<i64>>,
        available_space: Size<AvailableSpace>,
        run_mode: RunMode,
    ) -> Size<i64>;

    /// What the grid algorithm returns for `node` of tree `t`.
    spec fn grid_size(
        &self,
        t: &T,
        node: Node,
        known_dimensions: Size<Option<i64>>,
        available_space: Size<AvailableSpace>,
        run_mode: RunMode,
    ) -> Size<i64>;

    /// Measures the childless `node`.
    fn compute_leaf(
        &self,
        tree: &mut T,
        node: Node,
        known_dimensions: Size<Option<i64>>,
        available_space: Size<AvailableSpace>,
        run_mode: RunMode,
        sizing_mode: SizingMode,
    ) -> (r: Size<i64>)
        requires
            is_tree(old(tree)),
            old(tree).contains(node),
        ensures
            same_shape(old(tree), final(tree)),
            writes_below(old(tree), final(tree), node),
            r == self.leaf_size(
                old(tree),
                node,
                known_dimensions,
                available_space,
                run_mode,
                sizing_mode,
            ),
    ;

    /// Runs the flex algorithm on `node`.
    fn compute_flexbox(
        &self,
        tree: &mut T,
        node: Node,
        known_dimensions: Size<Option<i64>>,
        available_space: Size<AvailableSpace>,
        run_mode: RunMode,
    ) -> (r: Size<i64>)
        requires
            is_tree(old(tree)),
            old(tree).contains(node),
        ensures
            same_shape(old(tree), final(tree)),
            writes_below(old(tree), final(tree), node),
            r == self.flex_size(old(tree), node, known_dimensions, available_space, run_mode),
    ;

    /// Runs the grid algorithm on `node`.
    fn compute_grid(
        &self,
        tree: &mut T,
        node: Node,
        known_dimensions: Size<Option<i64>>,
        available_space: Size<AvailableSpace>,
        run_mode: RunMode,
    ) -> (r: Size<i64>)
        requires
            is_tree(old(tree)),
            old(tree).contains(node),
        ensures
            same_shape(old(tree), final(tree)),
            writes_below(old(tree), final(tree), node),
            r == self.grid_size(old(tree), node, known_dimensions, available_space, run_mode),
    ;
}

/// From `t` to `u` only the layouts and memo slots of strict descendants of
/// `node` may have changed.
pub open spec fn writes_below<T: LayoutTree>(t: &T, u: &T, node: Node) -> bool {
    &&& forall|m: Node| !is_descendant(t, node, m) ==> #[trigger] u.layout_of(m) == t.layout_of(m)
    &&& forall|m: Node, s: int|
        !is_descendant(t, node, m) ==> #[trigger] u.cache_of(m, s) == t.cache_of(m, s)
}

/// No node is the child of two parents, nor twice the child of one.
pub open spec fn single_parent<T: LayoutTree>(t: &T) -> bool {
    forall|p: Node, i: int, q: Node, j: int|
        t.contains(p) && t.contains(q) && 0 <= i < t.children_of(p).len() && 0 <= j
            < t.children_of(q).len() && #[trigger] t.children_of(p)[i] == #[trigger] t.children_of(
            q,
        )[j] ==> p == q && i == j
}

/// Two states of a tree with the same nodes, children, display modes and ranks.
pub open spec fn same_shape<T: LayoutTree>(a: &T, b: &T) -> bool {
    &&& forall|n: Node| #[trigger] a.contains(n) == b.contains(n)
    &&& forall|n: Node| #[trigger] a.children_of(n) == b.children_of(n)
    &&& forall|n: Node| #[trigger] a.display_of(n) == b.display_of(n)
    &&& forall|n: Node| #[trigger] a.rank(n) == b.rank(n)
}

/// Every child of a node of `t` is a node of `t` with a lower rank: the nodes
/// form a finite forest with no cycles.
pub open spec fn is_tree<T: LayoutTree>(t: &T) -> bool {
    forall|n: Node, i: int|
        t.contains(n) && 0 <= i < t.children_of(n).len() ==> {
            let c = #[trigger] t.children_of(n)[i];
            t.contains(c) && t.rank(c) < t.rank(n)
        }
}

/// Keeping the shape is transitive.
pub proof fn lemma_same_shape_trans<T: LayoutTree>(a: &T, b: &T, c: &T)
    requires
        same_shape(a, b),
        same_shape(b, c),
    ensures
        same_shape(a, c),
{
    assert forall|n: Node| #[trigger] a.contains(n) == c.contains(n) by {
        assert(b.contains(n) == c.contains(n));
    }
    assert forall|n: Node| #[trigger] a.children_of(n) == c.children_of(n) by {
        assert(b.children_of(n) == c.children_of(n));
    }
    assert forall|n: Node| #[trigger] a.display_of(n) == c.display_of(n) by {
        assert(b.display_of(n) == c.display_of(n));
    }
    assert forall|n: Node| #[trigger] a.rank(n) == c.rank(n) by {
        assert(b.rank(n) == c.rank(n));
    }
}

/// Whether nodes have single parents depends on the shape of a tree alone.
pub proof fn lemma_same_shape_single_parent<T: LayoutTree>(a: &T, b: &T)
    requires
        same_shape(a, b),
        single_parent(a),
    ensures
        single_parent(b),
{
    assert forall|p: Node, i: int, q: Node, j: int|
        b.contains(p) && b.contains(q) && 0 <= i < b.children_of(p).len() && 0 <= j
            < b.children_of(q).len() && #[trigger] b.children_of(p)[i] == #[trigger] b.children_of(
            q,
        )[j] implies p == q && i == j by {
        assert(a.children_of(p) == b.children_of(p));
        assert(a.children_of(q) == b.children_of(q));
        assert(a.contains(p) == b.contains(p));
        assert(a.contains(q) == b.contains(q));
    }
}

/// Shape is all that makes a tree well formed.
pub proof fn lemma_same_shape_tree<T: LayoutTree>(a: &T, b: &T)
    requires
        same_shape(a, b),
        is_tree(a),
    ensures
        is_tree(b),
{
    assert forall|n: Node, i: int|
        b.contains(n) && 0 <= i < b.children_of(n).len() implies {
        let c = #[trigger] b.children_of(n)[i];
        b.contains(c) && b.rank(c) < b.rank(n)
    } by {
        assert(a.children_of(n) == b.children_of(n));
        let c = a.children_of(n)[i];
        assert(a.contains(c) == b.contains(c));
        assert(a.rank(c) == b.rank(c));
        assert(a.rank(n) == b.rank(n));
    }
}

/// Whether `m` is `a` or lies below it.
pub open spec fn in_subtree<T: LayoutTree>(t: &T, a: Node, m: Node) -> bool
    decreases t.rank(a), t.children_of(a).len() + 1,
{
    a == m || below_children(t, a, 0, m)
}

/// Whether `m` lies in the subtree of a child of `a` whose index is `j` or more.
pub open spec fn below_children<T: LayoutTree>(t: &T, a: Node, j: int, m: Node) -> bool
    decreases t.rank(a), t.children_of(a).len() - j,
{
    if 0 <= j < t.children_of(a).len() {
        (t.rank(t.children_of(a)[j]) < t.rank(a) && in_subtree(t, t.children_of(a)[j], m))
            || below_children(t, a, j + 1, m)
    } else {
        false
    }
}

/// Whether `m` is a strict descendant of `a`.
pub open spec fn is_descendant<T: LayoutTree>(t: &T, a: Node, m: Node) -> bool {
    below_children(t, a, 0, m)
}

/// Whether `m` lies in the subtree of one of the first `k` children of `a`.
pub open spec fn in_first_children<T: LayoutTree>(t: &T, a: Node, k: int, m: Node) -> bool
    decreases k,
{
    if k <= 0 {
        false
    } else {
        in_first_children(t, a, k - 1, m) || (k - 1 < t.children_of(a).len() && t.rank(
            t.children_of(a)[k - 1],
        ) < t.rank(a) && in_subtree(t, t.children_of(a)[k - 1], m))
    }
}

/// A node in the subtree of a node of a well-formed tree is a node of no higher rank.
pub proof fn lemma_subtree_rank<T: LayoutTree>(t: &T, a: Node, m: Node)
    requires
        is_tree(t),
        t.contains(a),
        in_subtree(t, a, m),
    ensures
        t.contains(m),
        t.rank(m) <= t.rank(a),
        a != m ==> t.rank(m) < t.rank(a),
    decreases t.rank(a), t.children_of(a).len() + 1,
{
    if a != m {
        lemma_below_rank(t, a, 0, m);
    }
}

/// A node below a child of a node of a well-formed tree has a lower rank.
pub proof fn lemma_below_rank<T: LayoutTree>(t: &T, a: Node, j: int, m: Node)
    requires
        is_tree(t),
        t.contains(a),
        below_children(t, a, j, m),
    ensures
        t.contains(m),
        t.rank(m) < t.rank(a),
    decreases t.rank(a), t.children_of(a).len() - j,
{
    let c = t.children_of(a)[j];
    assert(t.contains(c) && t.rank(c) < t.rank(a));
    if in_subtree(t, c, m) {
        lemma_subtree_rank(t, c, m);
    } else {
        lemma_below_rank(t, a, j + 1, m);
    }
}

/// Membership in a subtree depends on the shape of a tree alone.
pub proof fn lemma_same_shape_subtree<T: LayoutTree>(a: &T, b: &T, x: Node, m: Node)
    requires
        same_shape(a, b),
    ensures
        in_subtree(a, x, m) == in_subtree(b, x, m),
    decreases a.rank(x), a.children_of(x).len() + 1,
{
    lemma_same_shape_below(a, b, x, 0, m);
}

/// Lying below the children of a node depends on the shape of a tree alone.
pub proof fn lemma_same_shape_below<T: LayoutTree>(a: &T, b: &T, x: Node, j: int, m: Node)
    requires
        same_shape(a, b),
    ensures
        below_children(a, x, j, m) == below_children(b, x, j, m),
    decreases a.rank(x), a.children_of(x).len() - j,
{
    assert(a.children_of(x) == b.children_of(x));
    assert(a.rank(x) == b.rank(x));
    if 0 <= j < a.children_of(x).len() {
        let c = a.children_of(x)[j];
        assert(a.rank(c) == b.rank(c));
        if a.rank(c) < a.rank(x) {
            lemma_same_shape_subtree(a, b, c, m);
        }
        lemma_same_shape_below(a, b, x, j + 1, m);
    }
}

/// Those below the children from `j` on, together with the subtrees of the first
/// `j` children, are all the strict descendants.
proof fn lemma_descendant_split<T: LayoutTree>(t: &T, a: Node, j: int, m: Node)
    requires
        0 <= j <= t.children_of(a).len(),
    ensures
        in_first_children(t, a, t.children_of(a).len() as int, m) == (in_first_children(t, a, j, m)
            || below_children(t, a, j, m)),
    decreases t.children_of(a).len() - j,
{
    if j < t.children_of(a).len() {
        lemma_descendant_split(t, a, j + 1, m);
    }
}

/// The strict descendants of a node are the subtrees of all its children.
pub proof fn lemma_descendant_children<T: LayoutTree>(t: &T, a: Node, m: Node)
    ensures
        is_descendant(t, a, m) == in_first_children(t, a, t.children_of(a).len() as int, m),
{
    lemma_descendant_split(t, a, 0, m);
}

/// A capability of a leaf node: its intrinsic content size under given constraints.
pub trait Measurable: Send + Sync {
    /// Measures the content.
    fn measure(
        &self,
        known_dimensions: Size<Option<i64>>,
        available_space: Size<AvailableSpace>,
    ) -> Size<i64>;
}

} // verus!
