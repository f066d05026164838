use taffy::cache::compute_from_cache;
use taffy::compute::{cache_result, compute_layout, compute_node_layout, perform_hidden_layout, round_layout};
use taffy::error::TaffyError;
use taffy::geometry::{Point, Size, UNITS_PER_PIXEL};
use taffy::layout::{Cache, Layout, RunMode, SizingMode};
use taffy::style::{AvailableSpace, Display};
use taffy::node::Taffy;
use taffy::tree::{LayoutTree, Node, SizingAlgorithms};
use std::cell::Cell;

const PX: i64 = UNITS_PER_PIXEL;

/// Stand-in sizing algorithms: flex stacks children in a column, grid lines them
/// up in a row, and a leaf reports a fixed content size, narrowed to a definite
/// available width.
struct Stand {
    content: Vec<(Node, Size<i64>)>,
    leaf_calls: Cell<usize>,
    flex_calls: Cell<usize>,
    grid_calls: Cell<usize>,
}

fn size(width: i64, height: i64) -> Size<i64> {
    Size { width, height }
}

fn none() -> Size<Option<i64>> {
    Size { width: None, height: None }
}

fn max_content() -> Size<AvailableSpace> {
    Size { width: AvailableSpace::MaxContent, height: AvailableSpace::MaxContent }
}

impl Stand {
    fn new() -> Stand {
        Stand { content: Vec::new(), leaf_calls: Cell::new(0), flex_calls: Cell::new(0), grid_calls: Cell::new(0) }
    }

    fn leaf(&mut self, tree: &mut Taffy, width: i64, height: i64) -> Node {
        let node = tree.new_node(Display::Flex, &[]).unwrap();
        self.content.push((node, size(width, height)));
        node
    }

    fn calls(&self) -> (usize, usize, usize) {
        (self.leaf_calls.get(), self.flex_calls.get(), self.grid_calls.get())
    }

    /// The size `arrange` gives `node`, worked out without touching the tree.
    fn natural(&self, t: &Taffy, node: Node, available_space: Size<AvailableSpace>, column: bool) -> Size<i64> {
        let mut along: i64 = 0;
        let mut across: i64 = 0;
        for i in 0..t.child_count(node) {
            let child = t.child(node, i);
            let s = if t.is_childless(child) {
                self.leaf_size(t, child, none(), available_space, RunMode::PerformLayout, SizingMode::InherentSize)
            } else {
                match t.display(child) {
                    Display::Flex => self.natural(t, child, available_space, true),
                    Display::Grid => self.natural(t, child, available_space, false),
                    Display::Hidden => size(0, 0),
                }
            };
            if column {
                along += s.height;
                across = across.max(s.width);
            } else {
                along += s.width;
                across = across.max(s.height);
            }
        }
        if column { size(across, along) } else { size(along, across) }
    }

    fn arrange(&self, tree: &mut Taffy, node: Node, available_space: Size<AvailableSpace>, run_mode: RunMode, column: bool) -> Size<i64> {
        let mut along: i64 = 0;
        let mut across: i64 = 0;
        for i in 0..tree.child_count(node) {
            let child = tree.child(node, i);
            let s = compute_node_layout(self, tree, child, none(), available_space, run_mode, SizingMode::InherentSize);
            if run_mode == RunMode::PerformLayout {
                let location = if column { Point { x: 0, y: along } } else { Point { x: along, y: 0 } };
                tree.set_layout(child, Layout { order: i as u32, size: s, location });
            }
            if column {
                along += s.height;
                across = across.max(s.width);
            } else {
                along += s.width;
                across = across.max(s.height);
            }
        }
        if column { size(across, along) } else { size(along, across) }
    }
}

impl SizingAlgorithms<Taffy> for Stand {
    fn leaf_size(
        &self,
        _t: &Taffy,
        node: Node,
        known_dimensions: Size<Option<i64>>,
        available_space: Size<AvailableSpace>,
        _run_mode: RunMode,
        _sizing_mode: SizingMode,
    ) -> Size<i64> {
        let content = self.content.iter().find(|(n, _)| *n == node).map(|(_, s)| *s).unwrap_or(size(0, 0));
        let fit = match available_space.width {
            AvailableSpace::Definite(w) => content.width.min(w),
            _ => content.width,
        };
        size(known_dimensions.width.unwrap_or(fit), known_dimensions.height.unwrap_or(content.height))
    }

    fn flex_size(
        &self,
        t: &Taffy,
        node: Node,
        _known_dimensions: Size<Option<i64>>,
        available_space: Size<AvailableSpace>,
        _run_mode: RunMode,
    ) -> Size<i64> {
        self.natural(t, node, available_space, true)
    }

    fn grid_size(
        &self,
        t: &Taffy,
        node: Node,
        _known_dimensions: Size<Option<i64>>,
        available_space: Size<AvailableSpace>,
        _run_mode: RunMode,
    ) -> Size<i64> {
        self.natural(t, node, available_space, false)
    }

    fn compute_leaf(
        &self,
        tree: &mut Taffy,
        node: Node,
        known_dimensions: Size<Option<i64>>,
        available_space: Size<AvailableSpace>,
        run_mode: RunMode,
        sizing_mode: SizingMode,
    ) -> Size<i64> {
        self.leaf_calls.set(self.leaf_calls.get() + 1);
        self.leaf_size(tree, node, known_dimensions, available_space, run_mode, sizing_mode)
    }

    fn compute_flexbox(
        &self,
        tree: &mut Taffy,
        node: Node,
        _known_dimensions: Size<Option<i64>>,
        available_space: Size<AvailableSpace>,
        run_mode: RunMode,
    ) -> Size<i64> {
        self.flex_calls.set(self.flex_calls.get() + 1);
        self.arrange(tree, node, available_space, run_mode, true)
    }

    fn compute_grid(
        &self,
        tree: &mut Taffy,
        node: Node,
        _known_dimensions: Size<Option<i64>>,
        available_space: Size<AvailableSpace>,
        run_mode: RunMode,
    ) -> Size<i64> {
        self.grid_calls.set(self.grid_calls.get() + 1);
        self.arrange(tree, node, available_space, run_mode, false)
    }
}

fn same_layout(a: Layout, b: Layout) -> bool {
    a.order == b.order
        && a.size.width == b.size.width
        && a.size.height == b.size.height
        && a.location.x == b.location.x
        && a.location.y == b.location.y
}

#[test]
fn hidden_layout_should_hide_recursively() {
    let mut tree = Taffy::new();
    let mut stand = Stand::new();
    let grandchild_00 = stand.leaf(&mut tree, 50 * PX, 50 * PX);
    let grandchild_01 = stand.leaf(&mut tree, 50 * PX, 50 * PX);
    let child_00 = tree.new_node(Display::Flex, &[grandchild_00, grandchild_01]).unwrap();
    let grandchild_02 = stand.leaf(&mut tree, 50 * PX, 50 * PX);
    let child_01 = tree.new_node(Display::Flex, &[grandchild_02]).unwrap();
    let root = tree.new_node(Display::Hidden, &[child_00, child_01]).unwrap();
    for node in [grandchild_00, grandchild_01, child_00, grandchild_02, child_01] {
        tree.set_layout(node, Layout { order: 3, size: size(50 * PX, 50 * PX), location: Point { x: 7 * PX, y: 9 * PX } });
    }

    let s = perform_hidden_layout(&mut tree, root);
    assert_eq!((s.width, s.height), (0, 0));

    for node in [grandchild_00, grandchild_01, child_00, grandchild_02, child_01] {
        let l = tree.layout(node);
        assert_eq!((l.size.width, l.size.height), (0, 0));
        assert_eq!((l.location.x, l.location.y), (0, 0));
    }
    assert_eq!(tree.layout(child_01).order, 1);
    assert_eq!(tree.layout(grandchild_01).order, 1);
}

#[test]
fn compute_layout_rejects_an_unknown_root() {
    let mut tree = Taffy::new();
    let mut stand = Stand::new();
    stand.leaf(&mut tree, 10 * PX, 10 * PX);
    assert_eq!(compute_layout(&stand, &mut tree, Node(5), max_content()), Err(TaffyError::InvalidInputNode(Node(5))));
    assert_eq!(stand.leaf_calls.get(), 0);
}

#[test]
fn compute_layout_rounds_every_node_to_whole_pixels() {
    let mut tree = Taffy::new();
    let mut stand = Stand::new();
    let a = stand.leaf(&mut tree, 10 * PX + 32, 10 * PX + 32);
    let b = stand.leaf(&mut tree, 20 * PX + 16, 5 * PX + 40);
    let root = tree.new_node(Display::Flex, &[a, b]).unwrap();
    assert_eq!(compute_layout(&stand, &mut tree, root, max_content()), Ok(()));
    for node in [a, b, root] {
        let l = tree.layout(node);
        for v in [l.size.width, l.size.height, l.location.x, l.location.y] {
            assert_eq!(v % PX, 0);
        }
    }
    let r = tree.layout(root);
    // Each node is rounded on its own: the children round to 11 + 6 pixels, the
    // root's 16.125 pixels to 16.
    assert_eq!((r.size.width, r.size.height), (20 * PX, 16 * PX));
    let la = tree.layout(a);
    assert_eq!((la.size.width, la.size.height, la.location.y), (11 * PX, 11 * PX, 0));
    let lb = tree.layout(b);
    assert_eq!((lb.size.width, lb.size.height, lb.location.y, lb.order), (20 * PX, 6 * PX, 11 * PX, 1));
}

#[test]
fn compute_layout_twice_gives_the_same_layouts() {
    let mut tree = Taffy::new();
    let mut stand = Stand::new();
    let a = stand.leaf(&mut tree, 10 * PX + 32, 3 * PX + 5);
    let b = stand.leaf(&mut tree, 7 * PX, 4 * PX + 50);
    let inner = tree.new_node(Display::Grid, &[a, b]).unwrap();
    let c = stand.leaf(&mut tree, 2 * PX + 31, 2 * PX + 33);
    let root = tree.new_node(Display::Flex, &[inner, c]).unwrap();
    compute_layout(&stand, &mut tree, root, max_content()).unwrap();
    let all = [a, b, inner, c, root];
    let first: Vec<Layout> = all.iter().map(|n| tree.layout(*n)).collect();
    let calls = stand.calls();
    compute_layout(&stand, &mut tree, root, max_content()).unwrap();
    for (i, node) in all.iter().enumerate() {
        assert!(same_layout(tree.layout(*node), first[i]));
    }
    assert_eq!(stand.calls(), calls);
}

#[test]
fn known_size_equal_to_an_earlier_result_reuses_the_cache() {
    let mut tree = Taffy::new();
    let mut stand = Stand::new();
    let leaf = stand.leaf(&mut tree, 30 * PX, 12 * PX);
    let space = Size { width: AvailableSpace::Definite(100 * PX), height: AvailableSpace::MaxContent };
    let s = compute_node_layout(&stand, &mut tree, leaf, none(), space, RunMode::ComputeSize, SizingMode::InherentSize);
    assert_eq!((s.width, s.height), (30 * PX, 12 * PX));
    assert_eq!(stand.leaf_calls.get(), 1);
    let again = compute_node_layout(
        &stand,
        &mut tree,
        leaf,
        Size { width: Some(s.width), height: Some(s.height) },
        max_content(),
        RunMode::PerformLayout,
        SizingMode::ContentSize,
    );
    assert_eq!((again.width, again.height), (30 * PX, 12 * PX));
    assert_eq!(stand.leaf_calls.get(), 1);
}

#[test]
fn content_sized_result_holds_under_wider_space() {
    let mut tree = Taffy::new();
    let mut stand = Stand::new();
    let leaf = stand.leaf(&mut tree, 40 * PX, 10 * PX);
    let narrow = Size { width: AvailableSpace::Definite(100 * PX), height: AvailableSpace::MaxContent };
    let wide = Size { width: AvailableSpace::Definite(150 * PX), height: AvailableSpace::MaxContent };
    let s = compute_node_layout(&stand, &mut tree, leaf, none(), narrow, RunMode::PerformLayout, SizingMode::ContentSize);
    assert_eq!(s.width, 40 * PX);
    let again = compute_node_layout(&stand, &mut tree, leaf, none(), wide, RunMode::PerformLayout, SizingMode::ContentSize);
    assert_eq!(again.width, 40 * PX);
    assert_eq!(stand.leaf_calls.get(), 1);
    // Inherent sizing does not take the wider space on trust.
    compute_node_layout(&stand, &mut tree, leaf, none(), wide, RunMode::PerformLayout, SizingMode::InherentSize);
    assert_eq!(stand.leaf_calls.get(), 2);
}

#[test]
fn content_sized_result_is_not_reused_under_narrower_space() {
    let mut tree = Taffy::new();
    let mut stand = Stand::new();
    let leaf = stand.leaf(&mut tree, 40 * PX, 10 * PX);
    let wide = Size { width: AvailableSpace::Definite(150 * PX), height: AvailableSpace::MaxContent };
    let narrow = Size { width: AvailableSpace::Definite(30 * PX), height: AvailableSpace::MaxContent };
    compute_node_layout(&stand, &mut tree, leaf, none(), wide, RunMode::PerformLayout, SizingMode::ContentSize);
    let s = compute_node_layout(&stand, &mut tree, leaf, none(), narrow, RunMode::PerformLayout, SizingMode::ContentSize);
    assert_eq!(s.width, 30 * PX);
    assert_eq!(stand.leaf_calls.get(), 2);
}

#[test]
fn hidden_subtree_collapses_at_every_depth() {
    let mut tree = Taffy::new();
    let mut stand = Stand::new();
    let deep = stand.leaf(&mut tree, 33 * PX, 44 * PX);
    let mid = tree.new_node(Display::Grid, &[deep]).unwrap();
    let other = stand.leaf(&mut tree, 12 * PX, 12 * PX);
    let hidden = tree.new_node(Display::Hidden, &[mid, other]).unwrap();
    let shown = stand.leaf(&mut tree, 5 * PX, 6 * PX);
    let root = tree.new_node(Display::Flex, &[shown, hidden]).unwrap();
    compute_layout(&stand, &mut tree, root, max_content()).unwrap();
    for node in [mid, deep, other] {
        let l = tree.layout(node);
        assert_eq!((l.size.width, l.size.height, l.location.x, l.location.y), (0, 0, 0, 0));
    }
    let h = tree.layout(hidden);
    assert_eq!((h.size.width, h.size.height, h.location.y), (0, 0, 6 * PX));
    assert_eq!(stand.grid_calls.get(), 0);
    let r = tree.layout(root);
    assert_eq!((r.size.width, r.size.height), (5 * PX, 6 * PX));
}

#[test]
fn hidden_node_sizes_to_zero_and_is_cached() {
    let mut tree = Taffy::new();
    let mut stand = Stand::new();
    let a = stand.leaf(&mut tree, 9 * PX, 9 * PX);
    let hidden = tree.new_node(Display::Hidden, &[a]).unwrap();
    let s = compute_node_layout(&stand, &mut tree, hidden, none(), max_content(), RunMode::PerformLayout, SizingMode::InherentSize);
    assert_eq!((s.width, s.height), (0, 0));
    assert_eq!(stand.leaf_calls.get(), 0);
    let entry = tree.cache(hidden, 0).unwrap();
    assert_eq!((entry.cached_size.width, entry.cached_size.height), (0, 0));
}

#[test]
fn size_only_entry_does_not_answer_a_full_layout_query() {
    let mut tree = Taffy::new();
    let mut stand = Stand::new();
    let a = stand.leaf(&mut tree, 4 * PX, 4 * PX);
    let root = tree.new_node(Display::Flex, &[a]).unwrap();
    compute_node_layout(&stand, &mut tree, root, none(), max_content(), RunMode::ComputeSize, SizingMode::InherentSize);
    assert_eq!(stand.flex_calls.get(), 1);
    compute_node_layout(&stand, &mut tree, root, none(), max_content(), RunMode::ComputeSize, SizingMode::InherentSize);
    assert_eq!(stand.flex_calls.get(), 1);
    compute_node_layout(&stand, &mut tree, root, none(), max_content(), RunMode::PerformLayout, SizingMode::InherentSize);
    assert_eq!(stand.flex_calls.get(), 2);
    assert_eq!(tree.cache(root, 0).unwrap().run_mode, RunMode::PerformLayout);
}

#[test]
fn results_are_stored_in_the_slot_of_their_known_dimensions() {
    let mut tree = Taffy::new();
    let mut stand = Stand::new();
    let leaf = stand.leaf(&mut tree, 8 * PX, 3 * PX);
    compute_node_layout(
        &stand,
        &mut tree,
        leaf,
        Size { width: Some(20 * PX), height: None },
        max_content(),
        RunMode::ComputeSize,
        SizingMode::InherentSize,
    );
    compute_node_layout(
        &stand,
        &mut tree,
        leaf,
        Size { width: None, height: Some(7 * PX) },
        max_content(),
        RunMode::ComputeSize,
        SizingMode::InherentSize,
    );
    let w = tree.cache(leaf, 1).unwrap();
    assert_eq!((w.cached_size.width, w.cached_size.height), (20 * PX, 3 * PX));
    assert_eq!(w.run_mode, RunMode::PerformLayout);
    let h = tree.cache(leaf, 2).unwrap();
    assert_eq!((h.cached_size.width, h.cached_size.height), (8 * PX, 7 * PX));
    assert!(tree.cache(leaf, 0).is_none());
    assert!(tree.cache(leaf, 3).is_none());
}

#[test]
fn cache_lookup_matches_known_and_available_space() {
    let mut tree = Taffy::new();
    let mut stand = Stand::new();
    let leaf = stand.leaf(&mut tree, 8 * PX, 3 * PX);
    let space = Size { width: AvailableSpace::Definite(50 * PX), height: AvailableSpace::MinContent };
    tree.set_cache(
        leaf,
        0,
        Some(Cache { known_dimensions: none(), available_space: space, run_mode: RunMode::PerformLayout, cached_size: size(8 * PX, 3 * PX) }),
    );
    let hit = compute_from_cache(&tree, leaf, none(), space, RunMode::ComputeSize, SizingMode::InherentSize);
    assert_eq!(hit.map(|s| (s.width, s.height)), Some((8 * PX, 3 * PX)));
    let other = Size { width: AvailableSpace::Definite(60 * PX), height: AvailableSpace::MinContent };
    assert!(compute_from_cache(&tree, leaf, none(), other, RunMode::ComputeSize, SizingMode::InherentSize).is_none());
    let known = Size { width: Some(9 * PX), height: None };
    assert!(compute_from_cache(&tree, leaf, known, space, RunMode::ComputeSize, SizingMode::InherentSize).is_none());
    let pinned = Size { width: Some(8 * PX), height: None };
    assert!(compute_from_cache(&tree, leaf, pinned, other, RunMode::ComputeSize, SizingMode::InherentSize).is_some());
    assert!(compute_from_cache(&tree, leaf, pinned, space, RunMode::ComputeSize, SizingMode::InherentSize).is_some());
}

#[test]
fn rounding_pass_rounds_each_offset_on_its_own() {
    let mut tree = Taffy::new();
    let mut stand = Stand::new();
    let child = stand.leaf(&mut tree, 0, 0);
    let root = tree.new_node(Display::Flex, &[child]).unwrap();
    tree.set_layout(root, Layout { order: 0, size: size(10 * PX + 32, 10 * PX + 31), location: Point { x: PX / 2, y: -(PX / 2) } });
    tree.set_layout(child, Layout { order: 2, size: size(PX / 2, 3), location: Point { x: PX / 2, y: -(PX / 2) - 1 } });
    round_layout(&mut tree, root);
    let r = tree.layout(root);
    assert_eq!((r.size.width, r.size.height, r.location.x, r.location.y), (11 * PX, 10 * PX, PX, -PX));
    let c = tree.layout(child);
    assert_eq!((c.size.width, c.size.height, c.location.x, c.location.y, c.order), (PX, 0, PX, -PX, 2));
}

#[test]
fn grid_display_dispatches_to_the_grid_algorithm() {
    let mut tree = Taffy::new();
    let mut stand = Stand::new();
    let a = stand.leaf(&mut tree, 3 * PX, 4 * PX);
    let b = stand.leaf(&mut tree, 5 * PX, 2 * PX);
    let root = tree.new_node(Display::Grid, &[a, b]).unwrap();
    compute_layout(&stand, &mut tree, root, max_content()).unwrap();
    assert_eq!((stand.grid_calls.get(), stand.flex_calls.get()), (1, 0));
    let r = tree.layout(root);
    assert_eq!((r.size.width, r.size.height), (8 * PX, 4 * PX));
    let lb = tree.layout(b);
    assert_eq!((lb.location.x, lb.location.y), (3 * PX, 0));
}

#[test]
fn a_result_with_both_dimensions_known_goes_to_the_last_slot() {
    let mut tree = Taffy::new();
    let mut stand = Stand::new();
    let leaf = stand.leaf(&mut tree, 8 * PX, 3 * PX);
    let known = Size { width: Some(2 * PX), height: Some(5 * PX) };
    cache_result(&mut tree, leaf, known, max_content(), RunMode::ComputeSize, size(2 * PX, 5 * PX));
    let e = tree.cache(leaf, 3).unwrap();
    assert_eq!((e.cached_size.width, e.cached_size.height, e.run_mode), (2 * PX, 5 * PX, RunMode::ComputeSize));
    assert_eq!(e.known_dimensions.width, Some(2 * PX));
    assert!(tree.cache(leaf, 0).is_none());
    assert_eq!(stand.calls(), (0, 0, 0));
}

#[test]
fn new_node_rejects_an_unknown_child() {
    let mut tree = Taffy::new();
    let a = tree.new_node(Display::Flex, &[]).unwrap();
    assert_eq!(tree.new_node(Display::Flex, &[a, Node(7)]), Err(TaffyError::InvalidChildNode(Node(7))));
    let b = tree.new_node(Display::Grid, &[a]).unwrap();
    assert_eq!(b, Node(1));
    assert_eq!(tree.child_count(b), 1);
    assert_eq!(tree.child(b, 0), a);
    assert_eq!(tree.display(b), Display::Grid);
    assert!(tree.is_childless(a));
    assert!(!tree.is_valid(Node(2)));
}

#[test]
fn a_repeated_query_returns_the_first_result_in_either_run_mode() {
    let mut tree = Taffy::new();
    let mut stand = Stand::new();
    let leaf = stand.leaf(&mut tree, 17 * PX, 4 * PX);
    let space = Size { width: AvailableSpace::Definite(12 * PX), height: AvailableSpace::MinContent };
    let first = compute_node_layout(&stand, &mut tree, leaf, none(), space, RunMode::ComputeSize, SizingMode::InherentSize);
    assert_eq!((first.width, first.height), (12 * PX, 4 * PX));
    let again = compute_node_layout(&stand, &mut tree, leaf, none(), space, RunMode::PerformLayout, SizingMode::InherentSize);
    assert_eq!((again.width, again.height), (12 * PX, 4 * PX));
    assert_eq!(stand.leaf_calls.get(), 1);
    assert!(tree.cache(leaf, 1).is_none() && tree.cache(leaf, 2).is_none() && tree.cache(leaf, 3).is_none());
}

#[test]
fn a_miss_keeps_the_other_slots_and_the_nodes_own_layout() {
    let mut tree = Taffy::new();
    let mut stand = Stand::new();
    let a = stand.leaf(&mut tree, 3 * PX, 3 * PX);
    let root = tree.new_node(Display::Flex, &[a]).unwrap();
    let own = Layout { order: 5, size: size(PX, PX), location: Point { x: 2 * PX, y: 2 * PX } };
    tree.set_layout(root, own);
    let kept = Cache { known_dimensions: none(), available_space: max_content(), run_mode: RunMode::ComputeSize, cached_size: size(1, 1) };
    tree.set_cache(root, 0, Some(kept));
    let known = Size { width: Some(9 * PX), height: None };
    let s = compute_node_layout(&stand, &mut tree, root, known, max_content(), RunMode::PerformLayout, SizingMode::InherentSize);
    assert_eq!((s.width, s.height), (3 * PX, 3 * PX));
    assert!(same_layout(tree.layout(root), own));
    assert_eq!(tree.cache(root, 0).unwrap().cached_size.width, 1);
    assert_eq!(tree.cache(root, 1).unwrap().cached_size.height, 3 * PX);
}
