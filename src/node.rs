//! `Taffy`: an arena of nodes that implements the tree-access contract.

use vstd::prelude::*;
use crate::error::TaffyError;
use crate::geometry::{Point, Size};
use crate::layout::{Cache, Layout};
use crate::style::Display;
use crate::tree::{LayoutTree, Node};

verus! {

/// What the arena stores for one node.
struct NodeData {
    children: Vec<Node>,
    display: Display,
    layout: Layout,
    cache0: Option<Cache>,
    cache1: Option<Cache>,
    cache2: Option<Cache>,
    cache3: Option<Cache>,
}

/// A tree of nodes, each added after its children: node `Node(i)` is the `i`-th
/// added, and its children were all added before it.
pub struct Taffy {
    nodes: Vec<NodeData>,
}

impl Taffy {
    /// An empty tree.
    pub fn new() -> (r: Taffy)
        ensures
            forall|n: Node| !r.contains(n),
            crate::tree::is_tree(&r),
    {
        Taffy { nodes: Vec::new() }
    }

    /// Adds a node with the given display mode and children, with a zero layout
    /// and empty memo slots. Fails, changing nothing, when a child is not a node
    /// of the tree; the error names the first such child.
    pub fn new_node(&mut self, display: Display, children: &[Node]) -> (r: Result<Node, TaffyError>)
        requires
            crate::tree::is_tree(old(self)),
        ensures
            crate::tree::is_tree(final(self)),
            (forall|i: int| 0 <= i < children@.len() ==> old(self).contains(#[trigger] children@[i]))
                <==> r is Ok,
            r matches Err(e) ==> *final(self) == *old(self) && (exists|i: int|
                0 <= i < children@.len() && e == TaffyError::InvalidChildNode(#[trigger] children@[i])
                    && !old(self).contains(children@[i])),
            r matches Ok(n) ==> {
                &&& !old(self).contains(n)
                &&& forall|m: Node| #[trigger] final(self).contains(m) == (old(self).contains(m) || m == n)
                &&& final(self).children_of(n) == children@
                &&& final(self).display_of(n) == display
                &&& final(self).layout_of(n) == Layout::zero_spec()
                &&& forall|s: int| 0 <= s < 4 ==> #[trigger] final(self).cache_of(n, s) is None
                &&& forall|m: Node|
                    m != n ==> {
                        &&& #[trigger] final(self).children_of(m) == old(self).children_of(m)
                        &&& final(self).display_of(m) == old(self).display_of(m)
                        &&& final(self).layout_of(m) == old(self).layout_of(m)
                        &&& final(self).rank(m) == old(self).rank(m)
                        &&& forall|s: int| #[trigger]
                            final(self).cache_of(m, s) == old(self).cache_of(m, s)
                    }
            },
    {
        let mut kept: Vec<Node> = Vec::new();
        let mut i: usize = 0;
        while i < children.len()
            invariant
                i <= children@.len(),
                kept@ == children@.subrange(0, i as int),
                *self == *old(self),
                crate::tree::is_tree(self),
                forall|j: int| 0 <= j < i ==> self.contains(#[trigger] children@[j]),
            decreases children@.len() - i,
        {
            if children[i].0 >= self.nodes.len() {
                return Err(TaffyError::InvalidChildNode(children[i]));
            }
            kept.push(children[i]);
            i = i + 1;
        }
        assert(kept@ == children@);
        let n = Node(self.nodes.len());
        self.nodes.push(
            NodeData {
                children: kept,
                display,
                layout: Layout::zero(),
                cache0: None,
                cache1: None,
                cache2: None,
                cache3: None,
            },
        );
        proof {
            assert forall|p: Node, k: int|
                self.contains(p) && 0 <= k < self.children_of(p).len() implies {
                let c = #[trigger] self.children_of(p)[k];
                self.contains(c) && self.rank(c) < self.rank(p)
            } by {
                if p != n {
                    assert(old(self).children_of(p)[k] == self.children_of(p)[k]);
                } else {
                    assert(self.children_of(p)[k] == children@[k]);
                }
            }
        }
        Ok(n)
    }
}

impl LayoutTree for Taffy {
    closed spec fn contains(&self, node: Node) -> bool {
        node.0 < self.nodes@.len()
    }

    closed spec fn children_of(&self, node: Node) -> Seq<Node> {
        if node.0 < self.nodes@.len() {
            self.nodes@[node.0 as int].children@
        } else {
            Seq::empty()
        }
    }

    closed spec fn display_of(&self, node: Node) -> Display {
        if node.0 < self.nodes@.len() {
            self.nodes@[node.0 as int].display
        } else {
            Display::Flex
        }
    }

    closed spec fn rank(&self, node: Node) -> nat {
        node.0 as nat
    }

    closed spec fn layout_of(&self, node: Node) -> Layout {
        if node.0 < self.nodes@.len() {
            self.nodes@[node.0 as int].layout
        } else {
            Layout::zero_spec()
        }
    }

    closed spec fn cache_of(&self, node: Node, slot: int) -> Option<Cache> {
        let d = self.nodes@[node.0 as int];
        if node.0 >= self.nodes@.len() {
            None
        } else if slot == 0 {
            d.cache0
        } else if slot == 1 {
            d.cache1
        } else if slot == 2 {
            d.cache2
        } else if slot == 3 {
            d.cache3
        } else {
            None
        }
    }

    fn is_valid(&self, node: Node) -> (r: bool) {
        node.0 < self.nodes.len()
    }

    fn child_count(&self, node: Node) -> (r: usize) {
        self.nodes[node.0].children.len()
    }

    fn child(&self, node: Node, index: usize) -> (r: Node) {
        self.nodes[node.0].children[index]
    }

    fn is_childless(&self, node: Node) -> (r: bool) {
        self.nodes[node.0].children.len() == 0
    }

    fn display(&self, node: Node) -> (r: Display) {
        self.nodes[node.0].display
    }

    fn layout(&self, node: Node) -> (r: Layout) {
        self.nodes[node.0].layout
    }

    fn set_layout(&mut self, node: Node, layout: Layout) {
        let mut d = self.nodes.remove(node.0);
        d.layout = layout;
        self.nodes.insert(node.0, d);
        proof {
            assert forall|n: Node| n != node && n.0 < self.nodes@.len() implies #[trigger] self.nodes@[n.0 as int]
                == old(self).nodes@[n.0 as int] by {}
        }
    }

    fn cache(&self, node: Node, slot: usize) -> (r: Option<Cache>) {
        let d = &self.nodes[node.0];
        if slot == 0 {
            d.cache0
        } else if slot == 1 {
            d.cache1
        } else if slot == 2 {
            d.cache2
        } else {
            d.cache3
        }
    }

    fn set_cache(&mut self, node: Node, slot: usize, entry: Option<Cache>) {
        let mut d = self.nodes.remove(node.0);
        if slot == 0 {
            d.cache0 = entry;
        } else if slot == 1 {
            d.cache1 = entry;
        } else if slot == 2 {
            d.cache2 = entry;
        } else {
            d.cache3 = entry;
        }
        self.nodes.insert(node.0, d);
        proof {
            assert forall|n: Node| n != node && n.0 < self.nodes@.len() implies #[trigger] self.nodes@[n.0 as int]
                == old(self).nodes@[n.0 as int] by {}
        }
    }
}

} // verus!
