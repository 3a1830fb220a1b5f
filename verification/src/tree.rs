//! Walking a grammar tree from the root down and from left to right.
//!
//! A tree is read through a cursor. What the walk needs to know of a cursor is
//! the shape of the tree under the node it was made for: the depth of every
//! node, in document order, and which of these nodes the cursor stands on. The
//! walk turns the tree into a list of [`SyntaxNode`]s with the same shape, on
//! which the rest of the crate works.
use tree_sitter::{Tree, TreeCursor};
use vstd::prelude::*;

verus! {

/// `tree_sitter::Tree`: the tree that a parser has made of a source.
#[verifier::external_type_specification]
#[verifier::external_body]
pub struct ExTree(Tree);

/// `tree_sitter::TreeCursor`: a place in a tree, from which one can move to
/// the nodes around it. Of the tree nothing is known but its shape, as the
/// names below give it.
#[verifier::external_type_specification]
#[verifier::external_body]
pub struct ExTreeCursor<'tree>(TreeCursor<'tree>);

/// The depth of every node under the node that `cursor` was made for. That
/// node comes first, with depth 0; the others follow in document order, each
/// node before its children.
pub uninterp spec fn cursor_depths(cursor: TreeCursor<'_>) -> Seq<nat>;

/// The place, in `cursor_depths`, of the node that `cursor` stands on.
pub uninterp spec fn cursor_index(cursor: TreeCursor<'_>) -> nat;

/// The nodes of `tree` in document order, each node before its children.
pub uninterp spec fn tree_nodes(tree: Tree) -> Seq<SyntaxNode<'static>>;

/// The nodes under the node that `cursor` was made for, that node first and
/// the others in document order, each node before its children.
pub uninterp spec fn cursor_nodes(cursor: TreeCursor<'_>) -> Seq<SyntaxNode<'_>>;

/// Whether `depths` is the shape of a tree: the root alone has depth 0, and a
/// node lies at most one level below the node before it.
pub open spec fn well_formed(depths: Seq<nat>) -> bool {
    &&& depths.len() > 0
    &&& depths[0] == 0
    &&& forall|i: int| 0 < i < depths.len() ==> 0 < #[trigger] depths[i] <= depths[i - 1] + 1
}

/// The first index from `from` on whose node is not deeper than `depth`, or
/// the length of `depths` where there is none.
pub open spec fn skip_deeper(depths: Seq<nat>, from: int, depth: nat) -> int
    decreases depths.len() - from,
{
    if from < 0 || from >= depths.len() || depths[from] <= depth {
        from
    } else {
        skip_deeper(depths, from + 1, depth)
    }
}

/// The index after the last node under node `i`.
pub open spec fn subtree_end(depths: Seq<nat>, i: int) -> int {
    skip_deeper(depths, i + 1, depths[i])
}

/// The last index from `from` down whose node is less deep than `depth`, or 0.
pub open spec fn climb(depths: Seq<nat>, from: int, depth: nat) -> int
    decreases from,
{
    if from <= 0 || from >= depths.len() || depths[from] < depth {
        from
    } else {
        climb(depths, from - 1, depth)
    }
}

/// Whether node `i` has a child: the next node is one level deeper.
pub open spec fn has_child(depths: Seq<nat>, i: int) -> bool {
    i + 1 < depths.len() && depths[i + 1] == depths[i] + 1
}

/// Whether node `i` has a next sibling: its subtree is followed by a node of
/// its own depth.
pub open spec fn has_next_sibling(depths: Seq<nat>, i: int) -> bool {
    subtree_end(depths, i) < depths.len() && depths[subtree_end(depths, i)] == depths[i]
}

/// The parent of node `i`, which is not the root.
pub open spec fn parent_of(depths: Seq<nat>, i: int) -> int {
    climb(depths, i - 1, depths[i])
}

/// `Tree::walk`: a cursor on the root of the tree. The nodes under the cursor
/// are those of the tree, and its shape is their depths.
#[verifier::external_body]
fn walk<'tree>(tree: &'tree Tree) -> (cursor: TreeCursor<'tree>)
    ensures
        well_formed(cursor_depths(cursor)),
        cursor_index(cursor) == 0,
        cursor_nodes(cursor) == tree_nodes(*tree),
        cursor_depths(cursor) == depths_of(cursor_nodes(cursor)),
{
    tree.walk()
}

/// `TreeCursor::goto_first_child`: moves to the first child of the current
/// node, and says whether there was one. The tree stays as it is.
#[verifier::external_body]
fn goto_first_child(cursor: &mut TreeCursor<'_>) -> (moved: bool)
    ensures
        cursor_depths(*final(cursor)) == cursor_depths(*old(cursor)),
        cursor_nodes(*final(cursor)) == cursor_nodes(*old(cursor)),
        moved == has_child(cursor_depths(*old(cursor)), cursor_index(*old(cursor)) as int),
        moved ==> cursor_index(*final(cursor)) == cursor_index(*old(cursor)) + 1,
        !moved ==> cursor_index(*final(cursor)) == cursor_index(*old(cursor)),
{
    cursor.goto_first_child()
}

/// `TreeCursor::goto_next_sibling`: moves to the next sibling of the current
/// node, and says whether there was one. The tree stays as it is.
#[verifier::external_body]
fn goto_next_sibling(cursor: &mut TreeCursor<'_>) -> (moved: bool)
    ensures
        cursor_depths(*final(cursor)) == cursor_depths(*old(cursor)),
        cursor_nodes(*final(cursor)) == cursor_nodes(*old(cursor)),
        moved == has_next_sibling(cursor_depths(*old(cursor)), cursor_index(*old(cursor)) as int),
        moved ==> cursor_index(*final(cursor)) == subtree_end(
            cursor_depths(*old(cursor)),
            cursor_index(*old(cursor)) as int,
        ),
        !moved ==> cursor_index(*final(cursor)) == cursor_index(*old(cursor)),
{
    cursor.goto_next_sibling()
}

/// `TreeCursor::goto_parent`: moves to the parent of the current node, and
/// says whether there was one: the node the cursor was made for has none. The
/// tree stays as it is.
#[verifier::external_body]
fn goto_parent(cursor: &mut TreeCursor<'_>) -> (moved: bool)
    ensures
        cursor_depths(*final(cursor)) == cursor_depths(*old(cursor)),
        cursor_nodes(*final(cursor)) == cursor_nodes(*old(cursor)),
        moved == (cursor_depths(*old(cursor))[cursor_index(*old(cursor)) as int] > 0),
        moved ==> cursor_index(*final(cursor)) == parent_of(
            cursor_depths(*old(cursor)),
            cursor_index(*old(cursor)) as int,
        ),
        !moved ==> cursor_index(*final(cursor)) == cursor_index(*old(cursor)),
{
    cursor.goto_parent()
}

/// A node of a grammar tree, as plain values.
#[derive(Clone, Copy, Debug)]
pub struct SyntaxNode<'tree> {
    /// A number that tells the node from the other nodes of its tree.
    pub id: usize,
    /// The node's type in the grammar.
    pub kind: &'tree str,
    /// The byte offset where the node starts.
    pub start: usize,
    /// The byte offset where the node ends.
    pub end: usize,
    /// How many levels the node lies below the root.
    pub depth: usize,
}

impl<'tree> SyntaxNode<'tree> {
    /// How many bytes of the source the node covers.
    pub open spec fn spec_len(&self) -> nat {
        if self.start <= self.end {
            (self.end - self.start) as nat
        } else {
            0
        }
    }

    /// How many bytes of the source the node covers.
    pub fn len(&self) -> (n: usize)
        ensures
            n == self.spec_len(),
    {
        if self.start <= self.end {
            self.end - self.start
        } else {
            0
        }
    }
}

/// `TreeCursor::node`, with `TreeCursor::depth`: the node the cursor stands
/// on, as plain values. It is the node at the cursor's place among the nodes
/// under the cursor, and its depth is the one the shape of the tree gives.
#[verifier::external_body]
fn current_node<'tree>(cursor: &TreeCursor<'tree>) -> (node: SyntaxNode<'tree>)
    ensures
        node == cursor_nodes(*cursor)[cursor_index(*cursor) as int],
        node.depth == cursor_depths(*cursor)[cursor_index(*cursor) as int],
{
    let node = cursor.node();
    SyntaxNode {
        id: node.id(),
        kind: node.kind(),
        start: node.start_byte(),
        end: node.end_byte(),
        depth: cursor.depth() as usize,
    }
}

/// Below `from`, `skip_deeper` passes every node that is deeper than `depth`.
proof fn lemma_skip_deeper(depths: Seq<nat>, from: int, to: int, depth: nat)
    requires
        0 <= from <= to <= depths.len(),
        forall|k: int| from <= k < to ==> #[trigger] depths[k] > depth,
        to == depths.len() || depths[to] <= depth,
    ensures
        skip_deeper(depths, from, depth) == to,
    decreases to - from,
{
    if from < to {
        lemma_skip_deeper(depths, from + 1, to, depth);
    }
}

/// The node that `climb` finds from `from` is the nearest one before it that is
/// less deep than `depth`.
proof fn lemma_climb(depths: Seq<nat>, from: int, depth: nat)
    requires
        well_formed(depths),
        0 <= from < depths.len(),
        depth > 0,
    ensures
        0 <= climb(depths, from, depth) <= from,
        depths[climb(depths, from, depth)] < depth,
        forall|k: int| climb(depths, from, depth) < k <= from ==> #[trigger] depths[k] >= depth,
    decreases from,
{
    if from > 0 && depths[from] >= depth {
        lemma_climb(depths, from - 1, depth);
    }
}

/// The parent of a node lies one level above it, and every node between the
/// two lies at least as deep as the node.
pub proof fn lemma_parent(depths: Seq<nat>, i: int)
    requires
        well_formed(depths),
        0 < i < depths.len(),
    ensures
        0 <= parent_of(depths, i) < i,
        depths[parent_of(depths, i)] + 1 == depths[i],
        forall|k: int| parent_of(depths, i) < k < i ==> #[trigger] depths[k] >= depths[i],
{
    lemma_climb(depths, i - 1, depths[i]);
    let p = parent_of(depths, i);
    assert(depths[p + 1] <= depths[p] + 1);
}

/// Traverse a tree with a depth-first search from left to right.
pub struct PreorderTraversal<'a> {
    cursor: TreeCursor<'a>,
    finished: bool,
}

impl<'a> PreorderTraversal<'a> {
    /// The depth of every node of the tree, in the order of the traversal.
    pub closed spec fn depths(&self) -> Seq<nat> {
        cursor_depths(self.cursor)
    }

    /// The nodes of the tree, in the order of the traversal.
    pub closed spec fn nodes(&self) -> Seq<SyntaxNode<'a>> {
        cursor_nodes(self.cursor)
    }

    /// How many nodes the traversal has given out.
    pub closed spec fn position(&self) -> nat {
        if self.finished {
            self.depths().len()
        } else {
            cursor_index(self.cursor)
        }
    }

    /// The traversal is on a tree, at one of its nodes or past the last one.
    pub closed spec fn wf(&self) -> bool {
        &&& well_formed(self.depths())
        &&& self.depths() == depths_of(self.nodes())
        &&& cursor_index(self.cursor) < self.depths().len()
    }

    /// A traversal of `tree` that starts from its root.
    pub fn new(tree: &'a Tree) -> (traversal: Self)
        ensures
            traversal.wf(),
            traversal.position() == 0,
            traversal.nodes() == tree_nodes(*tree),
            traversal.depths() == depths_of(traversal.nodes()),
    {
        PreorderTraversal { cursor: walk(tree), finished: false }
    }

    /// The next node, if the traversal has not given out every node yet.
    ///
    /// The nodes come in document order, a node before its children: the
    /// traversal visits every node of the tree once.
    pub fn next(&mut self) -> (node: Option<SyntaxNode<'a>>)
        requires
            old(self).wf(),
        ensures
            final(self).wf(),
            final(self).depths() == old(self).depths(),
            final(self).nodes() == old(self).nodes(),
            old(self).depths() == depths_of(old(self).nodes()),
            old(self).position() <= old(self).depths().len(),
            old(self).position() < old(self).depths().len() ==> {
                &&& node is Some
                &&& node->0 == old(self).nodes()[old(self).position() as int]
                &&& node->0.depth == old(self).depths()[old(self).position() as int]
                &&& final(self).position() == old(self).position() + 1
            },
            old(self).position() == old(self).depths().len() ==> {
                &&& node is None
                &&& final(self).position() == old(self).position()
            },
    {
        if self.finished {
            return None;
        }
        let ghost depths = cursor_depths(self.cursor);
        let ghost held = cursor_nodes(self.cursor);
        let ghost i = cursor_index(self.cursor) as int;
        let node = current_node(&self.cursor);

        if goto_first_child(&mut self.cursor) {
            return Some(node);
        }
        proof {
            lemma_skip_deeper(depths, i + 1, i + 1, depths[i]);
        }
        if goto_next_sibling(&mut self.cursor) {
            return Some(node);
        }
        loop
            invariant_except_break
                !self.finished,
                cursor_depths(self.cursor) == depths,
                cursor_nodes(self.cursor) == held,
                well_formed(depths),
                0 <= cursor_index(self.cursor) <= i < depths.len(),
                forall|k: int|
                    cursor_index(self.cursor) < k <= i ==> #[trigger] depths[k]
                        > depths[cursor_index(self.cursor) as int],
                i + 1 == depths.len() || depths[i + 1] < depths[cursor_index(self.cursor) as int],
            ensures
                cursor_depths(self.cursor) == depths,
                cursor_nodes(self.cursor) == held,
                cursor_index(self.cursor) < depths.len(),
                self.finished ==> i + 1 == depths.len(),
                !self.finished ==> cursor_index(self.cursor) == i + 1,
            decreases cursor_index(self.cursor),
        {
            let ghost c = cursor_index(self.cursor) as int;
            if !goto_parent(&mut self.cursor) {
                self.finished = true;
                break ;
            }
            proof {
                lemma_parent(depths, c);
                let p = parent_of(depths, c);
                lemma_skip_deeper(depths, p + 1, i + 1, depths[p]);
            }
            if goto_next_sibling(&mut self.cursor) {
                break ;
            }
        }
        Some(node)
    }
}

/// The depth of each of `nodes`.
pub open spec fn depths_of(nodes: Seq<SyntaxNode<'_>>) -> Seq<nat> {
    nodes.map_values(|n: SyntaxNode<'_>| n.depth as nat)
}

/// Whether `nodes` have the shape of a tree in document order: the root alone
/// has depth 0, and a node lies at most one level below the node before it.
pub open spec fn is_preorder(nodes: Seq<SyntaxNode<'_>>) -> bool {
    well_formed(depths_of(nodes))
}

/// Those of the nodes after node `i` and before place `upto` that lie one
/// level below node `i`, in document order.
pub open spec fn child_nodes<'tree>(nodes: Seq<SyntaxNode<'tree>>, i: int, upto: int) -> Seq<
    SyntaxNode<'tree>,
>
    decreases upto,
{
    if i < 0 || upto <= i + 1 || upto > nodes.len() {
        Seq::empty()
    } else {
        let first = child_nodes(nodes, i, upto - 1);
        if nodes[upto - 1].depth == nodes[i].depth + 1 {
            first.push(nodes[upto - 1])
        } else {
            first
        }
    }
}

/// The children of node `i`, from left to right: the nodes under node `i` that
/// lie one level below it.
pub open spec fn children_of<'tree>(nodes: Seq<SyntaxNode<'tree>>, i: int) -> Seq<
    SyntaxNode<'tree>,
> {
    child_nodes(nodes, i, subtree_end(depths_of(nodes), i))
}

/// The nodes of a grammar tree in document order, each node before its
/// children.
pub struct SyntaxTree<'tree> {
    nodes: Vec<SyntaxNode<'tree>>,
}

impl<'tree> View for SyntaxTree<'tree> {
    type V = Seq<SyntaxNode<'tree>>;

    closed spec fn view(&self) -> Seq<SyntaxNode<'tree>> {
        self.nodes@
    }
}

impl<'tree> SyntaxTree<'tree> {
    /// The depths of the nodes fit together as those of a tree.
    pub open spec fn wf(&self) -> bool {
        is_preorder(self@)
    }

    /// The depth of each node.
    pub open spec fn depths(&self) -> Seq<nat> {
        depths_of(self@)
    }

    /// Reads the whole of `tree`: its nodes in document order, each node
    /// before its children.
    pub fn from_tree(tree: &'tree Tree) -> (nodes: Self)
        ensures
            nodes.wf(),
            nodes@ == tree_nodes(*tree),
    {
        let mut traversal = PreorderTraversal::new(tree);
        let mut nodes: Vec<SyntaxNode<'tree>> = Vec::new();
        loop
            invariant_except_break
                traversal.wf(),
                traversal.nodes() == tree_nodes(*tree),
                traversal.depths() == depths_of(traversal.nodes()),
                nodes.len() == traversal.position(),
                nodes.len() <= traversal.depths().len(),
                forall|k: int|
                    0 <= k < nodes.len() ==> (#[trigger] nodes[k]).depth == traversal.depths()[k],
                forall|k: int| 0 <= k < nodes.len() ==> (#[trigger] nodes[k]) == traversal.nodes()[k],
            ensures
                traversal.wf(),
                traversal.nodes() == tree_nodes(*tree),
                traversal.depths() == depths_of(traversal.nodes()),
                nodes.len() == traversal.depths().len(),
                forall|k: int|
                    0 <= k < nodes.len() ==> (#[trigger] nodes[k]).depth == traversal.depths()[k],
                forall|k: int| 0 <= k < nodes.len() ==> (#[trigger] nodes[k]) == traversal.nodes()[k],
            decreases traversal.depths().len() - traversal.position(),
        {
            match traversal.next() {
                Some(node) => {
                    nodes.push(node);
                },
                None => {
                    break ;
                },
            }
        }
        assert(depths_of(nodes@) =~= traversal.depths());
        SyntaxTree { nodes }
    }

    /// Takes `nodes` as a tree, if their depths fit together as those of one.
    pub fn from_nodes(nodes: Vec<SyntaxNode<'tree>>) -> (tree: Option<Self>)
        ensures
            tree is Some <==> is_preorder(nodes@),
            tree matches Some(t) ==> t@ == nodes@,
    {
        if nodes.len() == 0 || nodes[0].depth != 0 {
            return None;
        }
        let mut i: usize = 1;
        while i < nodes.len()
            invariant
                1 <= i <= nodes.len(),
                nodes[0].depth == 0,
                forall|k: int| 0 < k < i ==> 0 < (#[trigger] nodes[k]).depth <= nodes[k - 1].depth + 1,
            decreases nodes.len() - i,
        {
            if nodes[i].depth == 0 || nodes[i].depth - 1 > nodes[i - 1].depth {
                assert(!(0 < depths_of(nodes@)[i as int] <= depths_of(nodes@)[i - 1] + 1));
                return None;
            }
            i += 1;
        }
        assert forall|k: int| 0 < k < depths_of(nodes@).len() implies 0 < #[trigger] depths_of(
            nodes@,
        )[k] <= depths_of(nodes@)[k - 1] + 1 by {
            assert(0 < nodes[k].depth <= nodes[k - 1].depth + 1);
        }
        Some(SyntaxTree { nodes })
    }

    /// How many nodes the tree has.
    pub fn len(&self) -> (n: usize)
        ensures
            n == self@.len(),
    {
        self.nodes.len()
    }

    /// The node at place `i` in document order.
    pub fn node(&self, i: usize) -> (node: SyntaxNode<'tree>)
        requires
            i < self@.len(),
        ensures
            node == self@[i as int],
    {
        self.nodes[i]
    }

    /// The place of the parent of node `i`; the root has none.
    pub fn parent(&self, i: usize) -> (parent: Option<usize>)
        requires
            self.wf(),
            i < self@.len(),
        ensures
            i == 0 <==> parent is None,
            parent matches Some(p) ==> {
                &&& p as int == parent_of(self.depths(), i as int)
                &&& p < i
                &&& self@[p as int].depth + 1 == self@[i as int].depth
            },
    {
        if i == 0 {
            return None;
        }
        let depth = self.nodes[i].depth;
        let ghost depths = self.depths();
        assert(depths[i as int] == depth);
        let mut j: usize = i - 1;
        while j > 0 && self.nodes[j].depth >= depth
            invariant
                j < i < self@.len(),
                depths == self.depths(),
                depth == depths[i as int],
                climb(depths, j as int, depth as nat) == parent_of(depths, i as int),
            decreases j,
        {
            assert(depths[j as int] == self.nodes[j as int].depth);
            j -= 1;
        }
        proof {
            assert(depths[j as int] == self.nodes[j as int].depth);
            lemma_parent(depths, i as int);
        }
        Some(j)
    }

    /// The children of node `i`, from left to right.
    pub fn children(&self, i: usize) -> (children: Vec<SyntaxNode<'tree>>)
        requires
            self.wf(),
            i < self@.len(),
        ensures
            children@ == children_of(self@, i as int),
    {
        let depth = self.nodes[i].depth;
        let ghost depths = self.depths();
        assert(depths[i as int] == depth);
        let mut children: Vec<SyntaxNode<'tree>> = Vec::new();
        let len = self.nodes.len();
        let mut j: usize = i + 1;
        while j < len && self.nodes[j].depth > depth
            invariant
                i < j <= self@.len(),
                len == self@.len(),
                depths == self.depths(),
                depth == depths[i as int],
                forall|k: int| i < k < j ==> #[trigger] depths[k] > depth,
                children@ == child_nodes(self@, i as int, j as int),
            decreases self@.len() - j,
        {
            assert(depths[j as int] == self.nodes[j as int].depth);
            if self.nodes[j].depth - 1 == depth {
                children.push(self.nodes[j]);
            }
            j += 1;
        }
        proof {
            if j < self@.len() {
                assert(depths[j as int] == self.nodes[j as int].depth);
            }
            lemma_skip_deeper(depths, i + 1, j as int, depth as nat);
        }
        children
    }
}

} // verus!
