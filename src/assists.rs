//! The request context: cursor resolution and the list of offered assists.
use vstd::prelude::*;
use crate::diagnostic::Diagnostic;
use crate::edit::TextEdit;
use crate::range::TextRange;
use crate::tree::{Node, NodeKind, Tree};

verus! {

/// How an editor should present an assist.
#[derive(Clone, Copy, Debug, PartialEq, Eq, Structural)]
pub enum AssistKind {
    QuickFix,
    RefactorRewrite,
}

/// An offered change: a stable identifier, a label for display, a kind, and
/// the edits to apply together.
#[derive(Debug)]
pub struct Assist {
    pub id: String,
    pub label: String,
    pub kind: AssistKind,
    pub edits: Vec<TextEdit>,
}

/// Node `n` has kind `kind` and its range holds the cursor.
pub open spec fn is_covering(nodes: Seq<Node>, cursor: TextRange, kind: NodeKind, n: int) -> bool {
    0 <= n < nodes.len() && nodes[n].kind == kind && cursor.within(nodes[n].range)
}

/// Node `n` is the first of the shortest nodes that cover the cursor with
/// kind `kind`.
pub open spec fn is_smallest_covering(nodes: Seq<Node>, cursor: TextRange, kind: NodeKind, n: int) -> bool {
    &&& is_covering(nodes, cursor, kind, n)
    &&& forall|j: int|
        0 <= j < n && #[trigger] is_covering(nodes, cursor, kind, j) ==> nodes[j].range.len_spec()
            > nodes[n].range.len_spec()
    &&& forall|j: int|
        n < j < nodes.len() && #[trigger] is_covering(nodes, cursor, kind, j) ==> nodes[j].range.len_spec()
            >= nodes[n].range.len_spec()
}

/// The smallest node of kind `kind` that holds the cursor, if any.
pub open spec fn covering_node_spec(nodes: Seq<Node>, cursor: TextRange, kind: NodeKind) -> Option<int> {
    if exists|n: int| is_smallest_covering(nodes, cursor, kind, n) {
        Some(choose|n: int| is_smallest_covering(nodes, cursor, kind, n))
    } else {
        None
    }
}

/// At most one node is the first of the shortest covering nodes.
pub proof fn lemma_smallest_covering_unique(nodes: Seq<Node>, cursor: TextRange, kind: NodeKind, a: int, b: int)
    requires
        is_smallest_covering(nodes, cursor, kind, a),
        is_smallest_covering(nodes, cursor, kind, b),
    ensures
        a == b,
{
    if a < b {
        assert(is_covering(nodes, cursor, kind, a));
        assert(is_covering(nodes, cursor, kind, b));
    } else if b < a {
        assert(is_covering(nodes, cursor, kind, a));
        assert(is_covering(nodes, cursor, kind, b));
    }
}

/// The smallest node of kind `kind` whose range holds `cursor`: among nodes
/// of equal length, the first.
pub fn covering_node(tree: &Tree, cursor: TextRange, kind: NodeKind) -> (r: Option<usize>)
    requires
        tree.wf(),
    ensures
        r.is_some() == covering_node_spec(tree.nodes@, cursor, kind).is_some(),
        r.is_some() ==> covering_node_spec(tree.nodes@, cursor, kind) == Some(r.unwrap() as int),
{
    let ghost nodes = tree.nodes@;
    let mut best: Option<usize> = None;
    let mut i: usize = 0;
    while i < tree.nodes.len()
        invariant
            tree.wf(),
            nodes == tree.nodes@,
            i <= nodes.len(),
            best.is_none() ==> forall|j: int| 0 <= j < i ==> !#[trigger] is_covering(nodes, cursor, kind, j),
            best.is_some() ==> {
                let b = best.unwrap() as int;
                &&& b < i
                &&& is_covering(nodes, cursor, kind, b)
                &&& forall|j: int|
                    0 <= j < b && #[trigger] is_covering(nodes, cursor, kind, j) ==> nodes[j].range.len_spec()
                        > nodes[b].range.len_spec()
                &&& forall|j: int|
                    b < j < i && #[trigger] is_covering(nodes, cursor, kind, j) ==> nodes[j].range.len_spec()
                        >= nodes[b].range.len_spec()
            },
        decreases nodes.len() - i,
    {
        let n = tree.nodes[i];
        proof {
            assert(crate::tree::node_wf(nodes[i as int], tree.tokens@, tree.text_len as int));
        }
        if n.kind == kind && n.range.contains_range(cursor) {
            match best {
                None => {
                    best = Some(i);
                },
                Some(b) => {
                    let bn = tree.nodes[b];
                    proof {
                        assert(crate::tree::node_wf(nodes[b as int], tree.tokens@, tree.text_len as int));
                    }
                    if n.range.len() < bn.range.len() {
                        best = Some(i);
                    }
                },
            }
        }
        i = i + 1;
    }
    match best {
        Some(b) => {
            proof {
                assert(is_smallest_covering(nodes, cursor, kind, b as int));
                let c = choose|n: int| is_smallest_covering(nodes, cursor, kind, n);
                lemma_smallest_covering_unique(nodes, cursor, kind, b as int, c);
            }
        },
        None => {
            proof {
                if exists|n: int| is_smallest_covering(nodes, cursor, kind, n) {
                    let c = choose|n: int| is_smallest_covering(nodes, cursor, kind, n);
                    assert(is_covering(nodes, cursor, kind, c));
                }
            }
        },
    }
    best
}

/// One resolution request: the tree and diagnostics of a snapshot, the
/// caller's cursor, and the assists offered so far.
pub struct AssistsCtx<'a> {
    pub tree: &'a Tree,
    pub diagnostics: &'a Vec<Diagnostic>,
    pub frange: TextRange,
    pub assists: Vec<Assist>,
}

/// `a` has the given identifier, label, kind and edits.
pub open spec fn assist_is(a: Assist, id: Seq<char>, label: Seq<char>, kind: AssistKind, edits: Seq<TextEdit>) -> bool {
    &&& a.id@ == id
    &&& a.label@ == label
    &&& a.kind == kind
    &&& a.edits@ == edits
}

impl<'a> AssistsCtx<'a> {
    /// A request with nothing offered yet.
    pub fn new(tree: &'a Tree, diagnostics: &'a Vec<Diagnostic>, frange: TextRange) -> (r: AssistsCtx<'a>)
        ensures
            r.tree == tree,
            r.diagnostics == diagnostics,
            r.frange == frange,
            r.assists@.len() == 0,
    {
        AssistsCtx { tree, diagnostics, frange, assists: Vec::new() }
    }

    /// The smallest node of kind `kind` that holds the cursor.
    pub fn covering_node(&self, kind: NodeKind) -> (r: Option<usize>)
        requires
            self.tree.wf(),
        ensures
            r.is_some() == covering_node_spec(self.tree.nodes@, self.frange, kind).is_some(),
            r.is_some() ==> covering_node_spec(self.tree.nodes@, self.frange, kind) == Some(
                r.unwrap() as int,
            ),
    {
        covering_node(self.tree, self.frange, kind)
    }

    /// Offers an assist: appends it to the list, after those already there.
    pub fn add(&mut self, id: &str, label: &str, kind: AssistKind, edits: Vec<TextEdit>)
        ensures
            final(self).tree == old(self).tree,
            final(self).diagnostics == old(self).diagnostics,
            final(self).frange == old(self).frange,
            final(self).assists@.len() == old(self).assists@.len() + 1,
            final(self).assists@.drop_last() == old(self).assists@,
            assist_is(final(self).assists@.last(), id@, label@, kind, edits@),
    {
        let a = Assist { id: id.to_owned(), label: label.to_owned(), kind, edits };
        self.assists.push(a);
    }
}

} // verus!
