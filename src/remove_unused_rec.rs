//! Remove an unused `rec`: `rec { a = 1; }` becomes `{ a = 1; }`.
use vstd::prelude::*;
use crate::assists::{covering_node_spec, is_smallest_covering, AssistKind, AssistsCtx};
use crate::diagnostic::{any_intersecting, has_intersecting, Diagnostic, DiagnosticKind};
use crate::edit::{
    applied, deletion_range_spec, lemma_deletion_range_trivia_boundary, removal_edit, trivia_run_last,
    TextEdit,
};
use crate::lexer::token_text_ok;
use crate::range::TextRange;
use crate::tree::{
    is_trivia_spec, lemma_tokens_ordered, node_wf, tokens_partition, NodeKind, SyntaxKind, Token, Tree,
};

verus! {

/// The `rec` token to remove for a cursor: that of the smallest attribute
/// set holding the cursor, when a diagnostic marks it unused.
pub open spec fn unused_rec_anchor(tree: &Tree, diags: Seq<Diagnostic>, cursor: TextRange) -> Option<int> {
    match covering_node_spec(tree.nodes@, cursor, NodeKind::AttrSet) {
        Some(n) => match tree.nodes@[n].rec_token {
            Some(t) => if has_intersecting(diags, DiagnosticKind::UnusedRec, tree.tokens@[t as int].range) {
                Some(t as int)
            } else {
                None
            },
            None => None,
        },
        None => None,
    }
}

/// The edit offered for a `rec` token: it deletes the token and its
/// trailing trivia and inserts nothing.
pub open spec fn is_rec_removal(tree: &Tree, anchor: int, e: TextEdit) -> bool {
    &&& e.delete == deletion_range_spec(tree.tokens@, anchor)
    &&& e.insert@ == Seq::<char>::empty()
}

/// Where no unused-`rec` diagnostic touches the attribute set that holds
/// the cursor, no removal is offered.
pub proof fn lemma_no_diagnostic_no_removal(tree: &Tree, diags: Seq<Diagnostic>, cursor: TextRange, n: int)
    requires
        tree.wf(),
        covering_node_spec(tree.nodes@, cursor, NodeKind::AttrSet) == Some(n),
        forall|i: int|
            0 <= i < diags.len() && #[trigger] diags[i].kind == DiagnosticKind::UnusedRec ==> !diags[i].range.overlaps(
                tree.nodes@[n].range,
            ),
    ensures
        unused_rec_anchor(tree, diags, cursor).is_none(),
{
    assert(is_smallest_covering(tree.nodes@, cursor, NodeKind::AttrSet, n));
    assert(node_wf(tree.nodes@[n], tree.tokens@, tree.text_len as int));
    if let Some(t) = tree.nodes@[n].rec_token {
        let tr = tree.tokens@[t as int].range;
        if has_intersecting(diags, DiagnosticKind::UnusedRec, tr) {
            let i = choose|i: int|
                0 <= i < diags.len() && #[trigger] diags[i].kind == DiagnosticKind::UnusedRec
                    && diags[i].range.overlaps(tr);
            assert(diags[i].range.overlaps(tree.nodes@[n].range));
        }
    }
}

/// Where an unused-`rec` diagnostic touches the `rec` of the attribute set
/// that holds the cursor, that `rec` is removed: the deletion starts at it,
/// takes along all the trivia that follows it, and stops where the next
/// significant token starts.
pub proof fn lemma_diagnostic_gives_removal(tree: &Tree, diags: Seq<Diagnostic>, cursor: TextRange, n: int, t: usize)
    requires
        tree.wf(),
        covering_node_spec(tree.nodes@, cursor, NodeKind::AttrSet) == Some(n),
        tree.nodes@[n].rec_token == Some(t),
        has_intersecting(diags, DiagnosticKind::UnusedRec, tree.tokens@[t as int].range),
    ensures
        unused_rec_anchor(tree, diags, cursor) == Some(t as int),
        ({
            let tokens = tree.tokens@;
            let d = deletion_range_spec(tokens, t as int);
            &&& d.start == tokens[t as int].range.start
            &&& tokens[t as int].range.within(d)
            &&& forall|k: int|
                t < k < tokens.len() && (forall|j: int| t < j <= k ==> is_trivia_spec(#[trigger] tokens[j].kind))
                    ==> #[trigger] tokens[k].range.within(d)
            &&& forall|k: int|
                t < k < tokens.len() && !is_trivia_spec(#[trigger] tokens[k].kind) ==> d.end
                    <= tokens[k].range.start
        }),
{
    assert(is_smallest_covering(tree.nodes@, cursor, NodeKind::AttrSet, n));
    assert(node_wf(tree.nodes@[n], tree.tokens@, tree.text_len as int));
    lemma_deletion_range_trivia_boundary(tree.tokens@, tree.text_len as int, t as int);
}

/// Removing an unused `rec` leaves its attribute set starting at its `{`:
/// from the offset where the `rec` stood, the new text is the old text from
/// the brace on.
pub proof fn lemma_removal_leaves_brace(
    text: Seq<u8>,
    tree: &Tree,
    diags: Seq<Diagnostic>,
    cursor: TextRange,
    e: TextEdit,
)
    requires
        tree.wf(),
        tree.text_len == text.len(),
        forall|i: int| 0 <= i < tree.tokens@.len() ==> token_text_ok(text, #[trigger] tree.tokens@[i]),
        unused_rec_anchor(tree, diags, cursor).is_some(),
        is_rec_removal(tree, unused_rec_anchor(tree, diags, cursor).unwrap(), e),
    ensures
        ({
            let t = unused_rec_anchor(tree, diags, cursor).unwrap();
            let brace = tree.tokens@[trivia_run_last(tree.tokens@, t) + 1].range.start;
            let out = applied(text, e);
            &&& out.len() == text.len() - (e.delete.end - e.delete.start)
            &&& out.subrange(e.delete.start as int, out.len() as int) == text.subrange(
                brace as int,
                text.len() as int,
            )
            &&& out[e.delete.start as int] == 123u8
        }),
{
    let n = covering_node_spec(tree.nodes@, cursor, NodeKind::AttrSet).unwrap();
    assert(is_smallest_covering(tree.nodes@, cursor, NodeKind::AttrSet, n));
    assert(node_wf(tree.nodes@[n], tree.tokens@, text.len() as int));
    let t = tree.nodes@[n].rec_token.unwrap() as int;
    let b = trivia_run_last(tree.tokens@, t) + 1;
    crate::edit::lemma_trivia_run_last_bounds(tree.tokens@, t);
    assert(token_text_ok(text, tree.tokens@[b]));
    lemma_removal_text(text, tree.tokens@, t, e);
}

proof fn lemma_removal_text(text: Seq<u8>, tokens: Seq<Token>, t: int, e: TextEdit)
    requires
        tokens_partition(tokens, text.len() as int),
        0 <= t < tokens.len(),
        trivia_run_last(tokens, t) + 1 < tokens.len(),
        token_text_ok(text, tokens[trivia_run_last(tokens, t) + 1]),
        tokens[trivia_run_last(tokens, t) + 1].kind == SyntaxKind::LCurly,
        e.delete == deletion_range_spec(tokens, t),
        e.insert@ == Seq::<char>::empty(),
    ensures
        ({
            let brace = tokens[trivia_run_last(tokens, t) + 1].range.start;
            let out = applied(text, e);
            &&& out.len() == text.len() - (e.delete.end - e.delete.start)
            &&& out.subrange(e.delete.start as int, out.len() as int) == text.subrange(
                brace as int,
                text.len() as int,
            )
            &&& out[e.delete.start as int] == 123u8
        }),
{
    let len = text.len() as int;
    let last = trivia_run_last(tokens, t);
    let b = last + 1;
    lemma_deletion_range_trivia_boundary(tokens, len, t);
    crate::edit::lemma_trivia_run_last_bounds(tokens, t);
    assert(tokens[last].range.end == tokens[last + 1].range.start);
    if b < tokens.len() - 1 {
        lemma_tokens_ordered(tokens, len, b, tokens.len() - 1);
    }
    assert(tokens[b].range.start < tokens[b].range.end);
    let bs = tokens[b].range.start as int;
    assert(text.subrange(bs, tokens[b].range.end as int)[0] == text[bs]);
    assert(vstd::utf8::encode_utf8(e.insert@) =~= Seq::<u8>::empty());
    let out = applied(text, e);
    assert(out.subrange(e.delete.start as int, out.len() as int) =~= text.subrange(bs, len));
}

/// Offers to remove the `rec` of the attribute set at the cursor when the
/// analysis found it unused.
pub fn remove_unused_rec(ctx: &mut AssistsCtx<'_>) -> (r: Option<()>)
    requires
        old(ctx).tree.wf(),
    ensures
        final(ctx).tree == old(ctx).tree,
        final(ctx).diagnostics == old(ctx).diagnostics,
        final(ctx).frange == old(ctx).frange,
        r.is_some() == unused_rec_anchor(old(ctx).tree, old(ctx).diagnostics@, old(ctx).frange).is_some(),
        r.is_none() ==> final(ctx).assists@ == old(ctx).assists@,
        r.is_some() ==> {
            let anchor = unused_rec_anchor(old(ctx).tree, old(ctx).diagnostics@, old(ctx).frange).unwrap();
            let a = final(ctx).assists@.last();
            &&& final(ctx).assists@.len() == old(ctx).assists@.len() + 1
            &&& final(ctx).assists@.drop_last() == old(ctx).assists@
            &&& a.id@ == "remove_unused_rec"@
            &&& a.label@ == "Remove unused rec"@
            &&& a.kind == AssistKind::QuickFix
            &&& a.edits@.len() == 1
            &&& is_rec_removal(old(ctx).tree, anchor, a.edits@[0])
        },
{
    let tree = ctx.tree;
    let node = ctx.covering_node(NodeKind::AttrSet)?;
    proof {
        assert(crate::tree::node_wf(tree.nodes@[node as int], tree.tokens@, tree.text_len as int));
    }
    let rec_token = tree.nodes[node].rec_token?;
    let rec_range = tree.tokens[rec_token].range;

    if !any_intersecting(ctx.diagnostics, DiagnosticKind::UnusedRec, rec_range) {
        return None;
    }

    let edit = removal_edit(&tree.tokens, rec_token);
    let edits = vec![edit];
    ctx.add("remove_unused_rec", "Remove unused rec", AssistKind::QuickFix, edits);
    Some(())
}

} // verus!
