//! Text edits, and the deletion range that takes trailing trivia along.
use vstd::prelude::*;
use crate::range::TextRange;
use crate::tree::{is_trivia_spec, lemma_tokens_ordered, tokens_partition, Token};

verus! {

/// Replace the text in `delete` by `insert`.
#[derive(Debug)]
pub struct TextEdit {
    pub delete: TextRange,
    pub insert: String,
}

/// The index of the last token of the run of trivia that follows token `i`,
/// or `i` when a significant token or the end comes right after it.
pub open spec fn trivia_run_last(tokens: Seq<Token>, i: int) -> int
    decreases tokens.len() - i,
{
    if 0 <= i && i + 1 < tokens.len() && is_trivia_spec(tokens[i + 1].kind) {
        trivia_run_last(tokens, i + 1)
    } else {
        i
    }
}

/// The range a removal of token `anchor` deletes: the token and all trivia
/// right after it.
pub open spec fn deletion_range_spec(tokens: Seq<Token>, anchor: int) -> TextRange {
    TextRange {
        start: tokens[anchor].range.start,
        end: tokens[trivia_run_last(tokens, anchor)].range.end,
    }
}

/// The text after applying `e` to `text`.
pub open spec fn applied(text: Seq<u8>, e: TextEdit) -> Seq<u8> {
    text.subrange(0, e.delete.start as int) + vstd::utf8::encode_utf8(e.insert@)
        + text.subrange(e.delete.end as int, text.len() as int)
}

/// The trivia run after token `i` ends at a token of the text, holds only
/// trivia, and is followed by a significant token or by the end.
pub proof fn lemma_trivia_run_last_bounds(tokens: Seq<Token>, i: int)
    requires
        0 <= i < tokens.len(),
    ensures
        i <= trivia_run_last(tokens, i) < tokens.len(),
        forall|k: int| i < k <= trivia_run_last(tokens, i) ==> is_trivia_spec(#[trigger] tokens[k].kind),
        trivia_run_last(tokens, i) + 1 < tokens.len() ==> !is_trivia_spec(
            tokens[trivia_run_last(tokens, i) + 1].kind,
        ),
    decreases tokens.len() - i,
{
    if i + 1 < tokens.len() && is_trivia_spec(tokens[i + 1].kind) {
        lemma_trivia_run_last_bounds(tokens, i + 1);
    }
}

/// The deletion range that removes a token starts at the token and takes
/// along every trivia token that follows it without a significant token in
/// between; it ends where the next significant token starts, and holds no
/// part of it.
pub proof fn lemma_deletion_range_trivia_boundary(tokens: Seq<Token>, len: int, anchor: int)
    requires
        tokens_partition(tokens, len),
        0 <= anchor < tokens.len(),
    ensures
        ({
            let d = deletion_range_spec(tokens, anchor);
            &&& d.wf()
            &&& d.start == tokens[anchor].range.start
            &&& tokens[anchor].range.within(d)
            &&& forall|k: int|
                anchor < k < tokens.len() && (forall|j: int| anchor < j <= k ==> is_trivia_spec(#[trigger] tokens[j].kind))
                    ==> #[trigger] tokens[k].range.within(d)
            &&& forall|k: int|
                anchor < k < tokens.len() && #[trigger] tokens[k].range.start < d.end ==> is_trivia_spec(tokens[k].kind)
            &&& forall|k: int|
                anchor < k < tokens.len() && !is_trivia_spec(#[trigger] tokens[k].kind) ==> d.end
                    <= tokens[k].range.start
            &&& (forall|k: int| anchor < k < tokens.len() ==> !is_trivia_spec(#[trigger] tokens[k].kind)) ==> d
                == tokens[anchor].range
        }),
{
    let d = deletion_range_spec(tokens, anchor);
    let last = trivia_run_last(tokens, anchor);
    lemma_trivia_run_last_bounds(tokens, anchor);
    assert(tokens[anchor].range.start < tokens[anchor].range.end);
    assert(tokens[last].range.start < tokens[last].range.end);
    if anchor < last {
        lemma_tokens_ordered(tokens, len, anchor, last);
    }
    assert forall|k: int| anchor < k < tokens.len() && #[trigger] tokens[k].range.start < d.end implies is_trivia_spec(
        tokens[k].kind,
    ) by {
        if k > last {
            lemma_tokens_ordered(tokens, len, last, k);
        }
    }
    assert forall|k: int| anchor < k < tokens.len() && !is_trivia_spec(#[trigger] tokens[k].kind) implies d.end
        <= tokens[k].range.start by {
        assert(k > last);
        lemma_tokens_ordered(tokens, len, last, k);
    }
    assert forall|k: int|
        anchor < k < tokens.len() && (forall|j: int| anchor < j <= k ==> is_trivia_spec(#[trigger] tokens[j].kind))
            implies #[trigger] tokens[k].range.within(d) by {
        if k > last {
            assert(is_trivia_spec(tokens[last + 1].kind));
        }
        assert(k <= last);
        lemma_tokens_ordered(tokens, len, anchor, k);
        assert(tokens[k].range.start < tokens[k].range.end);
        if k < last {
            lemma_tokens_ordered(tokens, len, k, last);
        }
    }
    if forall|k: int| anchor < k < tokens.len() ==> !is_trivia_spec(#[trigger] tokens[k].kind) {
        if last > anchor {
            assert(is_trivia_spec(tokens[last].kind));
        }
    }
}

/// The index of the last trivia token in the run right after `anchor`, or
/// `anchor` itself when none follows.
pub fn trailing_trivia_end(tokens: &Vec<Token>, anchor: usize) -> (r: usize)
    requires
        anchor < tokens@.len(),
    ensures
        r == trivia_run_last(tokens@, anchor as int),
{
    let n = tokens.len();
    let mut i = anchor;
    while i + 1 < n && tokens[i + 1].kind.is_trivia()
        invariant
            n == tokens@.len(),
            anchor <= i < tokens@.len(),
            trivia_run_last(tokens@, i as int) == trivia_run_last(tokens@, anchor as int),
        decreases tokens@.len() - i,
    {
        i = i + 1;
    }
    i
}

/// The range that removing token `anchor` deletes: the token with all the
/// trivia that follows it, up to the next significant token.
pub fn deletion_range(tokens: &Vec<Token>, anchor: usize) -> (r: TextRange)
    requires
        anchor < tokens@.len(),
    ensures
        r == deletion_range_spec(tokens@, anchor as int),
{
    let last = trailing_trivia_end(tokens, anchor);
    proof {
        lemma_trivia_run_last_bounds(tokens@, anchor as int);
    }
    TextRange { start: tokens[anchor].range.start, end: tokens[last].range.end }
}

/// The edit that removes token `anchor` with its trailing trivia.
pub fn removal_edit(tokens: &Vec<Token>, anchor: usize) -> (r: TextEdit)
    requires
        anchor < tokens@.len(),
    ensures
        r.delete == deletion_range_spec(tokens@, anchor as int),
        r.insert@ == Seq::<char>::empty(),
{
    TextEdit { delete: deletion_range(tokens, anchor), insert: String::new() }
}

/// `text` with the edit applied.
pub fn apply_edit(text: &[u8], e: &TextEdit) -> (r: Vec<u8>)
    requires
        e.delete.start <= e.delete.end <= text@.len(),
    ensures
        r@ == applied(text@, *e),
{
    let ins = e.insert.as_str().as_bytes();
    let mut out: Vec<u8> = Vec::new();
    let mut i: usize = 0;
    while i < e.delete.start
        invariant
            i <= e.delete.start <= e.delete.end <= text@.len(),
            out@ == text@.subrange(0, i as int),
        decreases e.delete.start - i,
    {
        out.push(text[i]);
        i = i + 1;
        assert(out@ =~= text@.subrange(0, i as int));
    }
    let mut j: usize = 0;
    while j < ins.len()
        invariant
            j <= ins@.len(),
            out@ == text@.subrange(0, e.delete.start as int) + ins@.subrange(0, j as int),
        decreases ins@.len() - j,
    {
        out.push(ins[j]);
        j = j + 1;
        assert(out@ =~= text@.subrange(0, e.delete.start as int) + ins@.subrange(0, j as int));
    }
    assert(ins@.subrange(0, ins@.len() as int) =~= ins@);
    let mut k = e.delete.end;
    while k < text.len()
        invariant
            e.delete.end <= k <= text@.len(),
            out@ == text@.subrange(0, e.delete.start as int) + ins@ + text@.subrange(
                e.delete.end as int,
                k as int,
            ),
        decreases text@.len() - k,
    {
        out.push(text[k]);
        k = k + 1;
        assert(out@ =~= text@.subrange(0, e.delete.start as int) + ins@ + text@.subrange(
            e.delete.end as int,
            k as int,
        ));
    }
    out
}

} // verus!
