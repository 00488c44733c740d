//! Builds the tree: the root, and one attribute-set node for each `{`.
use vstd::prelude::*;
use vstd::string::StringSliceAdditionalSpecFns;
use crate::lexer::{lex, token_text_ok};
use crate::edit::trivia_run_last;
use crate::range::TextRange;
use crate::tree::{
    is_trivia_spec, lemma_tokens_ordered, node_wf, tokens_partition, Node, NodeKind, SyntaxKind,
    Token, Tree,
};

verus! {

/// The index of the `}` that closes the `{` at `open`, if the text has one.
fn matching_close(tokens: &Vec<Token>, open: usize) -> (r: Option<usize>)
    requires
        open < tokens@.len(),
    ensures
        r.is_some() ==> open < r.unwrap() < tokens@.len() && tokens@[r.unwrap() as int].kind
            == SyntaxKind::RCurly,
{
    let n = tokens.len();
    let mut depth: usize = 0;
    let mut i = open + 1;
    while i < n
        invariant
            n == tokens@.len(),
            open < i <= tokens@.len(),
        decreases tokens@.len() - i,
    {
        let k = tokens[i].kind;
        if k == SyntaxKind::LCurly {
            depth = if depth < usize::MAX { depth + 1 } else { depth };
        } else if k == SyntaxKind::RCurly {
            if depth == 0 {
                return Some(i);
            }
            depth = depth - 1;
        }
        i = i + 1;
    }
    None
}

/// Token `j` is the last significant token before token `at`.
pub open spec fn is_prev_significant(tokens: Seq<Token>, at: int, j: int) -> bool {
    &&& 0 <= j < at
    &&& !is_trivia_spec(tokens[j].kind)
    &&& forall|k: int| j < k < at ==> is_trivia_spec(#[trigger] tokens[k].kind)
}

/// The `rec` that an attribute set opened by the `{` at `open` carries: the
/// last significant token before the brace, when that is a `rec` keyword.
pub open spec fn rec_before(tokens: Seq<Token>, open: int) -> Option<usize> {
    if exists|j: int| is_prev_significant(tokens, open, j) && tokens[j].kind == SyntaxKind::KwRec {
        Some((choose|j: int| is_prev_significant(tokens, open, j) && tokens[j].kind == SyntaxKind::KwRec) as usize)
    } else {
        None
    }
}

/// A token has at most one last significant token before it.
proof fn lemma_prev_significant_unique(tokens: Seq<Token>, at: int, a: int, b: int)
    requires
        is_prev_significant(tokens, at, a),
        is_prev_significant(tokens, at, b),
    ensures
        a == b,
{
    if a < b {
        assert(is_trivia_spec(tokens[b].kind));
    } else if b < a {
        assert(is_trivia_spec(tokens[a].kind));
    }
}

/// The index of the last significant token before `at`, with only trivia
/// between the two.
fn prev_significant(tokens: &Vec<Token>, at: usize) -> (r: Option<usize>)
    requires
        at <= tokens@.len(),
    ensures
        r.is_some() ==> r.unwrap() < at && !is_trivia_spec(tokens@[r.unwrap() as int].kind),
        r.is_some() ==> forall|k: int| r.unwrap() < k < at ==> is_trivia_spec(#[trigger] tokens@[k].kind),
        r.is_none() ==> forall|k: int| 0 <= k < at ==> is_trivia_spec(#[trigger] tokens@[k].kind),
{
    let mut i = at;
    while i > 0
        invariant
            i <= at <= tokens@.len(),
            forall|k: int| i <= k < at ==> is_trivia_spec(#[trigger] tokens@[k].kind),
        decreases i,
    {
        i = i - 1;
        if !tokens[i].kind.is_trivia() {
            return Some(i);
        }
    }
    None
}

/// With only trivia between tokens `i` and `stop`, and a significant token
/// at `stop`, the trivia run after `i` ends right before `stop`.
proof fn lemma_trivia_run_to(tokens: Seq<Token>, i: int, stop: int)
    requires
        0 <= i < stop < tokens.len(),
        !is_trivia_spec(tokens[stop].kind),
        forall|k: int| i < k < stop ==> is_trivia_spec(#[trigger] tokens[k].kind),
    ensures
        trivia_run_last(tokens, i) == stop - 1,
    decreases stop - i,
{
    if i + 1 < stop {
        lemma_trivia_run_to(tokens, i + 1, stop);
    }
}

/// The attribute-set node opened by the `{` at `open`: it starts at a `rec`
/// keyword right before the brace, if there is one, and ends with the
/// matching `}` or the text.
fn attr_set_node(tokens: &Vec<Token>, len: usize, open: usize) -> (r: Node)
    requires
        tokens_partition(tokens@, len as int),
        open < tokens@.len(),
        tokens@[open as int].kind == SyntaxKind::LCurly,
    ensures
        node_wf(r, tokens@, len as int),
        r.kind == NodeKind::AttrSet,
        r.open_token == Some(open),
        r.rec_token == rec_before(tokens@, open as int),
{
    let last = tokens.len() - 1;
    let end = match matching_close(tokens, open) {
        Some(j) => {
            proof {
                lemma_tokens_ordered(tokens@, len as int, open as int, j as int);
                if j < last {
                    lemma_tokens_ordered(tokens@, len as int, j as int, last as int);
                }
            }
            tokens[j].range.end
        },
        None => len,
    };
    proof {
        if open < last {
            lemma_tokens_ordered(tokens@, len as int, open as int, last as int);
        }
        assert(tokens@[open as int].range.start < tokens@[open as int].range.end);
    }
    let ghost ts = tokens@;
    let ghost o = open as int;
    let (start, rec_token) = match prev_significant(tokens, open) {
        Some(j) => {
            proof {
                assert(is_prev_significant(ts, o, j as int));
                if exists|j2: int| is_prev_significant(ts, o, j2) && ts[j2].kind == SyntaxKind::KwRec {
                    let c = choose|j2: int| is_prev_significant(ts, o, j2) && ts[j2].kind == SyntaxKind::KwRec;
                    lemma_prev_significant_unique(ts, o, j as int, c);
                }
            }
            if tokens[j].kind == SyntaxKind::KwRec {
                proof {
                    lemma_tokens_ordered(tokens@, len as int, j as int, open as int);
                    lemma_trivia_run_to(tokens@, j as int, open as int);
                }
                (tokens[j].range.start, Some(j))
            } else {
                (tokens[open].range.start, None)
            }
        },
        None => {
            proof {
                if exists|j2: int| is_prev_significant(ts, o, j2) && ts[j2].kind == SyntaxKind::KwRec {
                    let c = choose|j2: int| is_prev_significant(ts, o, j2) && ts[j2].kind == SyntaxKind::KwRec;
                    assert(is_trivia_spec(ts[c].kind));
                }
            }
            (tokens[open].range.start, None)
        },
    };
    Node { kind: NodeKind::AttrSet, range: TextRange { start, end }, open_token: Some(open), rec_token }
}

/// Node `k` of `nodes` is the attribute set opened by a `{` before token
/// `upto`, and carries the `rec` right before that brace, if any.
pub open spec fn is_attr_set_of_brace(nodes: Seq<Node>, tokens: Seq<Token>, k: int, upto: int) -> bool {
    let b = nodes[k].open_token.unwrap() as int;
    &&& nodes[k].kind == NodeKind::AttrSet
    &&& nodes[k].open_token.is_some()
    &&& 0 <= b < upto
    &&& tokens[b].kind == SyntaxKind::LCurly
    &&& nodes[k].rec_token == rec_before(tokens, b)
}

/// The tree has the root over the whole text first, then one attribute
/// set for each `{`, in the order of the braces.
pub open spec fn tree_shape(nodes: Seq<Node>, tokens: Seq<Token>, len: int) -> bool {
    &&& nodes.len() >= 1
    &&& nodes[0] == (Node {
        kind: NodeKind::Root,
        range: TextRange { start: 0, end: len as usize },
        open_token: None,
        rec_token: None,
    })
    &&& forall|k: int| 1 <= k < nodes.len() ==> #[trigger] is_attr_set_of_brace(nodes, tokens, k, tokens.len() as int)
    &&& forall|k1: int, k2: int|
        1 <= k1 < k2 < nodes.len() ==> #[trigger] nodes[k1].open_token.unwrap() < #[trigger] nodes[k2].open_token.unwrap()
    &&& forall|b: int|
        0 <= b < tokens.len() && #[trigger] tokens[b].kind == SyntaxKind::LCurly ==> exists|k: int|
            1 <= k < nodes.len() && #[trigger] nodes[k].open_token == Some(b as usize)
}

/// Lexes `text` and builds its tree.
pub fn parse_bytes(text: &[u8]) -> (r: Tree)
    ensures
        r.wf(),
        tree_shape(r.nodes@, r.tokens@, text@.len() as int),
        r.text_len == text@.len(),
        forall|i: int| 0 <= i < r.tokens@.len() ==> token_text_ok(text@, #[trigger] r.tokens@[i]),
{
    let tokens = lex(text);
    let len = text.len();
    let mut nodes: Vec<Node> = Vec::new();
    nodes.push(
        Node { kind: NodeKind::Root, range: TextRange { start: 0, end: len }, open_token: None, rec_token: None },
    );
    let mut i: usize = 0;
    while i < tokens.len()
        invariant
            i <= tokens@.len(),
            len == text@.len(),
            tokens_partition(tokens@, len as int),
            forall|k: int| 0 <= k < nodes@.len() ==> node_wf(#[trigger] nodes@[k], tokens@, len as int),
            nodes@.len() >= 1,
            nodes@[0] == (Node {
                kind: NodeKind::Root,
                range: TextRange { start: 0, end: len },
                open_token: None,
                rec_token: None,
            }),
            forall|k: int| 1 <= k < nodes@.len() ==> #[trigger] is_attr_set_of_brace(nodes@, tokens@, k, i as int),
            forall|k1: int, k2: int|
                1 <= k1 < k2 < nodes@.len() ==> #[trigger] nodes@[k1].open_token.unwrap()
                    < #[trigger] nodes@[k2].open_token.unwrap(),
            forall|b: int|
                0 <= b < i && #[trigger] tokens@[b].kind == SyntaxKind::LCurly ==> exists|k: int|
                    1 <= k < nodes@.len() && #[trigger] nodes@[k].open_token == Some(b as usize),
        decreases tokens@.len() - i,
    {
        if tokens[i].kind == SyntaxKind::LCurly {
            let n = attr_set_node(&tokens, len, i);
            let ghost old_nodes = nodes@;
            nodes.push(n);
            proof {
                assert forall|k: int| 1 <= k < nodes@.len() implies #[trigger] is_attr_set_of_brace(
                    nodes@,
                    tokens@,
                    k,
                    i + 1,
                ) by {
                    if k < old_nodes.len() {
                        assert(nodes@[k] == old_nodes[k]);
                        assert(is_attr_set_of_brace(old_nodes, tokens@, k, i as int));
                    }
                }
                assert forall|k1: int, k2: int| 1 <= k1 < k2 < nodes@.len() implies #[trigger] nodes@[k1].open_token.unwrap()
                    < #[trigger] nodes@[k2].open_token.unwrap() by {
                    assert(nodes@[k1] == old_nodes[k1]);
                    if k2 < old_nodes.len() {
                        assert(nodes@[k2] == old_nodes[k2]);
                    } else {
                        assert(is_attr_set_of_brace(old_nodes, tokens@, k1, i as int));
                    }
                }
                assert forall|b: int|
                    0 <= b < i + 1 && #[trigger] tokens@[b].kind == SyntaxKind::LCurly implies exists|k: int|
                    1 <= k < nodes@.len() && #[trigger] nodes@[k].open_token == Some(b as usize) by {
                    if b < i {
                        let k = choose|k: int| 1 <= k < old_nodes.len() && #[trigger] old_nodes[k].open_token == Some(b as usize);
                        assert(nodes@[k] == old_nodes[k]);
                    } else {
                        assert(nodes@[old_nodes.len() as int].open_token == Some(b as usize));
                    }
                }
            }
        } else {
            proof {
                assert forall|k: int| 1 <= k < nodes@.len() implies #[trigger] is_attr_set_of_brace(
                    nodes@,
                    tokens@,
                    k,
                    i + 1,
                ) by {
                    assert(is_attr_set_of_brace(nodes@, tokens@, k, i as int));
                }
            }
        }
        i = i + 1;
    }
    Tree { text_len: len, tokens, nodes }
}

/// Lexes `src` and builds its tree; offsets count bytes.
pub fn parse(src: &str) -> (r: Tree)
    ensures
        r.wf(),
        tree_shape(r.nodes@, r.tokens@, src.spec_bytes().len() as int),
        r.text_len == src.spec_bytes().len(),
        forall|i: int| 0 <= i < r.tokens@.len() ==> token_text_ok(src.spec_bytes(), #[trigger] r.tokens@[i]),
{
    parse_bytes(src.as_bytes())
}

} // verus!
