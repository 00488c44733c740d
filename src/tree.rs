//! The immutable, range-addressed syntax tree the providers read.
use vstd::prelude::*;
use crate::edit::trivia_run_last;
use crate::range::TextRange;

verus! {

/// What a token is.
#[derive(Clone, Copy, Debug, PartialEq, Eq, Structural)]
pub enum SyntaxKind {
    Whitespace,
    Comment,
    KwRec,
    KwLet,
    KwIn,
    Ident,
    Int,
    LCurly,
    RCurly,
    Semicolon,
    Assign,
    Other,
}

pub open spec fn is_trivia_spec(k: SyntaxKind) -> bool {
    k == SyntaxKind::Whitespace || k == SyntaxKind::Comment
}

impl SyntaxKind {
    /// Whitespace and comments carry no meaning.
    pub fn is_trivia(&self) -> (r: bool)
        ensures
            r == is_trivia_spec(*self),
    {
        match self {
            SyntaxKind::Whitespace | SyntaxKind::Comment => true,
            _ => false,
        }
    }
}

/// A leaf of the tree: a kind and the text it spans.
#[derive(Clone, Copy, Debug, PartialEq, Eq, Structural)]
pub struct Token {
    pub kind: SyntaxKind,
    pub range: TextRange,
}

/// What an inner node is.
#[derive(Clone, Copy, Debug, PartialEq, Eq, Structural)]
pub enum NodeKind {
    Root,
    AttrSet,
}

/// An inner node: its kind, its range, and for an attribute set the index
/// of the `{` token that opens it and of its `rec` keyword token, if it has
/// one.
#[derive(Clone, Copy, Debug, PartialEq, Eq, Structural)]
pub struct Node {
    pub kind: NodeKind,
    pub range: TextRange,
    pub open_token: Option<usize>,
    pub rec_token: Option<usize>,
}

/// The tokens of a text, in order, and the nodes built over them.
#[derive(Debug)]
pub struct Tree {
    pub text_len: usize,
    pub tokens: Vec<Token>,
    pub nodes: Vec<Node>,
}

/// The tokens cut `[0, len)` into consecutive non-empty ranges.
pub open spec fn tokens_partition(tokens: Seq<Token>, len: int) -> bool {
    &&& tokens.len() == 0 <==> len == 0
    &&& tokens.len() > 0 ==> tokens[0].range.start == 0 && tokens.last().range.end == len
    &&& forall|i: int| 0 <= i < tokens.len() ==> #[trigger] tokens[i].range.start < tokens[i].range.end
    &&& forall|i: int|
        0 <= i < tokens.len() - 1 ==> #[trigger] tokens[i].range.end == tokens[i + 1].range.start
}

/// A node lies within the text, and its `rec` token is a `rec` keyword
/// that lies within the node, with only trivia between it and a `{`.
pub open spec fn node_wf(n: Node, tokens: Seq<Token>, len: int) -> bool {
    &&& n.range.wf()
    &&& n.range.end <= len
    &&& n.rec_token.is_some() ==> {
        let t = n.rec_token.unwrap() as int;
        &&& 0 <= t < tokens.len()
        &&& tokens[t].kind == SyntaxKind::KwRec
        &&& tokens[t].range.within(n.range)
        &&& trivia_run_last(tokens, t) + 1 < tokens.len()
        &&& tokens[trivia_run_last(tokens, t) + 1].kind == SyntaxKind::LCurly
    }
}

impl Tree {
    pub open spec fn wf(&self) -> bool {
        &&& tokens_partition(self.tokens@, self.text_len as int)
        &&& forall|i: int|
            0 <= i < self.nodes@.len() ==> node_wf(#[trigger] self.nodes@[i], self.tokens@, self.text_len as int)
    }
}

/// Token `a` comes before token `b`, and so its range ends no later than
/// `b`'s starts.
pub proof fn lemma_tokens_ordered(tokens: Seq<Token>, len: int, a: int, b: int)
    requires
        tokens_partition(tokens, len),
        0 <= a < b < tokens.len(),
    ensures
        tokens[a].range.end <= tokens[b].range.start,
    decreases b - a,
{
    if a + 1 < b {
        lemma_tokens_ordered(tokens, len, a + 1, b);
        assert(tokens[a + 1].range.start < tokens[a + 1].range.end);
    }
    assert(tokens[a].range.end == tokens[a + 1].range.start);
}

} // verus!
