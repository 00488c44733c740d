//! Cuts source text into tokens.
use vstd::prelude::*;
use crate::range::TextRange;
use crate::tree::{SyntaxKind, Token, tokens_partition};

verus! {

pub open spec fn is_ws_byte(c: u8) -> bool {
    c == 32 || c == 9 || c == 10 || c == 13
}

pub open spec fn is_ident_start_byte(c: u8) -> bool {
    (97 <= c <= 122) || (65 <= c <= 90) || c == 95
}

pub open spec fn is_digit_byte(c: u8) -> bool {
    48 <= c <= 57
}

pub open spec fn is_ident_byte(c: u8) -> bool {
    is_ident_start_byte(c) || is_digit_byte(c) || c == 39 || c == 45
}

/// What the text of a token of each kind is made of, and the kind that
/// whitespace, comments and the word `rec` get.
pub open spec fn token_text_ok(text: Seq<u8>, t: Token) -> bool {
    let s = text.subrange(t.range.start as int, t.range.end as int);
    &&& t.kind == SyntaxKind::Whitespace ==> forall|i: int| 0 <= i < s.len() ==> is_ws_byte(#[trigger] s[i])
    &&& t.kind == SyntaxKind::Comment ==> s[0] == 35 || (s.len() >= 2 && s[0] == 47 && s[1] == 42)
    &&& is_ws_byte(s[0]) ==> t.kind == SyntaxKind::Whitespace
    &&& (s[0] == 35 || (s.len() >= 2 && s[0] == 47 && s[1] == 42)) ==> t.kind == SyntaxKind::Comment
    &&& t.kind == SyntaxKind::KwRec <==> s == seq![114u8, 101u8, 99u8]
    &&& t.kind == SyntaxKind::LCurly ==> s == seq![123u8]
    &&& t.kind == SyntaxKind::RCurly ==> s == seq![125u8]
}

fn is_ws(c: u8) -> (r: bool)
    ensures
        r == is_ws_byte(c),
{
    c == 32 || c == 9 || c == 10 || c == 13
}

fn is_ident_start(c: u8) -> (r: bool)
    ensures
        r == is_ident_start_byte(c),
{
    (97 <= c && c <= 122) || (65 <= c && c <= 90) || c == 95
}

fn is_digit(c: u8) -> (r: bool)
    ensures
        r == is_digit_byte(c),
{
    48 <= c && c <= 57
}

fn is_ident(c: u8) -> (r: bool)
    ensures
        r == is_ident_byte(c),
{
    is_ident_start(c) || is_digit(c) || c == 39 || c == 45
}

/// The end of the run of bytes from `pos` on that satisfy the class:
/// 0 whitespace, 1 identifier, 2 digit.
fn run_end(text: &[u8], pos: usize, class: u8) -> (r: usize)
    requires
        pos <= text@.len(),
        class <= 2,
    ensures
        pos <= r <= text@.len(),
        forall|i: int| pos <= i < r ==> in_class(#[trigger] text@[i], class),
        r < text@.len() ==> !in_class(text@[r as int], class),
{
    let mut i = pos;
    while i < text.len()
        invariant
            pos <= i <= text@.len(),
            class <= 2,
            forall|k: int| pos <= k < i ==> in_class(#[trigger] text@[k], class),
        decreases text@.len() - i,
    {
        let c = text[i];
        let ok = if class == 0 { is_ws(c) } else if class == 1 { is_ident(c) } else { is_digit(c) };
        if !ok {
            return i;
        }
        i = i + 1;
    }
    i
}

pub open spec fn in_class(c: u8, class: u8) -> bool {
    if class == 0 { is_ws_byte(c) } else if class == 1 { is_ident_byte(c) } else { is_digit_byte(c) }
}

/// The offset just past the end of the block comment whose body starts at
/// `pos`: past the first `*/`, or the end of the text.
fn block_comment_end(text: &[u8], pos: usize) -> (r: usize)
    requires
        pos <= text@.len(),
    ensures
        pos <= r <= text@.len(),
{
    let mut i = pos;
    while i < text.len()
        invariant
            pos <= i <= text@.len(),
        decreases text@.len() - i,
    {
        if text[i] == 42 && i + 1 < text.len() && text[i + 1] == 47 {
            return i + 2;
        }
        i = i + 1;
    }
    i
}

/// The offset of the next newline from `pos` on, or the end of the text.
fn line_end(text: &[u8], pos: usize) -> (r: usize)
    requires
        pos <= text@.len(),
    ensures
        pos <= r <= text@.len(),
{
    let mut i = pos;
    while i < text.len()
        invariant
            pos <= i <= text@.len(),
        decreases text@.len() - i,
    {
        if text[i] == 10 {
            return i;
        }
        i = i + 1;
    }
    i
}

/// The kind of a word: a keyword or an identifier.
fn word_kind(text: &[u8], start: usize, end: usize) -> (r: SyntaxKind)
    requires
        start <= end <= text@.len(),
    ensures
        r == SyntaxKind::KwRec <==> text@.subrange(start as int, end as int) == seq![114u8, 101u8, 99u8],
        r == SyntaxKind::KwRec || r == SyntaxKind::KwLet || r == SyntaxKind::KwIn || r == SyntaxKind::Ident,
{
    let n = end - start;
    proof {
        let s = text@.subrange(start as int, end as int);
        if s == seq![114u8, 101u8, 99u8] {
            assert(s.len() == 3);
            assert(s[0] == text@[start as int]);
            assert(s[1] == text@[start + 1]);
            assert(s[2] == text@[start + 2]);
        }
    }
    if n == 3 && text[start] == 114 && text[start + 1] == 101 && text[start + 2] == 99 {
        assert(text@.subrange(start as int, end as int) =~= seq![114u8, 101u8, 99u8]);
        SyntaxKind::KwRec
    } else if n == 3 && text[start] == 108 && text[start + 1] == 101 && text[start + 2] == 116 {
        SyntaxKind::KwLet
    } else if n == 2 && text[start] == 105 && text[start + 1] == 110 {
        SyntaxKind::KwIn
    } else {
        SyntaxKind::Ident
    }
}

/// The token that starts at `pos`.
fn next_token(text: &[u8], pos: usize) -> (r: Token)
    requires
        pos < text@.len(),
    ensures
        r.range.start == pos,
        pos < r.range.end <= text@.len(),
        token_text_ok(text@, r),
{
    let c = text[pos];
    let (end, kind) = if is_ws(c) {
        (run_end(text, pos, 0), SyntaxKind::Whitespace)
    } else if c == 35 {
        (line_end(text, pos), SyntaxKind::Comment)
    } else if c == 47 && pos + 1 < text.len() && text[pos + 1] == 42 {
        (block_comment_end(text, pos + 2), SyntaxKind::Comment)
    } else if is_ident_start(c) {
        let e = run_end(text, pos, 1);
        (e, word_kind(text, pos, e))
    } else if is_digit(c) {
        (run_end(text, pos, 2), SyntaxKind::Int)
    } else if c == 123 {
        (pos + 1, SyntaxKind::LCurly)
    } else if c == 125 {
        (pos + 1, SyntaxKind::RCurly)
    } else if c == 59 {
        (pos + 1, SyntaxKind::Semicolon)
    } else if c == 61 {
        (pos + 1, SyntaxKind::Assign)
    } else {
        (pos + 1, SyntaxKind::Other)
    };
    let end = if end == pos { pos + 1 } else { end };
    let r = Token { kind, range: TextRange { start: pos, end } };
    proof {
        let s = text@.subrange(pos as int, end as int);
        assert(s[0] == c);
        if s.len() >= 2 {
            assert(s[1] == text@[pos + 1]);
        }
        if kind == SyntaxKind::LCurly || kind == SyntaxKind::RCurly {
            assert(s =~= seq![c]);
        }
        if kind == SyntaxKind::Whitespace {
            assert forall|i: int| 0 <= i < s.len() implies is_ws_byte(#[trigger] s[i]) by {
                assert(s[i] == text@[pos + i]);
                assert(in_class(text@[pos + i], 0));
            }
        }
    }
    r
}

/// Cuts `text` into tokens that cover it, in order.
pub fn lex(text: &[u8]) -> (r: Vec<Token>)
    ensures
        tokens_partition(r@, text@.len() as int),
        forall|i: int| 0 <= i < r@.len() ==> token_text_ok(text@, #[trigger] r@[i]),
{
    let mut tokens: Vec<Token> = Vec::new();
    let mut pos: usize = 0;
    while pos < text.len()
        invariant
            pos <= text@.len(),
            tokens@.len() == 0 <==> pos == 0,
            tokens@.len() > 0 ==> tokens@[0].range.start == 0 && tokens@.last().range.end == pos,
            forall|i: int| 0 <= i < tokens@.len() ==> #[trigger] tokens@[i].range.start < tokens@[i].range.end,
            forall|i: int|
                0 <= i < tokens@.len() - 1 ==> #[trigger] tokens@[i].range.end == tokens@[i + 1].range.start,
            forall|i: int| 0 <= i < tokens@.len() ==> token_text_ok(text@, #[trigger] tokens@[i]),
        decreases text@.len() - pos,
    {
        let t = next_token(text, pos);
        tokens.push(t);
        pos = t.range.end;
    }
    tokens
}

} // verus!
