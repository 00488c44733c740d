use ide::assists::{AssistKind, AssistsCtx};
use ide::diagnostic::{Diagnostic, DiagnosticKind};
use ide::edit::apply_edit;
use ide::engine::assists_at;
use ide::parser::parse;
use ide::range::TextRange;
use ide::remove_unused_rec::remove_unused_rec;
use ide::tree::SyntaxKind;

/// Splits a fixture at its `$0` marker: the text without it, and the offset.
fn fixture(src: &str) -> (String, usize) {
    let pos = src.find("$0").expect("fixture has a cursor");
    (src.replacen("$0", "", 1), pos)
}

/// An unused-`rec` diagnostic on the `rec` that starts at the cursor.
fn rec_diagnostic(text: &str, pos: usize) -> Vec<Diagnostic> {
    assert_eq!(&text[pos..pos + 3], "rec");
    vec![Diagnostic { kind: DiagnosticKind::UnusedRec, range: TextRange::new(pos, pos + 3) }]
}

fn run(text: &str, pos: usize, diags: &Vec<Diagnostic>) -> Option<String> {
    let tree = parse(text);
    let assists = assists_at(&tree, diags, TextRange::empty(pos));
    if assists.is_empty() {
        return None;
    }
    assert_eq!(assists.len(), 1);
    let a = &assists[0];
    assert_eq!(a.id, "remove_unused_rec");
    assert_eq!(a.label, "Remove unused rec");
    assert_eq!(a.kind, AssistKind::QuickFix);
    assert_eq!(a.edits.len(), 1);
    let out = apply_edit(text.as_bytes(), &a.edits[0]);
    Some(String::from_utf8(out).unwrap())
}

fn check(src: &str, expect: &str) {
    let (text, pos) = fixture(src);
    let diags = rec_diagnostic(&text, pos);
    assert_eq!(run(&text, pos, &diags).as_deref(), Some(expect));
}

/// The analysis finds the `rec` in use, so it reports nothing on it.
fn check_no(src: &str) {
    let (text, pos) = fixture(src);
    assert_eq!(run(&text, pos, &Vec::new()), None);
}

#[test]
fn in_use_rec() {
    check_no("let a = 1; in $0rec { a = 3; b = a + 1; }");
}

#[test]
fn unused_rec() {
    // Simple
    check("$0rec { a = 1; }", "{ a = 1; }");

    // With trivia
    check("$0rec /* trivia */ { a = 3; }", "{ a = 3; }");

    // let-in and rec
    check("let a = 1; in $0rec { a = 3; }", "let a = 1; in { a = 3; }");
}

#[test]
fn cursor_inside_set_without_diagnostic_offers_nothing() {
    let text = "rec { a = 1; }";
    for pos in 0..=text.len() {
        assert_eq!(run(text, pos, &Vec::new()), None);
    }
}

#[test]
fn diagnostic_of_other_kind_offers_nothing() {
    let text = "rec { a = 1; }";
    let diags = vec![Diagnostic { kind: DiagnosticKind::UnusedBinding, range: TextRange::new(0, 3) }];
    assert_eq!(run(text, 0, &diags), None);
}

#[test]
fn diagnostic_elsewhere_offers_nothing() {
    let text = "rec { a = 1; }";
    let diags = vec![Diagnostic { kind: DiagnosticKind::UnusedRec, range: TextRange::new(6, 7) }];
    assert_eq!(run(text, 0, &diags), None);
}

#[test]
fn cursor_anywhere_in_set_offers_one_removal() {
    let text = "rec { a = 1; }";
    let diags = rec_diagnostic(text, 0);
    for pos in 0..=text.len() {
        assert_eq!(run(text, pos, &diags).as_deref(), Some("{ a = 1; }"));
    }
}

#[test]
fn cursor_outside_any_set_offers_nothing() {
    let text = "let a = 1; in rec { a = 3; }";
    let diags = rec_diagnostic(text, 14);
    assert_eq!(run(text, 4, &diags), None);
}

#[test]
fn set_without_rec_offers_nothing() {
    let text = "{ a = 1; }";
    let diags = vec![Diagnostic { kind: DiagnosticKind::UnusedRec, range: TextRange::new(0, 1) }];
    assert_eq!(run(text, 0, &diags), None);
}

#[test]
fn innermost_set_is_chosen() {
    let text = "rec { b = rec { a = 1; }; }";
    let inner = 10;
    let diags = rec_diagnostic(text, inner);
    assert_eq!(run(text, inner, &diags).as_deref(), Some("rec { b = { a = 1; }; }"));
    // The outer set's `rec` has no diagnostic of its own.
    assert_eq!(run(text, 0, &diags), None);
}

#[test]
fn trailing_trivia_is_absorbed_up_to_next_token() {
    let text = "rec  /* x */ \n # line\n{ a = 1; }";
    let diags = rec_diagnostic(text, 0);
    assert_eq!(run(text, 0, &diags).as_deref(), Some("{ a = 1; }"));
    let tree = parse(text);
    let ctx_diags = diags.clone();
    let mut ctx = AssistsCtx::new(&tree, &ctx_diags, TextRange::empty(0));
    assert_eq!(remove_unused_rec(&mut ctx), Some(()));
    let brace = text.find('{').unwrap();
    assert_eq!(ctx.assists[0].edits[0].delete, TextRange::new(0, brace));
    assert_eq!(ctx.assists[0].edits[0].insert, "");
}

#[test]
fn removal_then_resolving_again_offers_nothing() {
    for src in ["$0rec { a = 1; }", "$0rec /* trivia */ { a = 3; }", "let a = 1; in $0rec { a = 3; }"] {
        let (text, pos) = fixture(src);
        let diags = rec_diagnostic(&text, pos);
        let out = run(&text, pos, &diags).unwrap();
        // Whatever the analysis now reports, no `rec` is left at the cursor.
        let all = vec![Diagnostic { kind: DiagnosticKind::UnusedRec, range: TextRange::new(0, out.len()) }];
        assert_eq!(run(&out, pos, &all), None);
    }
}

#[test]
fn range_intersect_and_cover() {
    let a = TextRange::new(2, 5);
    let b = TextRange::new(4, 9);
    assert_eq!(a.intersect(b), Some(TextRange::new(4, 5)));
    assert_eq!(a.cover(b), TextRange::new(2, 9));
    assert_eq!(a.intersect(TextRange::new(5, 6)), Some(TextRange::new(5, 5)));
    assert_eq!(a.intersect(TextRange::new(6, 7)), None);
    assert!(b.contains_range(TextRange::new(4, 9)));
    assert!(!a.contains_range(b));
    assert_eq!(b.len(), 5);
}

#[test]
fn lexer_splits_text() {
    let tree = parse("rec /* c */ { a = 12; }");
    let kinds: Vec<SyntaxKind> = tree.tokens.iter().map(|t| t.kind).collect();
    assert_eq!(
        kinds,
        vec![
            SyntaxKind::KwRec,
            SyntaxKind::Whitespace,
            SyntaxKind::Comment,
            SyntaxKind::Whitespace,
            SyntaxKind::LCurly,
            SyntaxKind::Whitespace,
            SyntaxKind::Ident,
            SyntaxKind::Whitespace,
            SyntaxKind::Assign,
            SyntaxKind::Whitespace,
            SyntaxKind::Int,
            SyntaxKind::Semicolon,
            SyntaxKind::Whitespace,
            SyntaxKind::RCurly,
        ]
    );
    assert_eq!(tree.nodes.len(), 2);
    assert_eq!(tree.nodes[1].range, TextRange::new(0, 23));
    assert_eq!(tree.nodes[1].rec_token, Some(0));
    assert_eq!(tree.nodes[1].open_token, Some(4));
    assert_eq!(tree.nodes[0].open_token, None);
}

#[test]
fn empty_text_offers_nothing() {
    let tree = parse("");
    assert!(tree.tokens.is_empty());
    assert_eq!(tree.nodes.len(), 1);
    let diags = vec![Diagnostic { kind: DiagnosticKind::UnusedRec, range: TextRange::empty(0) }];
    assert_eq!(run("", 0, &diags), None);
}

#[test]
fn line_comment_and_newlines_are_trivia() {
    let tree = parse("rec # c\n\t{ }");
    let kinds: Vec<SyntaxKind> = tree.tokens.iter().map(|t| t.kind).collect();
    assert_eq!(
        kinds,
        vec![
            SyntaxKind::KwRec,
            SyntaxKind::Whitespace,
            SyntaxKind::Comment,
            SyntaxKind::Whitespace,
            SyntaxKind::LCurly,
            SyntaxKind::Whitespace,
            SyntaxKind::RCurly,
        ]
    );
    assert!(tree.tokens[2].kind.is_trivia());
    assert!(!tree.tokens[4].kind.is_trivia());
}

#[test]
fn insert_text_is_applied() {
    let edit = ide::edit::TextEdit { delete: TextRange::new(0, 3), insert: String::from("let") };
    let out = apply_edit("rec { }".as_bytes(), &edit);
    assert_eq!(String::from_utf8(out).unwrap(), "let { }");
}

#[test]
fn diagnostic_only_touching_rec_offers_nothing() {
    let text = "rec { a = 1; }";
    let after = vec![Diagnostic { kind: DiagnosticKind::UnusedRec, range: TextRange::new(3, 4) }];
    assert_eq!(run(text, 0, &after), None);
    let empty_at_end = vec![Diagnostic { kind: DiagnosticKind::UnusedRec, range: TextRange::empty(3) }];
    assert_eq!(run(text, 0, &empty_at_end), None);
    let partly = vec![Diagnostic { kind: DiagnosticKind::UnusedRec, range: TextRange::new(2, 4) }];
    assert_eq!(run(text, 0, &partly).as_deref(), Some("{ a = 1; }"));
}

#[test]
fn range_overlap_needs_a_shared_offset() {
    let a = TextRange::new(2, 5);
    assert!(a.overlap(TextRange::new(4, 9)));
    assert!(!a.overlap(TextRange::new(5, 6)));
    assert!(!a.overlap(TextRange::new(0, 2)));
    assert!(!a.overlap(TextRange::empty(3)));
    assert!(a.overlap(TextRange::new(0, 10)));
}
