//! Diagnostics of one analysis run, and the applicability test on them.
use vstd::prelude::*;
use crate::range::TextRange;

verus! {

/// What an analysis finding is about.
#[derive(Clone, Copy, Debug, PartialEq, Eq, Structural)]
pub enum DiagnosticKind {
    UnusedBinding,
    UnusedWith,
    UnusedRec,
    UndefinedName,
}

/// A finding of the analysis: a kind and the text it is about.
#[derive(Clone, Copy, Debug, PartialEq, Eq, Structural)]
pub struct Diagnostic {
    pub kind: DiagnosticKind,
    pub range: TextRange,
}

/// Some diagnostic of kind `kind` shares at least one offset with `target`.
pub open spec fn has_intersecting(diags: Seq<Diagnostic>, kind: DiagnosticKind, target: TextRange) -> bool {
    exists|i: int| 0 <= i < diags.len() && #[trigger] diags[i].kind == kind && diags[i].range.overlaps(target)
}

/// Whether a diagnostic of kind `kind` has a non-empty intersection with
/// `target`: the test that decides whether a fix for it applies.
pub fn any_intersecting(diags: &Vec<Diagnostic>, kind: DiagnosticKind, target: TextRange) -> (r: bool)
    ensures
        r == has_intersecting(diags@, kind, target),
{
    let mut i: usize = 0;
    while i < diags.len()
        invariant
            i <= diags@.len(),
            forall|k: int| 0 <= k < i ==> !(#[trigger] diags@[k].kind == kind && diags@[k].range.overlaps(target)),
        decreases diags@.len() - i,
    {
        let d = diags[i];
        if d.kind == kind && d.range.overlap(target) {
            return true;
        }
        i = i + 1;
    }
    false
}

} // verus!
