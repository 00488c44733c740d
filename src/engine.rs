//! Runs the assist providers, in a fixed order, for one cursor.
use vstd::prelude::*;
use crate::assists::{Assist, AssistKind, AssistsCtx};
use crate::diagnostic::Diagnostic;
use crate::range::TextRange;
use crate::remove_unused_rec::{is_rec_removal, remove_unused_rec, unused_rec_anchor};
use crate::tree::Tree;

verus! {

/// The providers this engine knows.
#[derive(Clone, Copy, Debug, PartialEq, Eq, Structural)]
pub enum Provider {
    RemoveUnusedRec,
}

impl Provider {
    /// Lets the provider add its assists for the request.
    pub fn run(&self, ctx: &mut AssistsCtx<'_>)
        requires
            old(ctx).tree.wf(),
        ensures
            final(ctx).tree == old(ctx).tree,
            final(ctx).diagnostics == old(ctx).diagnostics,
            final(ctx).frange == old(ctx).frange,
            *self == Provider::RemoveUnusedRec ==> {
                let anchor = unused_rec_anchor(old(ctx).tree, old(ctx).diagnostics@, old(ctx).frange);
                &&& anchor.is_none() ==> final(ctx).assists@ == old(ctx).assists@
                &&& anchor.is_some() ==> {
                    let a = final(ctx).assists@.last();
                    &&& final(ctx).assists@.len() == old(ctx).assists@.len() + 1
                    &&& final(ctx).assists@.drop_last() == old(ctx).assists@
                    &&& a.id@ == "remove_unused_rec"@
                    &&& a.label@ == "Remove unused rec"@
                    &&& a.kind == AssistKind::QuickFix
                    &&& a.edits@.len() == 1
                    &&& is_rec_removal(old(ctx).tree, anchor.unwrap(), a.edits@[0])
                }
            },
    {
        match self {
            Provider::RemoveUnusedRec => {
                let _ = remove_unused_rec(ctx);
            },
        }
    }
}

/// The assists offered at `frange`: each provider in turn adds its own.
pub fn assists_at(tree: &Tree, diagnostics: &Vec<Diagnostic>, frange: TextRange) -> (r: Vec<Assist>)
    requires
        tree.wf(),
    ensures
        ({
            let anchor = unused_rec_anchor(tree, diagnostics@, frange);
            &&& anchor.is_none() ==> r@.len() == 0
            &&& anchor.is_some() ==> {
                &&& r@.len() == 1
                &&& r@[0].id@ == "remove_unused_rec"@
                &&& r@[0].label@ == "Remove unused rec"@
                &&& r@[0].kind == AssistKind::QuickFix
                &&& r@[0].edits@.len() == 1
                &&& is_rec_removal(tree, anchor.unwrap(), r@[0].edits@[0])
            }
        }),
{
    let mut ctx = AssistsCtx::new(tree, diagnostics, frange);
    Provider::RemoveUnusedRec.run(&mut ctx);
    ctx.assists
}

} // verus!
