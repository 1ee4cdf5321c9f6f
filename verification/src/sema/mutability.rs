//! Assignments to variables that were not declared mutable.
use vstd::prelude::*;

use crate::hir::NodeId;
use crate::resolve::def::Def;
use crate::resolve::resolver::ResolutionContext;
use crate::session::local::LocalInfo;
use crate::span::Span;
use crate::symbol::Symbol;

verus! {

/// An assignment to a variable not declared `mut` ("cannot assign to immutable variable
/// `name`"): the statement, the variable's name, and where the variable is defined.
#[derive(Clone, Copy, Debug, PartialEq, Eq, Structural)]
pub struct ImmutableAssign {
    pub stmt_span: Span,
    pub name: Symbol,
    pub defined_where: Span,
}

/// Checks the assignment, in the statement at `stmt_span`, to the variable `local`: it
/// is reported exactly when the variable is not mutable.
pub fn check_mutability(stmt_span: Span, local: &LocalInfo) -> (r: Option<ImmutableAssign>)
    ensures
        r == (if local.mutable {
            None
        } else {
            Some(ImmutableAssign { stmt_span, name: local.name, defined_where: local.defined_where })
        }),
{
    if !local.mutable {
        Some(ImmutableAssign { stmt_span, name: local.name, defined_where: local.defined_where })
    } else {
        None
    }
}

/// The mutability analysis of a file, as it walks the statements: the resolutions it
/// reads, the locals (by [crate::resolve::def::LocalId]), the statement it is in, and what
/// it reports.
pub struct MutabilityAnalysisPhase<'a> {
    pub rcx: &'a ResolutionContext,
    pub locals: &'a Vec<LocalInfo>,
    pub file_id: usize,
    pub stmt_span: Option<Span>,
    pub diagnostics: Vec<ImmutableAssign>,
}

impl<'a> MutabilityAnalysisPhase<'a> {
    /// The analysis of file `file_id`, outside of any statement.
    pub fn new(rcx: &'a ResolutionContext, locals: &'a Vec<LocalInfo>, file_id: usize) -> (r: Self)
        ensures
            r.rcx == rcx,
            r.locals == locals,
            r.file_id == file_id,
            r.stmt_span is None,
            r.diagnostics@.len() == 0,
    {
        MutabilityAnalysisPhase { rcx, locals, file_id, stmt_span: None, diagnostics: Vec::new() }
    }

    /// Enters the statement at `span`, giving back the span of the one the walk was in.
    pub fn enter_stmt(&mut self, span: Span) -> (r: Option<Span>)
        ensures
            r == old(self).stmt_span,
            final(self).stmt_span == Some(span),
            final(self).rcx == old(self).rcx,
            final(self).locals == old(self).locals,
            final(self).file_id == old(self).file_id,
            final(self).diagnostics == old(self).diagnostics,
    {
        let previous = self.stmt_span;
        self.stmt_span = Some(span);
        previous
    }

    /// Leaves a statement, back to `previous`, the one the walk was in before it.
    pub fn leave_stmt(&mut self, previous: Option<Span>)
        ensures
            final(self).stmt_span == previous,
            final(self).rcx == old(self).rcx,
            final(self).locals == old(self).locals,
            final(self).file_id == old(self).file_id,
            final(self).diagnostics == old(self).diagnostics,
    {
        self.stmt_span = previous;
    }

    /// An assignment, in the current statement, to the name at node `target`: where the
    /// name resolves to a local that is not mutable, the assignment is reported (see
    /// [check_mutability]); an assignment to anything else is left alone.
    pub fn visit_assign_stmt(&mut self, target: NodeId)
        requires
            old(self).stmt_span is Some,
            old(self).rcx.name_resolutions@.contains_key(target.0) && old(self).rcx.name_resolutions@[target.0] is Local
                ==> old(self).rcx.name_resolutions@[target.0]->Local_0.0 < old(self).locals@.len(),
        ensures
            final(self).stmt_span == old(self).stmt_span,
            final(self).rcx == old(self).rcx,
            final(self).locals == old(self).locals,
            final(self).file_id == old(self).file_id,
            ({
                let res = old(self).rcx.name_resolutions@;
                if res.contains_key(target.0) && res[target.0] is Local {
                    let local = old(self).locals@[res[target.0]->Local_0.0 as int];
                    if local.mutable {
                        final(self).diagnostics@ == old(self).diagnostics@
                    } else {
                        final(self).diagnostics@ == old(self).diagnostics@.push(
                            ImmutableAssign {
                                stmt_span: old(self).stmt_span->Some_0,
                                name: local.name,
                                defined_where: local.defined_where,
                            },
                        )
                    }
                } else {
                    final(self).diagnostics@ == old(self).diagnostics@
                }
            }),
    {
        let stmt_span = match self.stmt_span {
            Some(span) => span,
            None => return,
        };
        let local = match self.rcx.get_name_res(target) {
            Def::Local(local) => local,
            _ => return,
        };
        let info = &self.locals[local.0];
        match check_mutability(stmt_span, info) {
            Some(diag) => self.diagnostics.push(diag),
            None => {},
        }
    }
}

} // verus!
