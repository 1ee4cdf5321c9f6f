//! `break` statements outside of any loop.
use vstd::prelude::*;

use crate::span::Span;

verus! {

/// A `break` outside of any loop ("`break` statement outside of loop"): the file, and the
/// statement.
#[derive(Clone, Copy, Debug, PartialEq, Eq, Structural)]
pub struct BreakOutsideLoop {
    pub file_id: usize,
    pub span: Span,
}

/// The flow analysis of a file, as it walks the statements: how many loops enclose the
/// current point, and the statement it is in.
pub struct FlowAnalysisPhase {
    pub file_id: usize,
    pub flow_depth: usize,
    pub current_stmt_span: Option<Span>,
    pub diagnostics: Vec<BreakOutsideLoop>,
}

impl FlowAnalysisPhase {
    /// The analysis of file `file_id`, outside of any loop and statement.
    pub fn new(file_id: usize) -> (r: Self)
        ensures
            r.file_id == file_id,
            r.flow_depth == 0,
            r.current_stmt_span is None,
            r.diagnostics@.len() == 0,
    {
        FlowAnalysisPhase { file_id, flow_depth: 0, current_stmt_span: None, diagnostics: Vec::new() }
    }

    /// Enters the statement at `span`, giving back the statement the walk was in.
    pub fn enter_stmt(&mut self, span: Span) -> (r: Option<Span>)
        ensures
            r == old(self).current_stmt_span,
            final(self).current_stmt_span == Some(span),
            final(self).flow_depth == old(self).flow_depth,
            final(self).file_id == old(self).file_id,
            final(self).diagnostics == old(self).diagnostics,
    {
        let previous = self.current_stmt_span;
        self.current_stmt_span = Some(span);
        previous
    }

    /// Leaves a statement, back to `previous`, the statement the walk was in before it.
    pub fn leave_stmt(&mut self, previous: Option<Span>)
        ensures
            final(self).current_stmt_span == previous,
            final(self).flow_depth == old(self).flow_depth,
            final(self).file_id == old(self).file_id,
            final(self).diagnostics == old(self).diagnostics,
    {
        self.current_stmt_span = previous;
    }

    /// Enters the body of a `loop` or a `while` statement.
    pub fn enter_loop(&mut self)
        requires
            old(self).flow_depth < usize::MAX,
        ensures
            final(self).flow_depth == old(self).flow_depth + 1,
            final(self).current_stmt_span == old(self).current_stmt_span,
            final(self).file_id == old(self).file_id,
            final(self).diagnostics == old(self).diagnostics,
    {
        self.flow_depth = self.flow_depth + 1;
    }

    /// Leaves the body of a loop entered with [Self::enter_loop].
    pub fn leave_loop(&mut self)
        requires
            old(self).flow_depth > 0,
        ensures
            final(self).flow_depth == old(self).flow_depth - 1,
            final(self).current_stmt_span == old(self).current_stmt_span,
            final(self).file_id == old(self).file_id,
            final(self).diagnostics == old(self).diagnostics,
    {
        self.flow_depth = self.flow_depth - 1;
    }

    /// A `break` at the current point: reported, at the current statement, exactly when
    /// no loop encloses it; outside of any statement nothing is checked.
    pub fn visit_break_stmt(&mut self)
        ensures
            final(self).flow_depth == old(self).flow_depth,
            final(self).current_stmt_span == old(self).current_stmt_span,
            final(self).file_id == old(self).file_id,
            old(self).current_stmt_span is Some && old(self).flow_depth == 0 ==> final(self).diagnostics@
                == old(self).diagnostics@.push(
                (BreakOutsideLoop { file_id: old(self).file_id, span: old(self).current_stmt_span->Some_0 }),
            ),
            !(old(self).current_stmt_span is Some && old(self).flow_depth == 0) ==> final(self).diagnostics@
                == old(self).diagnostics@,
    {
        let span = match self.current_stmt_span {
            Some(span) => span,
            None => return,
        };
        if self.flow_depth == 0 {
            self.diagnostics.push(BreakOutsideLoop { file_id: self.file_id, span });
        }
    }
}

} // verus!
