use vstd::prelude::*;

use crate::hir::NodeId;
use crate::span::Span;
use crate::symbol::Symbol;

verus! {

/// What is known of a local variable: its name, where it is defined, its node and
/// whether it may be assigned again.
#[derive(Debug)]
pub struct LocalInfo {
    pub name: Symbol,
    pub defined_where: Span,
    pub id: NodeId,
    pub mutable: bool,
}

} // verus!
