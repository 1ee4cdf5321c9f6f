use std::collections::HashMap;
use vstd::prelude::*;

use crate::hir::NodeId;
use crate::resolve::def::DefId;
use crate::span::Span;
use crate::symbol::Symbol;

verus! {

/// Whether an item can be named from outside its module.
#[derive(PartialEq, Eq, Structural)]
pub enum Visibility {
    Public,
    Private,
}

/// What is known of an item: its name, kind, node and visibility.
pub struct ItemInfo {
    pub name: Symbol,
    pub kind: ItemKind,
    pub id: NodeId,
    pub vis: Visibility,
}

/// The kind of an item, with the span of its signature. The items of a module are
/// keyed by symbol index.
pub enum ItemKind {
    Fn { signature_span: Span },
    ExternFn { ffi_name: Option<Symbol>, signature_span: Span },
    InlineMod { signature_span: Span, items: HashMap<usize, DefId> },
    ExternMod { ffi_name: Option<Symbol>, signature_span: Span, items: HashMap<usize, DefId> },
}

impl ItemKind {
    /// The span of the signature, whatever the kind.
    pub open spec fn signature_span_spec(&self) -> Span {
        match self {
            ItemKind::Fn { signature_span } => *signature_span,
            ItemKind::ExternFn { signature_span, .. } => *signature_span,
            ItemKind::InlineMod { signature_span, .. } => *signature_span,
            ItemKind::ExternMod { signature_span, .. } => *signature_span,
        }
    }
}

impl ItemKind {
    /// The members of a module, by symbol index; nothing for a function.
    pub open spec fn members(&self) -> Map<usize, DefId> {
        match self {
            ItemKind::InlineMod { items, .. } => items@,
            ItemKind::ExternMod { items, .. } => items@,
            _ => Map::empty(),
        }
    }
}

impl ItemInfo {
    /// The span of the item's signature.
    pub fn signature_span(&self) -> (r: Span)
        ensures
            r == self.kind.signature_span_spec(),
    {
        match &self.kind {
            ItemKind::ExternFn { signature_span, .. }
            | ItemKind::Fn { signature_span, .. }
            | ItemKind::InlineMod { signature_span, .. }
            | ItemKind::ExternMod { signature_span, .. } => *signature_span,
        }
    }
}

} // verus!
