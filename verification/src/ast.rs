//! The items of the syntax tree, as far as collecting their names reads them.
use vstd::prelude::*;

use crate::hir::NodeId;
use crate::span::Span;
use crate::symbol::Symbol;

verus! {

/// An identifier: its symbol and where it stands.
#[derive(Clone, Copy, Debug)]
pub struct Ident {
    pub sym: Symbol,
    pub span: Span,
}

/// One segment of a path: a name, with the node it is.
#[derive(Clone, Copy, Debug)]
pub struct PathSegment {
    pub id: NodeId,
    pub ident: Ident,
}

/// A path `a::b::c`: its node, where it stands, and its segments in order.
#[derive(Debug)]
pub struct Path {
    pub id: NodeId,
    pub span: Span,
    pub segments: Vec<PathSegment>,
}

/// A written type; only its node and where it stands are read here.
#[derive(Clone, Copy, Debug)]
pub struct Ty {
    pub id: NodeId,
    pub span: Span,
}

/// Whether an item is marked `pub`.
#[derive(Clone, Copy, Debug, PartialEq, Eq, Structural)]
pub enum Visibility {
    Public,
    Private,
}

/// An item of a source file.
#[derive(Debug)]
pub struct Item {
    pub id: NodeId,
    pub span: Span,
    pub vis: Visibility,
    pub kind: ItemKind,
}

/// The kind of an item.
#[derive(Debug)]
pub enum ItemKind {
    InlineMod(ModItem),
    ExternMod(ExternModItem),
    Fn(FnItem),
    ExternFn(ExternFnItem),
}

/// A module written in place, with its items.
#[derive(Debug)]
pub struct ModItem {
    pub ident: Ident,
    pub items: Vec<Item>,
}

/// A module of host functions, with the name it has on the host side, if another one,
/// and where its block of items stands.
#[derive(Debug)]
pub struct ExternModItem {
    pub ident: Ident,
    pub ffi_name: Option<Ident>,
    pub block_span: Span,
    pub items: Vec<Item>,
}

/// A function with a body.
#[derive(Debug)]
pub struct FnItem {
    pub ident: Ident,
    pub return_ty: Ty,
}

/// A host function, with the name it has on the host side, if another one.
#[derive(Debug)]
pub struct ExternFnItem {
    pub name: Ident,
    pub ffi_name: Option<Ident>,
    pub return_ty: Ty,
}

/// An expression: its node, where it stands, and its kind.
#[derive(Debug)]
pub struct Expr {
    pub id: NodeId,
    pub span: Span,
    pub kind: ExprKind,
}

/// The kind of an expression.
#[derive(Debug)]
pub enum ExprKind {
    Tuple(Vec<Expr>),
    Lit(Literal),
    Path(Path),
    Call(CallExpr),
    Parenthesized(Box<Expr>),
    Binary(BinExpr),
}

/// A literal, as far as its type goes.
#[derive(Clone, Copy, Debug, PartialEq, Eq, Structural)]
pub enum Literal {
    Bool,
    Integer,
    Str,
    InterpolatedStr,
}

/// A call: the expression called, and the arguments.
#[derive(Debug)]
pub struct CallExpr {
    pub callee: Box<Expr>,
    pub args: Vec<Expr>,
}

/// A binary operator.
#[derive(Clone, Copy, Debug, PartialEq, Eq, Structural)]
pub enum Operator {
    Add,
    Minus,
    Mul,
    Div,
    Modulus,
    Lt,
    LtOrEqual,
    Gt,
    GtOrEqual,
    EqualsEquals,
    NotEquals,
}

/// A binary expression.
#[derive(Debug)]
pub struct BinExpr {
    pub left: Box<Expr>,
    pub operator: Operator,
    pub right: Box<Expr>,
}

/// A pattern: its node, where it stands, and its tuple structure.
#[derive(Debug)]
pub struct Pat {
    pub id: NodeId,
    pub span: Span,
    pub kind: PatKind,
}

/// The kind of a pattern, as far as tuples go.
#[derive(Debug)]
pub enum PatKind {
    Tuple(Vec<Pat>),
    /// A pattern that binds a name.
    Binding(Binding),
}

/// A name bound by a pattern, and whether it is bound mutably.
#[derive(Clone, Copy, Debug)]
pub struct Binding {
    pub sym: Symbol,
    pub mutable: bool,
}

/// A `let` statement: its pattern, its written type if any, and the expression bound.
#[derive(Debug)]
pub struct LetStmt {
    pub pat: Pat,
    pub ty: Option<Ty>,
    pub init: Expr,
}

/// The syntax tree of a source file.
#[derive(Debug)]
pub struct Ast {
    pub items: Vec<Item>,
}

/// The identifier that an item declares.
pub open spec fn item_ident(item: Item) -> Ident {
    match item.kind {
        ItemKind::InlineMod(decl) => decl.ident,
        ItemKind::ExternMod(decl) => decl.ident,
        ItemKind::Fn(decl) => decl.ident,
        ItemKind::ExternFn(decl) => decl.name,
    }
}

/// The identifier that `item` declares.
pub fn ident_of_item(item: &Item) -> (r: &Ident)
    ensures
        *r == item_ident(*item),
{
    match &item.kind {
        ItemKind::InlineMod(decl) => &decl.ident,
        ItemKind::ExternMod(decl) => &decl.ident,
        ItemKind::Fn(decl) => &decl.ident,
        ItemKind::ExternFn(decl) => &decl.name,
    }
}

/// The span of an item's signature: from its start to the end of its name for a module,
/// and to the end of its return type for a function.
pub open spec fn signature_span_of(item: Item) -> Span {
    match item.kind {
        ItemKind::InlineMod(decl) => Span { start: item.span.start, end: decl.ident.span.end },
        ItemKind::ExternMod(decl) => Span { start: item.span.start, end: decl.ident.span.end },
        ItemKind::Fn(decl) => Span { start: item.span.start, end: decl.return_ty.span.end },
        ItemKind::ExternFn(decl) => Span { start: item.span.start, end: decl.return_ty.span.end },
    }
}

/// The number of items in `item`, itself included, at every depth.
pub open spec fn item_count(item: Item) -> nat
    decreases item,
{
    1 + match item.kind {
        ItemKind::InlineMod(decl) => items_count(decl.items@),
        ItemKind::ExternMod(decl) => items_count(decl.items@),
        _ => 0,
    }
}

/// The number of items in `items`, at every depth.
pub open spec fn items_count(items: Seq<Item>) -> nat
    decreases items,
{
    if items.len() == 0 {
        0
    } else {
        items_count(items.drop_last()) + item_count(items.last())
    }
}

} // verus!
