use vstd::prelude::*;

use crate::resolve::def::DefId;
use crate::symbol::Symbol;

verus! {

/// The id of a package of the high-level representation.
#[derive(Clone, Copy, PartialEq, Eq, Hash, Debug, Structural)]
pub struct PackageId(pub usize);

/// The id of a node of the high-level representation.
#[derive(Clone, Copy, PartialEq, Eq, Hash, Debug, Structural)]
pub struct HirId(pub usize);

/// The id of a node of the syntax tree.
#[derive(Clone, Copy, PartialEq, Eq, Hash, Debug, Structural)]
pub struct NodeId(pub usize);

impl PackageId {
    /// The id with index `id`.
    pub fn new(id: usize) -> (r: Self)
        ensures
            r.0 == id,
    {
        PackageId(id)
    }

    /// The index of the id.
    pub fn get(&self) -> (r: usize)
        ensures
            r == self.0,
    {
        self.0
    }
}

/// A package: the items of one compilation unit.
pub struct Package {
    pub id: PackageId,
    pub items: Vec<Item>,
}

/// An item of a package.
pub enum Item {
    ExternFn(ExternFn),
    Fn(Function),
}

/// A function declared `extern`, provided by the host.
pub struct ExternFn {
    pub name: Symbol,
    pub id: DefId,
}

/// A function with a body.
pub struct Function {
    pub name: Symbol,
    pub id: DefId,
    pub hir_id: HirId,
    pub block: Block,
}

/// A block of statements.
pub struct Block {
    pub stmts: Vec<Statement>,
}

/// A statement.
pub enum Statement {
    Expr(Expression),
}

/// An expression.
pub enum Expression {
    /// A call: the callee and the arguments.
    Call { callee: Box<Expression>, args: Vec<Expression> },
    /// A literal; its value plays no part in the passes over names.
    Lit,
    Ident(Symbol),
}

impl Item {
    /// The name the item declares.
    pub open spec fn name_spec(&self) -> Symbol {
        match self {
            Item::ExternFn(f) => f.name,
            Item::Fn(f) => f.name,
        }
    }

    /// The definition the item declares.
    pub open spec fn def_spec(&self) -> DefId {
        match self {
            Item::ExternFn(f) => f.id,
            Item::Fn(f) => f.id,
        }
    }
}

} // verus!
