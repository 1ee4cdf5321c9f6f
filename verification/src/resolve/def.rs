use vstd::prelude::*;

verus! {

/// The id of an item definition.
#[derive(Clone, Copy, PartialEq, Eq, Hash, Debug, Structural)]
pub struct DefId(pub u64);

/// The id of a local variable.
#[derive(Clone, Copy, PartialEq, Eq, Hash, Debug, Structural)]
pub struct LocalId(pub usize);

/// What a name refers to.
#[derive(Debug, Clone, Copy, PartialEq, Eq, Structural)]
pub enum Def {
    Def(DefId),
    Local(LocalId),
    /// A definition that couldn't be resolved. Often comes with a diagnostic **already emitted**.
    Error,
}

} // verus!
