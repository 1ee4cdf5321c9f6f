//! Interned types: the kinds of types, the interner that gives each kind an id, and the
//! textual form of types.

pub mod format;
pub mod interner;
pub mod ty;
