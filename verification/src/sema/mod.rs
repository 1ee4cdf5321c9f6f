//! Semantic analysis over the high-level representation: the scope tree of a package,
//! and the passes that build it and check the names used against it.

pub mod build_scope;
pub mod flow;
pub mod general;
pub mod mutability;
pub mod resolve_names;
pub mod scope;
pub mod typecheck;

use vstd::prelude::*;

verus! {

/// The semantic analyzer of a package.
pub struct SemanticAnalyzer;

} // verus!
