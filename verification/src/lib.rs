//! Core data structures and front-end passes of the Ayu compiler:
//! byte spans, source files, the raw scanner, the pretty-printing renderer,
//! the type interner and the scope tables used by name resolution.

pub mod ast;
pub mod hir;
pub mod interning;
pub mod parsable;
pub mod predicate;
pub mod pretty;
pub mod raw_token;
pub mod registry;
pub mod resolve;
pub mod scan_spec;
pub mod scanner;
pub mod sema;
pub mod session;
pub mod source;
pub mod span;
pub mod symbol;
pub mod tyctx;
pub mod types;
