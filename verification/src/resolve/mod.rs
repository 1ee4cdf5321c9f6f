//! Name and type resolution: definitions, resolved types, and the scope stack that maps
//! identifiers to what they refer to.

pub mod def;
pub mod name_res;
pub mod path_res;
pub mod resolver;
pub mod scope;
pub mod ty;
pub mod type_res;
