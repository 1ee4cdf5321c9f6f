//! A document model for pretty-printing generated code, and its renderer.

pub mod config;
pub mod doc;
pub mod renderer;
