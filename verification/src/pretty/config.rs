use vstd::prelude::*;

verus! {

/// How a document is laid out.
pub enum Mode {
    /// Line breaks and indentation.
    Pretty,
    /// Everything on a single line.
    OneLine,
}

/// Rendering options.
pub struct Config {
    pub mode: Mode,
    /// The number of spaces in one level of indentation.
    pub indent_level: usize,
}

impl Default for Config {
    /// Pretty mode, indented by four spaces per level.
    fn default() -> (r: Self)
        ensures
            r.mode is Pretty,
            r.indent_level == 4,
    {
        Config { mode: Mode::Pretty, indent_level: 4 }
    }
}

} // verus!
