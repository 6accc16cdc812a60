use vstd::prelude::*;

verus! {

/// Why a source text could not be compiled.
#[derive(Debug, Clone, Copy, PartialEq, Eq, Structural)]
pub enum CompileError {
    /// A word of the source matches no token pattern: the index of its line,
    /// and its index among that line's words.
    Lexical { line: usize, word: usize },
    /// The token at this index does not fit the grammar where it stands.
    Syntax(usize),
    /// The tokens ran out before a grammar rule was complete.
    IncompleteInput,
}

} // verus!
