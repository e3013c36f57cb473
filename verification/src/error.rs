//! Errors of graph construction.

use vstd::prelude::*;

verus! {

/// Why a graph could not be built.
#[derive(Clone, Debug, PartialEq, Eq)]
pub enum Error {
    /// The input could not be turned into a graph (too large, not parseable).
    Construction(String),
    /// No grammar is available for the language; carries the language's name.
    UnsupportedLanguage(String),
    /// The input could not be read.
    Io(String),
}

} // verus!
