//! Error types of the roaming-filter library.

use vstd::prelude::*;

verus! {

/// Why a rule line was rejected.
#[derive(Clone, Copy, PartialEq, Eq, Structural, Debug)]
pub enum ParseError {
    /// The line does not have the shape `[<attrs>]<pattern>`: no leading `[`,
    /// or no closing `]` with at least one character on each side.
    Structure,
    /// The pattern part of the line is empty once surrounding whitespace is
    /// removed.
    EmptyPattern,
    /// A token in the attribute block matches no recognized attribute form,
    /// carries a value outside its range, or repeats a kind already seen.
    Attribute,
}

/// The translated glob expression was refused by the glob engine.
#[derive(Clone, Copy, PartialEq, Eq, Structural, Debug)]
pub struct GlobError;

/// The filter file is absent where a command needs it.
#[derive(Clone, Copy, PartialEq, Eq, Structural, Debug)]
pub struct FileNotFoundError;

impl FileNotFoundError {
    /// The user-facing description of this error.
    pub fn message(&self) -> (s: String)
        ensures
            s@ == "Filter file not found"@,
    {
        String::from_str("Filter file not found")
    }
}

} // verus!
