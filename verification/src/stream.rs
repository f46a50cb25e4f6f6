//! Source positions attached to syntax nodes for diagnostics.

use vstd::prelude::*;

verus! {

/// A position within the source character stream, carried by leaf syntax
/// nodes so that checking errors can point at the construct they concern.
#[derive(Clone, Copy, Debug, PartialEq, Eq)]
pub struct Position {
    /// Line of the construct, counted from 1.
    pub line_number: u64,
    /// Character within that line, counted from 1.
    pub character_number: u64,
}

impl Position {
    /// The position of the very start of a stream.
    pub fn new() -> (p: Position)
        ensures
            p == (Position { line_number: 1u64, character_number: 1u64 }),
    {
        Position { line_number: 1, character_number: 1 }
    }
}

} // verus!
