//! Ranges of text, measured in bytes of UTF-8.

use vstd::prelude::*;

verus! {

/// A range of text, from `start` (inclusive) to `end` (exclusive), in bytes.
#[derive(Debug, Copy, Clone, PartialEq, Eq, Hash, Default, Structural)]
pub struct TextRange {
    pub start: u32,
    pub end: u32,
}

impl TextRange {
    /// The range from `start` to `end`; `start` must not lie after `end`.
    pub fn new(start: u32, end: u32) -> (r: TextRange)
        requires
            start <= end,
        ensures
            r.start == start,
            r.end == end,
    {
        TextRange { start, end }
    }

    /// The empty range at offset 0.
    pub fn empty() -> (r: TextRange)
        ensures
            r.start == 0,
            r.end == 0,
    {
        TextRange { start: 0, end: 0 }
    }
}

} // verus!
