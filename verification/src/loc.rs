//! Source positions: a `(line, column)` cursor advanced one byte at a
//! time. Lines are 1-based; columns restart at 0 after each newline,
//! so the first byte of a line sits at column 1 once consumed.

use vstd::prelude::*;

verus! {

/// A position in a source text.
#[derive(Debug, Clone, Copy, PartialEq, Eq, Structural)]
pub struct Loc {
    /// The line of the position, 1-based.
    pub line: usize,
    /// The column of the position, 0 at line start.
    pub col: usize,
}

impl Loc {
    /// A position built from its two coordinates.
    pub fn new(line: usize, col: usize) -> (r: Loc)
        ensures
            r == (Loc { line, col }),
    {
        Loc { line, col }
    }

    /// Advance the cursor over one byte: a newline starts the next
    /// line at column 0, any other byte moves one column right.
    pub fn inc(&mut self, c: u8)
        requires
            old(self).line < usize::MAX,
            old(self).col < usize::MAX,
        ensures
            *final(self) == old(self).inc_spec(c),
    {
        if c == ('\n' as u8) {
            self.line = self.line + 1;
            self.col = 0;
        } else {
            self.col = self.col + 1;
        }
    }

    /// The position after consuming one byte.
    pub open spec fn inc_spec(self, c: u8) -> Loc
        recommends
            self.line < usize::MAX,
            self.col < usize::MAX,
    {
        if c == ('\n' as u8) {
            Loc { line: (self.line + 1) as usize, col: 0 }
        } else {
            Loc { line: self.line, col: (self.col + 1) as usize }
        }
    }
}

impl Default for Loc {
    /// The start of a text: line 1, column 0.
    fn default() -> (r: Loc)
        ensures
            r == (Loc { line: 1, col: 0 }),
    {
        Loc { line: 1, col: 0 }
    }
}

} // verus!
