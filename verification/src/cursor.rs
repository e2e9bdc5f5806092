//! Position tracking over the source buffer during scanning.

use vstd::prelude::*;

verus! {

/// Tracks the absolute character offset, line and column of the scanner over
/// the source buffer. Lines start at 1, columns and offsets at 0; a newline
/// advances the line and resets the column.
#[derive(Debug)]
pub struct Cursor {
    pub line: usize,
    pub column: usize,
    pub idx: usize,
}

impl Cursor {
    pub fn new() -> (c: Cursor)
        ensures
            c.line == 1,
            c.column == 0,
            c.idx == 0,
    {
        Cursor { line: 1, column: 0, idx: 0 }
    }

    pub fn line(&self) -> (l: usize)
        ensures
            l == self.line,
    {
        self.line
    }

    pub fn column(&self) -> (c: usize)
        ensures
            c == self.column,
    {
        self.column
    }

    pub fn index(&self) -> (i: usize)
        ensures
            i == self.idx,
    {
        self.idx
    }

    /// Moves one character forward within the current line.
    pub fn advance(&mut self) -> (i: usize)
        requires
            old(self).column < usize::MAX,
            old(self).idx < usize::MAX,
        ensures
            final(self).line == old(self).line,
            final(self).column == old(self).column + 1,
            final(self).idx == old(self).idx + 1,
            i == final(self).idx,
    {
        self.column = self.column + 1;
        self.idx = self.idx + 1;
        self.idx
    }

    /// Undoes one `advance` within the current line.
    pub fn backward(&mut self) -> (i: usize)
        requires
            old(self).column >= 1,
            old(self).idx >= 1,
        ensures
            final(self).line == old(self).line,
            final(self).column == old(self).column - 1,
            final(self).idx == old(self).idx - 1,
            i == final(self).idx,
    {
        self.column = self.column - 1;
        self.idx = self.idx - 1;
        self.idx
    }

    /// Consumes a newline: moves to the start of the next line.
    pub fn advance_line(&mut self) -> (i: usize)
        requires
            old(self).line < usize::MAX,
            old(self).idx < usize::MAX,
        ensures
            final(self).line == old(self).line + 1,
            final(self).column == 0,
            final(self).idx == old(self).idx + 1,
            i == final(self).idx,
    {
        self.line = self.line + 1;
        self.column = 0;
        self.idx = self.idx + 1;
        self.idx
    }
}

} // verus!
