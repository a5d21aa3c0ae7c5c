//! A line-and-column selection anchored where it started: extending it keeps
//! `start` at or before `end`, whichever side of the anchor the cursor is on.

use vstd::prelude::*;

verus! {

/// An inclusive selection between two cursor positions.
#[derive(Debug, Clone)]
pub struct Selection {
    pub anchor_line: u32,
    pub anchor_col: u32,
    pub start_line: u32,
    pub start_col: u32,
    pub end_line: u32,
    pub end_col: u32,
}

/// Whether position `(l1, c1)` comes before `(l2, c2)` in reading order.
pub open spec fn pos_lt(l1: u32, c1: u32, l2: u32, c2: u32) -> bool {
    l1 < l2 || (l1 == l2 && c1 < c2)
}

impl Selection {
    /// A fresh selection: anchor and both ends at the cursor.
    pub fn new(line: u32, col: u32) -> (r: Selection)
        ensures
            r.anchor_line == line && r.anchor_col == col,
            r.start_line == line && r.start_col == col,
            r.end_line == line && r.end_col == col,
    {
        Selection {
            anchor_line: line,
            anchor_col: col,
            start_line: line,
            start_col: col,
            end_line: line,
            end_col: col,
        }
    }

    /// Move the free end of the selection to the cursor: the span runs from
    /// the earlier of cursor and anchor to the later; the anchor stays.
    pub fn extend_to(&mut self, line: u32, col: u32)
        ensures
            final(self).anchor_line == old(self).anchor_line,
            final(self).anchor_col == old(self).anchor_col,
            pos_lt(line, col, old(self).anchor_line, old(self).anchor_col) ==> {
                &&& final(self).start_line == line && final(self).start_col == col
                &&& final(self).end_line == old(self).anchor_line && final(self).end_col == old(
                    self,
                ).anchor_col
            },
            !pos_lt(line, col, old(self).anchor_line, old(self).anchor_col) ==> {
                &&& final(self).start_line == old(self).anchor_line && final(self).start_col
                    == old(self).anchor_col
                &&& final(self).end_line == line && final(self).end_col == col
            },
    {
        if line < self.anchor_line || (line == self.anchor_line && col < self.anchor_col) {
            self.start_line = line;
            self.start_col = col;
            self.end_line = self.anchor_line;
            self.end_col = self.anchor_col;
        } else {
            self.start_line = self.anchor_line;
            self.start_col = self.anchor_col;
            self.end_line = line;
            self.end_col = col;
        }
    }

    /// Whether `line` lies inside the selected span of lines.
    pub fn contains_line(&self, line: u32) -> (r: bool)
        ensures
            r == (self.start_line <= line <= self.end_line),
    {
        line >= self.start_line && line <= self.end_line
    }
}

} // verus!
