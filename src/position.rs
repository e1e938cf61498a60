use vstd::prelude::*;

verus! {

/// A place in the source text: a row and a column.
#[derive(Debug, Clone, Copy, PartialEq, Eq, Structural)]
pub struct Position {
    pub row: usize,
    pub col: usize,
}

impl Position {
    pub fn new(row: usize, col: usize) -> (r: Self)
        ensures
            r.row == row,
            r.col == col,
    {
        Position { row, col }
    }

    /// Moves one column to the right and returns the new place.
    pub fn next_col(&mut self) -> (r: Self)
        requires
            old(self).col < usize::MAX,
        ensures
            final(self).row == old(self).row,
            final(self).col == old(self).col + 1,
            r == *final(self),
    {
        self.col = self.col + 1;
        *self
    }

    /// Moves to the start of the next row and returns the new place.
    pub fn next_row(&mut self) -> (r: Self)
        requires
            old(self).row < usize::MAX,
        ensures
            final(self).row == old(self).row + 1,
            final(self).col == 0,
            r == *final(self),
    {
        self.col = 0;
        self.row = self.row + 1;
        *self
    }
}

} // verus!
