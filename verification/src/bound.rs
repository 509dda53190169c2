//! One end of a range of rows.

use vstd::prelude::*;

verus! {

/// One end of a range of row indices.
#[derive(Clone, Copy, Debug)]
pub enum RowBound {
    /// The range reaches this row and holds it.
    Included(usize),
    /// The range reaches this row and leaves it out.
    Excluded(usize),
    /// The range runs to the end of the rows on this side.
    Unbounded,
}

impl RowBound {
    /// Whether this bound can open a range: a range cannot start just after a
    /// row.
    pub open spec fn opens(self) -> bool {
        !(self is Excluded)
    }

    /// The first row of a range that this bound opens.
    pub open spec fn first_row(self) -> int {
        match self {
            RowBound::Included(i) => i as int,
            RowBound::Excluded(i) => i + 1,
            RowBound::Unbounded => 0,
        }
    }

    /// The row just past the last one of a range that this bound closes, where
    /// there are `rows` rows in all.
    pub open spec fn end_row(self, rows: int) -> int {
        match self {
            RowBound::Included(i) => i + 1,
            RowBound::Excluded(i) => i as int,
            RowBound::Unbounded => rows,
        }
    }
}

/// Whether a pair of bounds selects rows of a table of `rows` rows: the range
/// opens at a row, ends no earlier than it starts, and stays inside the table.
pub open spec fn selects(start: RowBound, end: RowBound, rows: int) -> bool {
    &&& start.opens()
    &&& start.first_row() <= end.end_row(rows) <= rows
}

} // verus!
