//! The borrowed window: a read-only run of whole rows of some buffer.

use crate::bound::{selects, RowBound};
use crate::layout::{aligned, lemma_row_span, lemma_rows_shape, lemma_rows_subrange, rows_of};
use vstd::prelude::*;

verus! {

/// A read-only window onto whole rows of a buffer that it does not own.
/// Narrowing it gives another window onto the same buffer; nothing is copied.
#[derive(Debug, Clone, Copy)]
pub struct RowSlice<'a, T> {
    columns: usize,
    data: &'a [T],
}

impl<'a, T> View for RowSlice<'a, T> {
    type V = Seq<Seq<T>>;

    /// The window as a sequence of rows, the first one at index 0.
    closed spec fn view(&self) -> Seq<Seq<T>> {
        rows_of(self.data@, self.columns as int)
    }
}

impl<'a, T> RowSlice<'a, T> {
    /// The row width is positive and the window holds whole rows only.
    pub closed spec fn wf(&self) -> bool {
        aligned(self.data@.len() as int, self.columns as int)
    }

    /// The row width.
    pub closed spec fn spec_columns(&self) -> usize {
        self.columns
    }

    /// The cells of the window in the order in which the buffer holds them.
    pub closed spec fn flat(&self) -> Seq<T> {
        self.data@
    }

    /// The layout is row-major: the rows are the buffer cut into runs of the
    /// row width, and the cell in row `r`, column `c` is the buffer's element
    /// at offset `r * columns + c`.
    pub proof fn lemma_layout(&self)
        requires
            self.wf(),
        ensures
            self@ == rows_of(self.flat(), self.columns() as int),
            self.flat().len() == self@.len() * self.columns(),
            forall|r: int, c: int|
                0 <= r < self@.len() && 0 <= c < self.columns() ==> (#[trigger] self@[r][c])
                    == self.flat()[r * self.columns() + c],
    {
        lemma_rows_shape(self.data@, self.columns as int);
    }

    /// In a well-formed window the row width is positive, every row has that
    /// width, and all the cells together fit the address space.
    pub proof fn lemma_shape(&self)
        requires
            self.wf(),
        ensures
            self.columns() > 0,
            self@.len() * self.columns() <= usize::MAX,
            forall|r: int| 0 <= r < self@.len() ==> (#[trigger] self@[r]).len() == self.columns(),
    {
        lemma_rows_shape(self.data@, self.columns as int);
        assert(self.data@.len() == self.data.len());
    }

    /// The window onto all of `data`, read as rows of width `columns`.
    pub(crate) fn over(columns: usize, data: &'a [T]) -> (r: Self)
        requires
            aligned(data@.len() as int, columns as int),
        ensures
            r.wf(),
            r.columns() == columns,
            r@ == rows_of(data@, columns as int),
            r.flat() == data@,
    {
        RowSlice { columns: columns, data: data }
    }

    /// The row width.
    #[verifier::when_used_as_spec(spec_columns)]
    pub fn columns(&self) -> (c: usize)
        ensures
            c == self.columns(),
    {
        self.columns
    }

    /// The number of rows.
    pub fn rows(&self) -> (n: usize)
        requires
            self.wf(),
        ensures
            n == self@.len(),
    {
        self.data.len() / self.columns
    }

    /// The row at `index`, counted from the start of the window.
    pub fn get_row(&self, index: usize) -> (row: &'a [T])
        requires
            self.wf(),
            index < self@.len(),
        ensures
            row@ == self@[index as int],
    {
        proof {
            lemma_rows_shape(self.data@, self.columns as int);
            lemma_row_span(index as int, self@.len() as int, self.columns as int);
            assert(self.data@.len() == self.data.len());
        }
        let i = index * self.columns;
        let all: &'a [T] = self.data;
        &all[i..i + self.columns]
    }

    /// The cell in row `row` of the window, column `column`.
    pub fn get_cell(&self, row: usize, column: usize) -> (cell: &'a T)
        requires
            self.wf(),
            row < self@.len(),
            column < self.columns(),
        ensures
            *cell == self@[row as int][column as int],
    {
        proof {
            lemma_rows_shape(self.data@, self.columns as int);
            lemma_row_span(row as int, self@.len() as int, self.columns as int);
            assert(self.columns * row == row * self.columns) by (nonlinear_arith);
            assert(self.data@.len() == self.data.len());
        }
        let all: &'a [T] = self.data;
        &all[self.columns * row + column]
    }

    /// Every row of the window, in order.
    pub fn iter(&self) -> (rows: Vec<&'a [T]>)
        requires
            self.wf(),
        ensures
            rows@.len() == self@.len(),
            forall|r: int| 0 <= r < rows@.len() ==> (#[trigger] rows@[r])@ == self@[r],
    {
        let n = self.rows();
        let mut rows: Vec<&'a [T]> = Vec::with_capacity(n);
        let mut r: usize = 0;
        while r < n
            invariant
                self.wf(),
                n == self@.len(),
                r <= n,
                rows@.len() == r,
                forall|q: int| 0 <= q < r ==> (#[trigger] rows@[q])@ == self@[q],
            decreases n - r,
        {
            rows.push(self.get_row(r));
            r += 1;
        }
        rows
    }

    /// The window onto the rows from `lo` up to, not including, `hi`.
    fn between(&self, lo: usize, hi: usize) -> (r: RowSlice<'a, T>)
        requires
            self.wf(),
            lo <= hi <= self@.len(),
        ensures
            r.wf(),
            r.columns() == self.columns(),
            r@ == self@.subrange(lo as int, hi as int),
            r.flat() == self.flat().subrange(lo * self.columns(), hi * self.columns()),
    {
        proof {
            lemma_rows_subrange(self.data@, self.columns as int, lo as int, hi as int);
            assert(self.data@.len() == self.data.len());
        }
        let all: &'a [T] = self.data;
        RowSlice { columns: self.columns, data: &all[lo * self.columns..hi * self.columns] }
    }

    /// The window narrowed to the rows that the two bounds select. The rows
    /// are those of this window, in order, counted from 0 again.
    pub fn range(&self, start: RowBound, end: RowBound) -> (r: RowSlice<'a, T>)
        requires
            self.wf(),
            selects(start, end, self@.len() as int),
        ensures
            r.wf(),
            r.columns() == self.columns(),
            r@ == self@.subrange(start.first_row(), end.end_row(self@.len() as int)),
            r.flat() == self.flat().subrange(
                start.first_row() * self.columns(),
                end.end_row(self@.len() as int) * self.columns(),
            ),
    {
        let n = self.rows();
        let lo: usize = match start {
            RowBound::Included(i) => i,
            RowBound::Excluded(_) => unreached(),
            RowBound::Unbounded => 0,
        };
        let hi: usize = match end {
            RowBound::Included(i) => i + 1,
            RowBound::Excluded(i) => i,
            RowBound::Unbounded => n,
        };
        self.between(lo, hi)
    }

    /// The window narrowed to the rows from `start` to the end.
    pub fn range_from(&self, start: usize) -> (r: RowSlice<'a, T>)
        requires
            self.wf(),
            start <= self@.len(),
        ensures
            r.wf(),
            r.columns() == self.columns(),
            r@ == self@.subrange(start as int, self@.len() as int),
            r.flat() == self.flat().subrange(
                start * self.columns(),
                self@.len() * self.columns(),
            ),
    {
        let n = self.rows();
        self.between(start, n)
    }

    /// The window narrowed to the rows before `end`.
    pub fn range_to(&self, end: usize) -> (r: RowSlice<'a, T>)
        requires
            self.wf(),
            end <= self@.len(),
        ensures
            r.wf(),
            r.columns() == self.columns(),
            r@ == self@.subrange(0, end as int),
            r.flat() == self.flat().subrange(0, end * self.columns()),
    {
        self.between(0, end)
    }
}

impl<'a, T> vstd::std_specs::core::IndexSpecImpl<usize> for RowSlice<'a, T> {
    /// `window[index]` asks for a row that the window has.
    open spec fn index_req(&self, index: &usize) -> bool {
        self.wf() && *index < self@.len()
    }
}

impl<'a, T> core::ops::Index<usize> for RowSlice<'a, T> {
    type Output = [T];

    /// `window[index]` is the row at `index`, counted from the start of the
    /// window.
    fn index(&self, index: usize) -> (row: &[T])
        ensures
            row@ == self@[index as int],
    {
        self.get_row(index)
    }
}

impl<'a, T> vstd::std_specs::core::IndexSpecImpl<(usize, usize)> for RowSlice<'a, T> {
    /// `window[(row, column)]` asks for a cell that the window has.
    open spec fn index_req(&self, index: &(usize, usize)) -> bool {
        self.wf() && index.0 < self@.len() && index.1 < self.columns()
    }
}

impl<'a, T> core::ops::Index<(usize, usize)> for RowSlice<'a, T> {
    type Output = T;

    /// `window[(row, column)]` is the cell in that row and column.
    fn index(&self, index: (usize, usize)) -> (cell: &T)
        ensures
            *cell == self@[index.0 as int][index.1 as int],
    {
        self.get_cell(index.0, index.1)
    }
}

} // verus!
