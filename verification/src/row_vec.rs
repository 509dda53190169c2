//! The owning table: one growable buffer read as rows of a fixed width.

use crate::bound::{selects, RowBound};
use crate::layout::{
    aligned, lemma_row_span, lemma_rows_concat, lemma_rows_replace, lemma_rows_shape,
    lemma_rows_subrange, lemma_rows_update, lemma_whole_rows, removed, rows_of, swapped,
};
use crate::row_slice::RowSlice;
use vstd::prelude::*;

verus! {

/// A growable table whose rows all have the same width, stored row after row
/// in one contiguous buffer.
pub struct RowVec<T> {
    columns: usize,
    data: Vec<T>,
}

impl<T> View for RowVec<T> {
    type V = Seq<Seq<T>>;

    /// The table as a sequence of rows.
    closed spec fn view(&self) -> Seq<Seq<T>> {
        rows_of(self.data@, self.columns as int)
    }
}

/// Each element of `row` is a clone of the element of `source` at its place.
pub open spec fn row_cloned<T: Clone>(source: Seq<T>, row: Seq<T>) -> bool {
    &&& row.len() == source.len()
    &&& forall|c: int| 0 <= c < source.len() ==> cloned(#[trigger] source[c], row[c])
}

/// A clone of a `T` is always equal to the value it was made from.
pub open spec fn clone_is_exact<T: Clone>() -> bool {
    forall|a: T, b: T| #[trigger] cloned(a, b) ==> a == b
}

impl<T> RowVec<T> {
    /// The row width is positive and the buffer holds whole rows only.
    pub closed spec fn wf(&self) -> bool {
        aligned(self.data@.len() as int, self.columns as int)
    }

    /// The row width.
    pub closed spec fn spec_columns(&self) -> usize {
        self.columns
    }

    /// The cells of the table in the order in which the buffer holds them.
    pub closed spec fn flat(&self) -> Seq<T> {
        self.data@
    }

    /// The layout is row-major: the rows are the buffer cut into runs of the
    /// row width, and the cell in row `r`, column `c` is the buffer's element
    /// at offset `r * columns + c`.
    pub proof fn lemma_layout(&self)
        requires
            self.wf(),
        ensures
            self@ == rows_of(self.flat(), self.columns() as int),
            self.flat().len() == self@.len() * self.columns(),
            forall|r: int, c: int|
                0 <= r < self@.len() && 0 <= c < self.columns() ==> (#[trigger] self@[r][c])
                    == self.flat()[r * self.columns() + c],
    {
        lemma_rows_shape(self.data@, self.columns as int);
    }

    /// In a well-formed table the row width is positive, every row has that
    /// width, and all the cells together fit the address space.
    pub proof fn lemma_shape(&self)
        requires
            self.wf(),
        ensures
            self.columns() > 0,
            self@.len() * self.columns() <= usize::MAX,
            forall|r: int| 0 <= r < self@.len() ==> (#[trigger] self@[r]).len() == self.columns(),
    {
        lemma_rows_shape(self.data@, self.columns as int);
        assert(self.data@.len() == self.data.len());
    }

    /// An empty table of rows of width `columns`.
    pub fn new(columns: usize) -> (r: Self)
        requires
            columns != 0,
        ensures
            r.wf(),
            r.columns() == columns,
            r@ == Seq::<Seq<T>>::empty(),
    {
        let r = RowVec { columns: columns, data: Vec::new() };
        assert(r@ =~= Seq::<Seq<T>>::empty());
        r
    }

    /// An empty table of rows of width `columns`, with room set aside for
    /// `capacity` rows.
    pub fn with_capacity(columns: usize, capacity: usize) -> (r: Self)
        requires
            columns != 0,
            columns * capacity <= usize::MAX,
        ensures
            r.wf(),
            r.columns() == columns,
            r@ == Seq::<Seq<T>>::empty(),
    {
        let r = RowVec { columns: columns, data: Vec::with_capacity(columns * capacity) };
        assert(r@ =~= Seq::<Seq<T>>::empty());
        r
    }

    /// Sets room aside for `additional` more rows. The table itself does not
    /// change: it has the same rows, of the same width, and the same cells in
    /// the same order. How much room the buffer has is the allocator's to
    /// say and is not part of what the table is.
    pub fn reserve(&mut self, additional: usize)
        requires
            additional * old(self).columns() <= usize::MAX,
        ensures
            final(self)@ == old(self)@,
            final(self).flat() == old(self).flat(),
            final(self).columns() == old(self).columns(),
            final(self).wf() == old(self).wf(),
    {
        self.data.reserve(additional * self.columns);
    }

    /// The row width.
    #[verifier::when_used_as_spec(spec_columns)]
    pub fn columns(&self) -> (c: usize)
        ensures
            c == self.columns(),
    {
        self.columns
    }

    /// The number of rows.
    pub fn rows(&self) -> (n: usize)
        requires
            self.wf(),
        ensures
            n == self@.len(),
    {
        self.data.len() / self.columns
    }

    /// Moves every row of `other` to the end of this table, in order, and
    /// leaves `other` empty.
    pub fn append(&mut self, other: &mut Self)
        requires
            old(self).wf(),
            old(other).wf(),
            old(self).columns() == old(other).columns(),
        ensures
            final(self).wf(),
            final(other).wf(),
            final(self).columns() == old(self).columns(),
            final(other).columns() == old(other).columns(),
            final(self)@ == old(self)@ + old(other)@,
            final(other)@ == Seq::<Seq<T>>::empty(),
    {
        proof {
            lemma_rows_concat(self.data@, other.data@, self.columns as int);
        }
        self.data.append(&mut other.data);
        assert(other@ =~= Seq::<Seq<T>>::empty());
    }

    /// Removes every row. The row width stays.
    pub fn clear(&mut self)
        requires
            old(self).wf(),
        ensures
            final(self).wf(),
            final(self).columns() == old(self).columns(),
            final(self)@ == Seq::<Seq<T>>::empty(),
    {
        self.data.clear();
        assert(self@ =~= Seq::<Seq<T>>::empty());
    }

    /// Removes the rows that the two bounds select and moves the rows after
    /// them down to close the gap.
    pub fn remove_range(&mut self, start: RowBound, end: RowBound)
        requires
            old(self).wf(),
            selects(start, end, old(self)@.len() as int),
        ensures
            final(self).wf(),
            final(self).columns() == old(self).columns(),
            final(self)@ == removed(
                old(self)@,
                start.first_row(),
                end.end_row(old(self)@.len() as int),
            ),
    {
        let n = self.rows();
        let lo: usize = match start {
            RowBound::Included(i) => i,
            RowBound::Excluded(_) => unreached(),
            RowBound::Unbounded => 0,
        };
        let hi: usize = match end {
            RowBound::Included(i) => i + 1,
            RowBound::Excluded(i) => i,
            RowBound::Unbounded => n,
        };
        let ghost flat = self.data@;
        let ghost c = self.columns as int;
        proof {
            assert(flat.len() == self.data.len());
            lemma_rows_shape(flat, c);
            lemma_rows_subrange(flat, c, 0, lo as int);
            lemma_rows_subrange(flat, c, hi as int, n as int);
            lemma_rows_subrange(flat, c, lo as int, hi as int);
            lemma_rows_concat(
                flat.subrange(0, lo * c),
                flat.subrange(hi * c, flat.len() as int),
                c,
            );
        }
        let mut tail = self.data.split_off(hi * self.columns);
        self.data.truncate(lo * self.columns);
        self.data.append(&mut tail);
        proof {
            assert(0 * c == 0 && n * c == flat.len()) by (nonlinear_arith)
                requires
                    n * c == flat.len(),
            ;
            assert(self.data@ =~= flat.subrange(0, lo * c) + flat.subrange(
                hi * c,
                flat.len() as int,
            ));
        }
    }

    /// Exchanges the rows at `a` and `b`, element by element.
    pub fn swap_nonoverlapping(&mut self, a: usize, b: usize)
        requires
            old(self).wf(),
            a != b,
            a < old(self)@.len(),
            b < old(self)@.len(),
        ensures
            final(self).wf(),
            final(self).columns() == old(self).columns(),
            final(self)@ == swapped(old(self)@, a as int, b as int),
    {
        let c = self.columns;
        let ghost before = self.data@;
        let ghost n = self@.len() as int;
        let (first, second) = if a < b {
            (a, b)
        } else {
            (b, a)
        };
        proof {
            assert(before.len() == self.data.len());
            lemma_rows_shape(before, c as int);
            lemma_row_span(first as int, second as int, c as int);
            lemma_row_span(second as int, n, c as int);
        }
        let i_l = first * c;
        let i_r = second * c;
        let mut k: usize = 0;
        while k < c
            invariant
                k <= c,
                self.columns == c,
                self.data@.len() == before.len(),
                i_l + c <= i_r,
                i_r + c <= before.len(),
                forall|j: int|
                    0 <= j < before.len() ==> #[trigger] self.data@[j] == if i_l <= j < i_l + k {
                        before[j - i_l + i_r]
                    } else if i_r <= j < i_r + k {
                        before[j - i_r + i_l]
                    } else {
                        before[j]
                    },
            decreases c - k,
        {
            let (left, right) = self.data.as_mut_slice().split_at_mut(i_r);
            core::mem::swap(&mut left[i_l + k], &mut right[k]);
            k += 1;
        }
        proof {
            let rows = old(self)@;
            let goal = swapped(rows, a as int, b as int);
            assert(self@.len() == goal.len());
            assert forall|r: int| 0 <= r < n implies self@[r] == goal[r] by {
                lemma_row_span(r, n, c as int);
                if r < first {
                    lemma_row_span(r, first as int, c as int);
                } else if r > first {
                    lemma_row_span(first as int, r, c as int);
                }
                if r < second {
                    lemma_row_span(r, second as int, c as int);
                } else if r > second {
                    lemma_row_span(second as int, r, c as int);
                }
                assert(self@[r] =~= goal[r]);
            }
            assert(self@ =~= goal);
        }
    }

    /// A read-only window onto all the rows of the table as it is now.
    pub fn slice<'a>(&'a self) -> (s: RowSlice<'a, T>)
        requires
            self.wf(),
        ensures
            s.wf(),
            s.columns() == self.columns(),
            s@ == self@,
            s.flat() == self.flat(),
    {
        RowSlice::over(self.columns, self.data.as_slice())
    }

    /// Every row of the table, in order.
    pub fn iter<'a>(&'a self) -> (rows: Vec<&'a [T]>)
        requires
            self.wf(),
        ensures
            rows@.len() == self@.len(),
            forall|r: int| 0 <= r < rows@.len() ==> (#[trigger] rows@[r])@ == self@[r],
    {
        self.slice().iter()
    }

    /// The row at `index`.
    pub fn get_row(&self, index: usize) -> (row: &[T])
        requires
            self.wf(),
            index < self@.len(),
        ensures
            row@ == self@[index as int],
    {
        proof {
            lemma_rows_shape(self.data@, self.columns as int);
            lemma_row_span(index as int, self@.len() as int, self.columns as int);
            assert(self.data@.len() == self.data.len());
        }
        let i = index * self.columns;
        let all = self.data.as_slice();
        &all[i..i + self.columns]
    }

    /// The cell in row `row`, column `column`.
    pub fn get_cell(&self, row: usize, column: usize) -> (cell: &T)
        requires
            self.wf(),
            row < self@.len(),
            column < self.columns(),
        ensures
            *cell == self@[row as int][column as int],
    {
        proof {
            lemma_rows_shape(self.data@, self.columns as int);
            lemma_row_span(row as int, self@.len() as int, self.columns as int);
            assert(self.columns * row == row * self.columns) by (nonlinear_arith);
            assert(self.data@.len() == self.data.len());
        }
        &self.data[self.columns * row + column]
    }

    /// Every row of the table, in order, each to be written in place. Once
    /// the rows are given back the table holds, row by row, what was written.
    /// The clauses on the table afterwards are stated for rows that still
    /// have their length, as every slice has.
    pub fn iter_mut<'a>(&'a mut self) -> (rows: Vec<&'a mut [T]>)
        requires
            old(self).wf(),
        ensures
            rows@.len() == old(self)@.len(),
            forall|r: int| 0 <= r < rows@.len() ==> rows@[r]@ == #[trigger] old(self)@[r],
            final(self).columns() == old(self).columns(),
            (forall|r: int|
                0 <= r < rows@.len() ==> (#[trigger] final(rows@[r])@).len() == old(self).columns())
                ==> {
                &&& final(self).wf()
                &&& final(self)@.len() == old(self)@.len()
                &&& forall|r: int|
                    0 <= r < rows@.len() ==> #[trigger] final(self)@[r] == final(rows@[r])@
            },
    {
        let ghost flat = self.data@;
        let ghost c = self.columns as int;
        let n = self.rows();
        let width = self.columns;
        proof {
            lemma_rows_shape(flat, c);
            assert(flat.len() == self.data.len());
        }
        let mut rows: Vec<&'a mut [T]> = Vec::with_capacity(n);
        let mut rest: &'a mut [T] = self.data.as_mut_slice();
        let mut r: usize = 0;
        assert(0 * c == 0) by (nonlinear_arith);
        while r < n
            invariant
                c == width,
                aligned(flat.len() as int, c),
                n * c == flat.len(),
                r <= n,
                rows@.len() == r,
                rest@ =~= flat.subrange(r * c, flat.len() as int),
                0 <= r * c <= flat.len(),
                forall|q: int|
                    0 <= q < r ==> rows@[q]@ == #[trigger] flat.subrange(q * c, q * c + c),
                // Where the rows handed out so far and the rest keep their
                // lengths, the buffer will hold those rows and then the rest.
                ((forall|q: int| 0 <= q < r ==> (#[trigger] final(rows@[q])@).len() == c)
                    && final(rest)@.len() == rest@.len()) ==> {
                    &&& after_borrow(self.data)@.len() == flat.len()
                    &&& forall|q: int|
                        0 <= q < r ==> after_borrow(self.data)@.subrange(q * c, q * c + c) == (
                        #[trigger] final(rows@[q])@)
                    &&& after_borrow(self.data)@.subrange(r * c, flat.len() as int)
                        =~= final(rest)@
                },
            decreases n - r,
        {
            let ghost prev = rows@;
            let ghost at = r as int;
            let ghost len = flat.len() as int;
            proof {
                lemma_row_span(at, n as int, c);
                assert((at + 1) * c == at * c + c) by (nonlinear_arith);
            }
            // Whatever the buffer holds in the end, its part from row `at` on
            // splits into row `at` and the part after it.
            assert forall|s: Seq<T>| s.len() == len implies {
                let from = #[trigger] s.subrange(at * c, len);
                &&& from.subrange(0, c) == s.subrange(at * c, at * c + c)
                &&& from.subrange(c, len - at * c) == s.subrange(at * c + c, len)
            } by {
                let from = s.subrange(at * c, len);
                assert(from.subrange(0, c) =~= s.subrange(at * c, at * c + c));
                assert(from.subrange(c, len - at * c) =~= s.subrange(at * c + c, len));
            }
            assert forall|a: Seq<T>, b: Seq<T>| a.len() == c implies {
                let both = #[trigger] (a + b);
                &&& both.subrange(0, c) == a
                &&& both.subrange(c, both.len() as int) == b
            } by {
                assert((a + b).subrange(0, c) =~= a);
                assert((a + b).subrange(c, (a + b).len() as int) =~= b);
            }
            let (row, tail) = rest.split_at_mut(width);
            assert(row@ =~= flat.subrange(at * c, at * c + c));
            assert(tail@ =~= flat.subrange(at * c + c, len));
            rows.push(row);
            rest = tail;
            r += 1;
            assert(forall|q: int| 0 <= q < at ==> rows@[q] == #[trigger] prev[q]);
            assert(rows@[at]@.len() == c);
        }
        assert(rest@.len() == 0);
        assert forall|q: int|
            0 <= q < n && (forall|p: int|
                0 <= p < n ==> (#[trigger] final(rows@[p])@).len() == c) implies #[trigger] rows_of(
            after_borrow(self.data)@,
            c,
        )[q] == final(rows@[q])@ by {
            lemma_row_span(q, n as int, c);
        }
        rows
    }

    /// The row at `index`, to be written in place. What is written becomes
    /// row `index` of the table and no other row changes. The clauses on the
    /// table afterwards are stated for a row that still has its length, as
    /// every slice has.
    pub fn get_row_mut(&mut self, index: usize) -> (row: &mut [T])
        requires
            old(self).wf(),
            index < old(self)@.len(),
        ensures
            row@ == old(self)@[index as int],
            final(row)@.len() == row@.len() ==> final(self).wf(),
            final(self).columns() == old(self).columns(),
            final(row)@.len() == row@.len() ==> final(self)@ == old(self)@.update(
                index as int,
                final(row)@,
            ),
    {
        let ghost flat = self.data@;
        let ghost c = self.columns as int;
        proof {
            lemma_rows_shape(flat, c);
            lemma_row_span(index as int, self@.len() as int, c);
            assert(flat.len() == self.data.len());
        }
        let i = index * self.columns;
        let width = self.columns;
        assert forall|put: Seq<T>| put.len() == c implies #[trigger] rows_of(
            flat.subrange(0, i as int) + put + flat.subrange(i + c, flat.len() as int),
            c,
        ) == rows_of(flat, c).update(index as int, put) by {
            lemma_rows_replace(flat, c, index as int, put);
        }
        let (head, rest) = self.data.as_mut_slice().split_at_mut(i);
        let (row, tail) = rest.split_at_mut(width);
        assert(row@ =~= flat.subrange(i as int, i + c));
        assert(tail@ =~= flat.subrange(i + c, flat.len() as int));
        assert(final(row)@.len() == c ==> (head@ + (final(row)@ + tail@)).len() == flat.len());
        assert(head@ + (final(row)@ + tail@) =~= head@ + final(row)@ + tail@);
        row
    }

    /// The cell in row `row`, column `column`, to be written in place.
    pub fn get_cell_mut(&mut self, row: usize, column: usize) -> (cell: &mut T)
        requires
            old(self).wf(),
            row < old(self)@.len(),
            column < old(self).columns(),
        ensures
            *cell == old(self)@[row as int][column as int],
            final(self).wf(),
            final(self).columns() == old(self).columns(),
            final(self)@ == old(self)@.update(
                row as int,
                old(self)@[row as int].update(column as int, *final(cell)),
            ),
    {
        let ghost flat = self.data@;
        let ghost c = self.columns as int;
        proof {
            lemma_rows_shape(flat, c);
            lemma_row_span(row as int, self@.len() as int, c);
            assert(self.columns * row == row * self.columns) by (nonlinear_arith);
            assert(flat.len() == self.data.len());
        }
        assert forall|v: T| #[trigger]
            rows_of(flat.update(row * c + column, v), c) == rows_of(flat, c).update(
                row as int,
                rows_of(flat, c)[row as int].update(column as int, v),
            ) by {
            lemma_rows_update(flat, c, row as int, column as int, v);
        }
        &mut self.data[self.columns * row + column]
    }
}

impl<T: Clone> RowVec<T> {
    /// Adds one row at the end, made of clones of the elements of `value`.
    pub fn push(&mut self, value: &[T])
        requires
            old(self).wf(),
            value@.len() == old(self).columns(),
        ensures
            final(self).wf(),
            final(self).columns() == old(self).columns(),
            final(self)@ == old(self)@.push(final(self)@.last()),
            row_cloned(value@, final(self)@.last()),
            clone_is_exact::<T>() ==> final(self)@ == old(self)@.push(value@),
    {
        let ghost before = self.data@;
        self.data.extend_from_slice(value);
        proof {
            let c = self.columns as int;
            let added = self.data@.subrange(before.len() as int, self.data@.len() as int);
            assert(self.data@ =~= before + added);
            lemma_whole_rows(1, c);
            lemma_rows_concat(before, added, c);
            assert(rows_of(added, c) =~= seq![added]) by {
                assert(rows_of(added, c)[0] =~= added);
            }
            assert(self@ =~= old(self)@.push(added));
            assert(self@.last() == added);
            if clone_is_exact::<T>() {
                assert(added =~= value@);
            }
        }
    }
}

impl<T> vstd::std_specs::core::IndexSpecImpl<usize> for RowVec<T> {
    /// `table[index]` asks for a row that the table has.
    open spec fn index_req(&self, index: &usize) -> bool {
        self.wf() && *index < self@.len()
    }
}

impl<T> core::ops::Index<usize> for RowVec<T> {
    type Output = [T];

    /// `table[index]` is the row at `index`.
    fn index(&self, index: usize) -> (row: &[T])
        ensures
            row@ == self@[index as int],
    {
        self.get_row(index)
    }
}

impl<T> vstd::std_specs::core::IndexSpecImpl<(usize, usize)> for RowVec<T> {
    /// `table[(row, column)]` asks for a cell that the table has.
    open spec fn index_req(&self, index: &(usize, usize)) -> bool {
        self.wf() && index.0 < self@.len() && index.1 < self.columns()
    }
}

impl<T> core::ops::Index<(usize, usize)> for RowVec<T> {
    type Output = T;

    /// `table[(row, column)]` is the cell in that row and column.
    fn index(&self, index: (usize, usize)) -> (cell: &T)
        ensures
            *cell == self@[index.0 as int][index.1 as int],
    {
        self.get_cell(index.0, index.1)
    }
}

impl<T> core::ops::IndexMut<usize> for RowVec<T> {
    /// `table[index]`, to be written in place.
    fn index_mut(&mut self, index: usize) -> (row: &mut [T])
        requires
            old(self).wf(),
            index < old(self)@.len(),
        ensures
            row@ == old(self)@[index as int],
            final(self).columns() == old(self).columns(),
            final(row)@.len() == row@.len() ==> final(self).wf(),
            final(row)@.len() == row@.len() ==> final(self)@ == old(self)@.update(
                index as int,
                final(row)@,
            ),
    {
        self.get_row_mut(index)
    }
}

impl<T> core::ops::IndexMut<(usize, usize)> for RowVec<T> {
    /// `table[(row, column)]`, to be written in place.
    fn index_mut(&mut self, index: (usize, usize)) -> (cell: &mut T)
        requires
            old(self).wf(),
            index.0 < old(self)@.len(),
            index.1 < old(self).columns(),
        ensures
            *cell == old(self)@[index.0 as int][index.1 as int],
            final(self).wf(),
            final(self).columns() == old(self).columns(),
            final(self)@ == old(self)@.update(
                index.0 as int,
                old(self)@[index.0 as int].update(index.1 as int, *final(cell)),
            ),
    {
        self.get_cell_mut(index.0, index.1)
    }
}

} // verus!
