//! What holds of the table's operations taken together, stated over the rows
//! that the operations' contracts speak of.

use crate::bound::{selects, RowBound};
use crate::layout::{removed, swapped};
use crate::row_vec::{clone_is_exact, row_cloned};
use vstd::prelude::*;

verus! {

/// One change of the number of rows of a table.
pub enum Step<T> {
    /// One row is pushed.
    Push(Seq<T>),
    /// The rows from the first index up to, not including, the second are
    /// removed.
    Remove(int, int),
    /// The rows of another table are appended.
    Append(Seq<Seq<T>>),
}

/// Whether `step` can be taken on a table that holds `rows`.
pub open spec fn allowed<T>(rows: Seq<Seq<T>>, step: Step<T>) -> bool {
    match step {
        Step::Push(_) => true,
        Step::Remove(lo, hi) => 0 <= lo <= hi <= rows.len(),
        Step::Append(_) => true,
    }
}

/// The rows of a table after `step`, as the contracts of `push`,
/// `remove_range` and `append` give them.
pub open spec fn after<T>(rows: Seq<Seq<T>>, step: Step<T>) -> Seq<Seq<T>> {
    match step {
        Step::Push(row) => rows.push(row),
        Step::Remove(lo, hi) => removed(rows, lo, hi),
        Step::Append(other) => rows + other,
    }
}

/// The rows of a table that started empty and went through `steps` in order.
pub open spec fn replay<T>(steps: Seq<Step<T>>) -> Seq<Seq<T>>
    decreases steps.len(),
{
    if steps.len() == 0 {
        Seq::empty()
    } else {
        after(replay(steps.drop_last()), steps.last())
    }
}

/// Whether each of `steps` can be taken when its turn comes.
pub open spec fn all_allowed<T>(steps: Seq<Step<T>>) -> bool
    decreases steps.len(),
{
    steps.len() == 0 || (all_allowed(steps.drop_last()) && allowed(
        replay(steps.drop_last()),
        steps.last(),
    ))
}

/// By how much `step` changes the number of rows.
pub open spec fn gain<T>(step: Step<T>) -> int {
    match step {
        Step::Push(_) => 1,
        Step::Remove(lo, hi) => lo - hi,
        Step::Append(other) => other.len() as int,
    }
}

/// The rows pushed, less the rows removed, plus the rows appended, over all
/// of `steps`.
pub open spec fn balance<T>(steps: Seq<Step<T>>) -> int
    decreases steps.len(),
{
    if steps.len() == 0 {
        0
    } else {
        balance(steps.drop_last()) + gain(steps.last())
    }
}

/// Row count: a table that started empty has as many rows as were pushed,
/// less those removed, plus those appended from other tables.
pub proof fn law_row_count<T>(steps: Seq<Step<T>>)
    requires
        all_allowed(steps),
    ensures
        replay(steps).len() == balance(steps),
    decreases steps.len(),
{
    if steps.len() > 0 {
        law_row_count(steps.drop_last());
    }
}

/// Round trip: after a push the new row is the last one, it reads back as
/// pushed, cell by cell, and the rows before it are as they were.
pub proof fn law_push_reads_back<T>(rows: Seq<Seq<T>>, row: Seq<T>)
    ensures
        rows.push(row).len() == rows.len() + 1,
        rows.push(row)[rows.len() as int] == row,
        forall|c: int| 0 <= c < row.len() ==> rows.push(row)[rows.len() as int][c] == row[c],
        forall|r: int| 0 <= r < rows.len() ==> rows.push(row)[r] == rows[r],
{
}

/// Where cloning is exact, a row made of clones of `source` is `source`.
pub proof fn law_exact_clone_row<T: Clone>(source: Seq<T>, row: Seq<T>)
    requires
        row_cloned(source, row),
        clone_is_exact::<T>(),
    ensures
        row == source,
{
    assert(row =~= source);
}

/// Append: the rows of the first table come first and keep their places, the
/// rows of the second follow in their own order.
pub proof fn law_append_order<T>(first: Seq<Seq<T>>, second: Seq<Seq<T>>)
    ensures
        (first + second).len() == first.len() + second.len(),
        forall|r: int| 0 <= r < first.len() ==> (first + second)[r] == first[r],
        forall|r: int|
            0 <= r < second.len() ==> (first + second)[first.len() + r] == second[r],
{
}

/// Removal: taking out the rows `lo..hi` leaves `hi - lo` rows fewer, keeps
/// the rows before `lo` in place, and moves each row from `hi` on down by
/// `hi - lo` places.
pub proof fn law_remove_shifts<T>(rows: Seq<Seq<T>>, lo: int, hi: int)
    requires
        0 <= lo <= hi <= rows.len(),
    ensures
        removed(rows, lo, hi).len() == rows.len() - (hi - lo),
        forall|r: int| 0 <= r < lo ==> removed(rows, lo, hi)[r] == rows[r],
        forall|r: int| hi <= r < rows.len() ==> removed(rows, lo, hi)[r - (hi - lo)] == rows[r],
{
}

/// Swap: the two rows change places, every other row stays, and the number
/// of rows stays.
pub proof fn law_swap_exchanges<T>(rows: Seq<Seq<T>>, a: int, b: int)
    requires
        0 <= a < rows.len(),
        0 <= b < rows.len(),
        a != b,
    ensures
        swapped(rows, a, b).len() == rows.len(),
        swapped(rows, a, b)[a] == rows[b],
        swapped(rows, a, b)[b] == rows[a],
        forall|r: int| 0 <= r < rows.len() && r != a && r != b ==> swapped(rows, a, b)[r] == rows[r],
{
}

/// Swap is its own inverse: the same swap twice gives the table back.
pub proof fn law_swap_twice<T>(rows: Seq<Seq<T>>, a: int, b: int)
    requires
        0 <= a < rows.len(),
        0 <= b < rows.len(),
        a != b,
    ensures
        swapped(swapped(rows, a, b), a, b) == rows,
{
    assert(swapped(swapped(rows, a, b), a, b) =~= rows);
}

/// Narrowing: the window that two bounds select holds exactly the rows from
/// the first selected row to the last, and row `i` of the window is the row
/// `i` places after the first selected row.
pub proof fn law_range_rows<T>(rows: Seq<Seq<T>>, start: RowBound, end: RowBound)
    requires
        selects(start, end, rows.len() as int),
    ensures
        rows.subrange(start.first_row(), end.end_row(rows.len() as int)).len() == end.end_row(
            rows.len() as int,
        ) - start.first_row(),
        forall|i: int|
            0 <= i < end.end_row(rows.len() as int) - start.first_row() ==> rows.subrange(
                start.first_row(),
                end.end_row(rows.len() as int),
            )[i] == rows[start.first_row() + i],
{
}

/// Narrowing from a row, or up to a row, is narrowing by a pair of bounds
/// with the other side left open.
pub proof fn law_range_from_to<T>(rows: Seq<Seq<T>>, at: usize)
    requires
        at <= rows.len(),
    ensures
        selects(RowBound::Included(at), RowBound::Unbounded, rows.len() as int),
        selects(RowBound::Unbounded, RowBound::Excluded(at), rows.len() as int),
        rows.subrange(at as int, rows.len() as int) == rows.subrange(
            RowBound::Included(at).first_row(),
            RowBound::Unbounded.end_row(rows.len() as int),
        ),
        rows.subrange(0, at as int) == rows.subrange(
            RowBound::Unbounded.first_row(),
            RowBound::Excluded(at).end_row(rows.len() as int),
        ),
{
}

/// Narrowing a window again counts rows from the start of that window.
pub proof fn law_range_of_range<T>(rows: Seq<Seq<T>>, lo: int, hi: int, inner_lo: int, inner_hi: int)
    requires
        0 <= lo <= hi <= rows.len(),
        0 <= inner_lo <= inner_hi <= hi - lo,
    ensures
        rows.subrange(lo, hi).subrange(inner_lo, inner_hi) == rows.subrange(
            lo + inner_lo,
            lo + inner_hi,
        ),
{
    assert(rows.subrange(lo, hi).subrange(inner_lo, inner_hi) =~= rows.subrange(
        lo + inner_lo,
        lo + inner_hi,
    ));
}

} // verus!
