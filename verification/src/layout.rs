//! The row-major layout: how a flat buffer is read as a sequence of rows.

use vstd::prelude::*;

verus! {

/// The rows of a flat row-major buffer: row `r` is the `columns` elements that
/// start at flat offset `r * columns`.
pub open spec fn rows_of<T>(flat: Seq<T>, columns: int) -> Seq<Seq<T>> {
    Seq::new(
        (flat.len() as int / columns) as nat,
        |r: int| flat.subrange(r * columns, r * columns + columns),
    )
}

/// What is left of `rows` once the rows `lo..hi` are taken out: the rows
/// before `lo`, then the rows from `hi` on, each `hi - lo` places down.
pub open spec fn removed<A>(rows: Seq<A>, lo: int, hi: int) -> Seq<A> {
    rows.subrange(0, lo) + rows.subrange(hi, rows.len() as int)
}

/// `rows` with the rows at `a` and `b` exchanged.
pub open spec fn swapped<A>(rows: Seq<A>, a: int, b: int) -> Seq<A> {
    rows.update(a, rows[b]).update(b, rows[a])
}

/// A buffer holds whole rows only.
pub open spec fn aligned(len: int, columns: int) -> bool {
    columns > 0 && len >= 0 && len % columns == 0
}

/// `n` whole rows take `n * columns` elements, and the other way round.
pub proof fn lemma_whole_rows(n: int, columns: int)
    requires
        columns > 0,
        n >= 0,
    ensures
        n * columns >= 0,
        (n * columns) % columns == 0,
        (n * columns) / columns == n,
{
    vstd::arithmetic::div_mod::lemma_div_multiples_vanish(n, columns);
    vstd::arithmetic::div_mod::lemma_mod_multiples_basic(n, columns);
    assert(n * columns >= 0) by (nonlinear_arith)
        requires
            n >= 0,
            columns > 0,
    ;
    assert(n * columns == columns * n) by (nonlinear_arith);
}

/// An aligned length is its row count times the row width.
pub proof fn lemma_aligned_len(len: int, columns: int)
    requires
        aligned(len, columns),
    ensures
        len / columns >= 0,
        (len / columns) * columns == len,
{
    vstd::arithmetic::div_mod::lemma_fundamental_div_mod(len, columns);
    assert(columns * (len / columns) == (len / columns) * columns) by (nonlinear_arith);
    assert(len / columns >= 0) by (nonlinear_arith)
        requires
            len >= 0,
            columns > 0,
    ;
}

/// Row `r` of `n` lies inside the first `n * columns` elements.
pub proof fn lemma_row_span(r: int, n: int, columns: int)
    requires
        columns > 0,
        0 <= r <= n,
    ensures
        0 <= r * columns <= n * columns,
        r < n ==> r * columns + columns <= n * columns,
        (n - r) * columns == n * columns - r * columns,
{
    assert(0 <= r * columns <= n * columns) by (nonlinear_arith)
        requires
            columns > 0,
            0 <= r <= n,
    ;
    assert(r < n ==> r * columns + columns <= n * columns) by (nonlinear_arith)
        requires
            columns > 0,
            0 <= r <= n,
    ;
    assert((n - r) * columns == n * columns - r * columns) by (nonlinear_arith);
}

/// Every row has the row width, and a cell sits at flat offset
/// `r * columns + c`.
pub proof fn lemma_rows_shape<T>(flat: Seq<T>, columns: int)
    requires
        aligned(flat.len() as int, columns),
    ensures
        rows_of(flat, columns).len() * columns == flat.len(),
        forall|r: int|
            0 <= r < rows_of(flat, columns).len() ==> (#[trigger] rows_of(flat, columns)[r]).len()
                == columns,
        forall|r: int, c: int|
            0 <= r < rows_of(flat, columns).len() && 0 <= c < columns ==> (#[trigger] rows_of(
                flat,
                columns,
            )[r][c]) == flat[r * columns + c],
{
    let n = flat.len() as int / columns;
    lemma_aligned_len(flat.len() as int, columns);
    let rows = rows_of(flat, columns);
    assert forall|r: int| 0 <= r < rows.len() implies (#[trigger] rows[r]).len() == columns by {
        lemma_row_span(r, n, columns);
    }
    assert forall|r: int, c: int| 0 <= r < rows.len() && 0 <= c < columns implies (
    #[trigger] rows_of(flat, columns)[r][c]) == flat[r * columns + c] by {
        lemma_row_span(r, n, columns);
    }
}

/// The rows of two aligned buffers laid end to end are the rows of the first
/// followed by the rows of the second.
pub proof fn lemma_rows_concat<T>(a: Seq<T>, b: Seq<T>, columns: int)
    requires
        aligned(a.len() as int, columns),
        aligned(b.len() as int, columns),
    ensures
        aligned((a + b).len() as int, columns),
        rows_of(a + b, columns) == rows_of(a, columns) + rows_of(b, columns),
{
    let na = a.len() as int / columns;
    let nb = b.len() as int / columns;
    lemma_aligned_len(a.len() as int, columns);
    lemma_aligned_len(b.len() as int, columns);
    assert((na + nb) * columns == na * columns + nb * columns) by (nonlinear_arith);
    lemma_whole_rows(na + nb, columns);
    let whole = rows_of(a + b, columns);
    let parts = rows_of(a, columns) + rows_of(b, columns);
    assert(whole.len() == parts.len());
    assert forall|r: int| 0 <= r < whole.len() implies whole[r] == parts[r] by {
        lemma_row_span(r, na + nb, columns);
        if r < na {
            lemma_row_span(r, na, columns);
            assert(whole[r] =~= rows_of(a, columns)[r]);
        } else {
            lemma_row_span(na, r, columns);
            lemma_row_span(r - na, nb, columns);
            assert(whole[r] =~= rows_of(b, columns)[r - na]);
        }
    }
    assert(whole =~= parts);
}

/// The rows of the flat range that starts at row `lo` and ends before row `hi`
/// are the rows `lo..hi`.
pub proof fn lemma_rows_subrange<T>(flat: Seq<T>, columns: int, lo: int, hi: int)
    requires
        aligned(flat.len() as int, columns),
        0 <= lo <= hi <= rows_of(flat, columns).len(),
    ensures
        0 <= lo * columns <= hi * columns <= flat.len(),
        aligned(hi * columns - lo * columns, columns),
        rows_of(flat.subrange(lo * columns, hi * columns), columns) == rows_of(
            flat,
            columns,
        ).subrange(lo, hi),
{
    let n = flat.len() as int / columns;
    lemma_aligned_len(flat.len() as int, columns);
    lemma_row_span(lo, hi, columns);
    lemma_row_span(hi, n, columns);
    lemma_whole_rows(hi - lo, columns);
    let part = rows_of(flat.subrange(lo * columns, hi * columns), columns);
    let rows = rows_of(flat, columns).subrange(lo, hi);
    assert(part.len() == rows.len());
    assert forall|r: int| 0 <= r < part.len() implies part[r] == rows[r] by {
        lemma_row_span(r, hi - lo, columns);
        lemma_row_span(lo + r, hi, columns);
        assert((lo + r) * columns == lo * columns + r * columns) by (nonlinear_arith);
        assert(part[r] =~= rows[r]);
    }
    assert(part =~= rows);
}

/// Writing one element at flat offset `r * columns + c` changes cell `c` of
/// row `r` and nothing else.
pub proof fn lemma_rows_update<T>(flat: Seq<T>, columns: int, r: int, c: int, v: T)
    requires
        aligned(flat.len() as int, columns),
        0 <= r < rows_of(flat, columns).len(),
        0 <= c < columns,
    ensures
        0 <= r * columns + c < flat.len(),
        rows_of(flat.update(r * columns + c, v), columns) == rows_of(flat, columns).update(
            r,
            rows_of(flat, columns)[r].update(c, v),
        ),
{
    let n = flat.len() as int / columns;
    lemma_aligned_len(flat.len() as int, columns);
    lemma_row_span(r, n, columns);
    let after = rows_of(flat.update(r * columns + c, v), columns);
    let goal = rows_of(flat, columns).update(r, rows_of(flat, columns)[r].update(c, v));
    assert(after.len() == goal.len());
    assert forall|q: int| 0 <= q < n implies after[q] == goal[q] by {
        lemma_row_span(q, n, columns);
        if q < r {
            lemma_row_span(q, r, columns);
        } else if q > r {
            lemma_row_span(r, q, columns);
        }
        assert(after[q] =~= goal[q]);
    }
    assert(after =~= goal);
}

/// Putting `row` in place of the elements of row `r` changes row `r` and
/// nothing else.
pub proof fn lemma_rows_replace<T>(flat: Seq<T>, columns: int, r: int, row: Seq<T>)
    requires
        aligned(flat.len() as int, columns),
        0 <= r < rows_of(flat, columns).len(),
        row.len() == columns,
    ensures
        0 <= r * columns,
        r * columns + columns <= flat.len(),
        rows_of(
            flat.subrange(0, r * columns) + row + flat.subrange(
                r * columns + columns,
                flat.len() as int,
            ),
            columns,
        ) == rows_of(flat, columns).update(r, row),
{
    let n = flat.len() as int / columns;
    lemma_aligned_len(flat.len() as int, columns);
    lemma_row_span(r, n, columns);
    let joined = flat.subrange(0, r * columns) + row + flat.subrange(
        r * columns + columns,
        flat.len() as int,
    );
    let after = rows_of(joined, columns);
    let goal = rows_of(flat, columns).update(r, row);
    assert(joined.len() == flat.len());
    assert(after.len() == goal.len());
    assert forall|q: int| 0 <= q < n implies after[q] == goal[q] by {
        lemma_row_span(q, n, columns);
        if q < r {
            lemma_row_span(q, r, columns);
        } else if q > r {
            lemma_row_span(r, q, columns);
        }
        assert(after[q] =~= goal[q]);
    }
    assert(after =~= goal);
}

} // verus!
