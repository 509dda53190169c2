use rowvec::{RowBound, RowSlice, RowVec};

fn filled(rows: u32) -> RowVec<u32> {
    let mut t: RowVec<u32> = RowVec::new(2);
    for c in 0..rows {
        t.push(&[2 * c, 2 * c + 1]);
    }
    t
}

fn contents(t: &RowVec<u32>) -> Vec<Vec<u32>> {
    t.iter().into_iter().map(|row| row.to_vec()).collect()
}

fn window(s: &RowSlice<'_, u32>) -> Vec<Vec<u32>> {
    s.iter().into_iter().map(|row| row.to_vec()).collect()
}

#[test]
fn new_table_is_empty() {
    let t: RowVec<u8> = RowVec::new(3);
    assert_eq!(t.columns(), 3);
    assert_eq!(t.rows(), 0);
    assert!(t.iter().is_empty());
    assert_eq!(t.slice().rows(), 0);
}

#[test]
fn with_capacity_and_reserve_leave_the_rows_alone() {
    let mut t: RowVec<u32> = RowVec::with_capacity(2, 8);
    assert_eq!(t.columns(), 2);
    assert_eq!(t.rows(), 0);
    t.push(&[4, 5]);
    t.reserve(16);
    assert_eq!(t.columns(), 2);
    assert_eq!(t.rows(), 1);
    assert_eq!(contents(&t), vec![vec![4, 5]]);
}

#[test]
fn row_count_follows_pushes_removals_and_appends() {
    let mut t = filled(7);
    assert_eq!(t.rows(), 7);
    t.remove_range(RowBound::Included(2), RowBound::Excluded(5));
    assert_eq!(t.rows(), 7 - 3);
    let mut other = filled(4);
    t.append(&mut other);
    assert_eq!(t.rows(), 7 - 3 + 4);
    t.push(&[100, 101]);
    assert_eq!(t.rows(), 7 - 3 + 4 + 1);
}

#[test]
fn pushed_row_reads_back() {
    let mut t = filled(3);
    t.push(&[70, 80]);
    let i: usize = 3;
    assert_eq!(t.get_row(i), &[70, 80]);
    assert_eq!(&t[i], &[70, 80]);
    assert_eq!(*t.get_cell(i, 0), 70);
    assert_eq!(*t.get_cell(i, 1), 80);
    assert_eq!(t[(i, 0)], 70);
    assert_eq!(t[(i, 1)], 80);
    assert_eq!(t.get_row(0), &[0, 1]);
    assert_eq!(t.get_row(2), &[4, 5]);
}

#[test]
fn push_keeps_its_own_copy() {
    let mut source = vec![String::from("a"), String::from("b")];
    let mut t: RowVec<String> = RowVec::new(2);
    t.push(&source);
    source[0].push('x');
    assert_eq!(t[(0, 0)], "a");
    assert_eq!(t[(0, 1)], "b");
}

#[test]
fn cell_offset_is_row_times_width_plus_column() {
    let mut t: RowVec<usize> = RowVec::new(3);
    for r in 0..4usize {
        t.push(&[3 * r, 3 * r + 1, 3 * r + 2]);
    }
    for r in 0..4usize {
        for c in 0..3usize {
            assert_eq!(t[(r, c)], r * 3 + c);
        }
    }
}

#[test]
fn append_moves_rows_in_order() {
    let mut t = filled(2);
    let mut other: RowVec<u32> = RowVec::new(2);
    other.push(&[50, 51]);
    other.push(&[60, 61]);
    other.push(&[70, 71]);
    t.append(&mut other);
    assert_eq!(other.rows(), 0);
    assert_eq!(other.columns(), 2);
    assert_eq!(t.rows(), 5);
    assert_eq!(
        contents(&t),
        vec![vec![0, 1], vec![2, 3], vec![50, 51], vec![60, 61], vec![70, 71]]
    );
}

#[test]
fn append_of_an_empty_table_changes_nothing() {
    let mut t = filled(2);
    let mut other: RowVec<u32> = RowVec::new(2);
    t.append(&mut other);
    assert_eq!(contents(&t), vec![vec![0, 1], vec![2, 3]]);
    assert_eq!(other.rows(), 0);
}

#[test]
fn clear_removes_every_row() {
    let mut t = filled(5);
    t.clear();
    assert_eq!(t.rows(), 0);
    assert_eq!(t.columns(), 2);
    t.push(&[8, 9]);
    assert_eq!(contents(&t), vec![vec![8, 9]]);
}

#[test]
fn remove_range_shifts_later_rows_down() {
    let mut t = filled(6);
    t.remove_range(RowBound::Included(1), RowBound::Excluded(4));
    assert_eq!(t.rows(), 3);
    assert_eq!(contents(&t), vec![vec![0, 1], vec![8, 9], vec![10, 11]]);
}

#[test]
fn remove_range_with_an_inclusive_end() {
    let mut t = filled(6);
    t.remove_range(RowBound::Included(1), RowBound::Included(4));
    assert_eq!(contents(&t), vec![vec![0, 1], vec![10, 11]]);
}

#[test]
fn remove_range_unbounded_on_either_side() {
    let mut t = filled(5);
    t.remove_range(RowBound::Unbounded, RowBound::Excluded(2));
    assert_eq!(contents(&t), vec![vec![4, 5], vec![6, 7], vec![8, 9]]);
    t.remove_range(RowBound::Included(1), RowBound::Unbounded);
    assert_eq!(contents(&t), vec![vec![4, 5]]);
    t.remove_range(RowBound::Unbounded, RowBound::Unbounded);
    assert_eq!(t.rows(), 0);
}

#[test]
fn remove_range_of_no_rows_changes_nothing() {
    let mut t = filled(3);
    t.remove_range(RowBound::Included(2), RowBound::Excluded(2));
    assert_eq!(contents(&t), vec![vec![0, 1], vec![2, 3], vec![4, 5]]);
    t.remove_range(RowBound::Included(3), RowBound::Unbounded);
    assert_eq!(t.rows(), 3);
}

#[test]
fn swap_exchanges_two_rows_and_no_other() {
    let mut t = filled(4);
    t.swap_nonoverlapping(0, 2);
    assert_eq!(
        contents(&t),
        vec![vec![4, 5], vec![2, 3], vec![0, 1], vec![6, 7]]
    );
    t.swap_nonoverlapping(3, 1);
    assert_eq!(
        contents(&t),
        vec![vec![4, 5], vec![6, 7], vec![0, 1], vec![2, 3]]
    );
}

#[test]
fn swap_twice_restores_the_table() {
    let mut t = filled(5);
    let before = contents(&t);
    t.swap_nonoverlapping(4, 1);
    assert_ne!(contents(&t), before);
    t.swap_nonoverlapping(4, 1);
    assert_eq!(contents(&t), before);
}

#[test]
fn writes_through_mutable_rows_and_cells() {
    let mut t = filled(3);
    t.get_row_mut(1)[0] = 20;
    *t.get_cell_mut(1, 1) = 30;
    t[2][1] = 50;
    t[(0, 0)] = 9;
    assert_eq!(contents(&t), vec![vec![9, 1], vec![20, 30], vec![4, 50]]);
    assert_eq!(t.rows(), 3);
}

#[test]
fn iter_mut_writes_each_row_in_place() {
    let mut t = filled(3);
    let mut count: u32 = 0;
    for row in t.iter_mut() {
        assert_eq!(row.len(), 2);
        row[0] += 100;
        row[1] = count;
        count += 1;
    }
    assert_eq!(count, 3);
    assert_eq!(t.rows(), 3);
    assert_eq!(contents(&t), vec![vec![100, 0], vec![102, 1], vec![104, 2]]);
    let mut empty: RowVec<u32> = RowVec::new(4);
    assert!(empty.iter_mut().is_empty());
}

#[test]
fn iter_gives_each_row_once_in_order() {
    let t = filled(3);
    let rows = t.iter();
    assert_eq!(rows.len(), 3);
    assert_eq!(rows[0], &[0, 1]);
    assert_eq!(rows[1], &[2, 3]);
    assert_eq!(rows[2], &[4, 5]);
    let again = t.iter();
    assert_eq!(rows, again);
}

#[test]
fn slice_shows_the_whole_table() {
    let t = filled(4);
    let s = t.slice();
    assert_eq!(s.columns(), 2);
    assert_eq!(s.rows(), 4);
    assert_eq!(window(&s), contents(&t));
    assert_eq!(s.get_row(3), &[6, 7]);
    assert_eq!(*s.get_cell(3, 1), 7);
    assert_eq!(s[(2, 0)], 4);
}

#[test]
fn range_shows_exactly_the_rows_asked_for() {
    let t = filled(10);
    let s = t.slice().range(RowBound::Included(3), RowBound::Excluded(6));
    assert_eq!(s.rows(), 3);
    assert_eq!(s.columns(), 2);
    for i in 0..3usize {
        assert_eq!(&s[i], &t[3 + i]);
    }
    assert_eq!(window(&s), vec![vec![6, 7], vec![8, 9], vec![10, 11]]);
    let inclusive = t.slice().range(RowBound::Included(3), RowBound::Included(5));
    assert_eq!(window(&inclusive), window(&s));
    let all = t.slice().range(RowBound::Unbounded, RowBound::Unbounded);
    assert_eq!(window(&all), contents(&t));
    let none = t.slice().range(RowBound::Included(10), RowBound::Unbounded);
    assert_eq!(none.rows(), 0);
}

#[test]
fn range_from_and_range_to() {
    let t = filled(5);
    let tail = t.slice().range_from(3);
    assert_eq!(window(&tail), vec![vec![6, 7], vec![8, 9]]);
    let head = t.slice().range_to(2);
    assert_eq!(window(&head), vec![vec![0, 1], vec![2, 3]]);
    assert_eq!(t.slice().range_from(5).rows(), 0);
    assert_eq!(t.slice().range_to(0).rows(), 0);
    assert_eq!(t.slice().range_from(0).rows(), 5);
    assert_eq!(t.slice().range_to(5).rows(), 5);
}

#[test]
fn narrowing_a_window_again() {
    let t = filled(10);
    let outer = t.slice().range_from(2);
    let inner = outer.range(RowBound::Included(1), RowBound::Excluded(4));
    assert_eq!(window(&inner), vec![vec![6, 7], vec![8, 9], vec![10, 11]]);
    let last = inner.range_to(2).range_from(1);
    assert_eq!(window(&last), vec![vec![8, 9]]);
    assert_eq!(last[(0, 1)], 9);
}

#[test]
fn a_window_is_copied_not_moved() {
    let t = filled(3);
    let s = t.slice();
    let copy = s;
    assert_eq!(s.rows(), copy.rows());
    assert_eq!(window(&s), window(&copy));
}

#[test]
fn a_window_prints_for_debugging() {
    let t = filled(1);
    let text = format!("{:?}", t.slice());
    assert!(text.contains("RowSlice"));
    assert!(text.contains("columns: 2"));
}

#[test]
fn bounds_are_plain_values() {
    let b = RowBound::Included(3);
    let copy = b;
    assert!(matches!(b, RowBound::Included(3)));
    assert!(matches!(copy.clone(), RowBound::Included(3)));
    assert!(matches!(RowBound::Excluded(4), RowBound::Excluded(4)));
    assert!(matches!(RowBound::Unbounded, RowBound::Unbounded));
}
