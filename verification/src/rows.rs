//! Rows of cells: the sequence model of a `Vec<Vec<Cell>>` and the
//! primitive edits on it that the grid operations are built from.

use vstd::prelude::*;
use crate::cell::{Cell, default_cell};

verus! {

/// The model of a vector of rows: each row taken by its view.
pub open spec fn rv(v: Seq<Vec<Cell>>) -> Seq<Seq<Cell>> {
    v.map_values(|r: Vec<Cell>| r@)
}

/// A row of `n` blank cells.
pub open spec fn blank_row(n: nat) -> Seq<Cell> {
    Seq::new(n, |i: int| default_cell())
}

/// `k` blank rows of `n` cells each.
pub open spec fn blank_rows(k: nat, n: nat) -> Seq<Seq<Cell>> {
    Seq::new(k, |i: int| blank_row(n))
}

/// Builds a row of `n` blank cells.
pub fn blank_line(n: usize) -> (r: Vec<Cell>)
    ensures
        r@ == blank_row(n as nat),
{
    let r = vec![Cell::default(); n];
    assert(r@ =~= blank_row(n as nat));
    r
}

/// Overwrites the cell at column `c` of row `r`.
pub fn set_cell(v: &mut Vec<Vec<Cell>>, r: usize, c: usize, cell: Cell)
    requires
        r < old(v)@.len(),
        c < old(v)@[r as int]@.len(),
    ensures
        rv(final(v)@) == rv(old(v)@).update(r as int, old(v)@[r as int]@.update(c as int, cell)),
{
    let mut line: Vec<Cell> = Vec::new();
    std::mem::swap(&mut line, &mut v[r]);
    line.set(c, cell);
    std::mem::swap(&mut line, &mut v[r]);
    assert(rv(v@) =~= rv(old(v)@).update(r as int, old(v)@[r as int]@.update(c as int, cell)));
}

} // verus!

verus! {

/// `row` with the cells at columns `from..to` reset to blanks.
pub open spec fn cleared(row: Seq<Cell>, from: int, to: int) -> Seq<Cell> {
    Seq::new(row.len(), |i: int| if from <= i < to { default_cell() } else { row[i] })
}

/// The last `m` elements of `s` (all of `s` when it is not longer than `m`).
pub open spec fn keep_last<A>(s: Seq<A>, m: nat) -> Seq<A> {
    if s.len() > m { s.skip(s.len() - m) } else { s }
}

/// `s` cut or padded with `fill` to exactly `n` elements.
pub open spec fn fit_len<A>(s: Seq<A>, n: nat, fill: A) -> Seq<A> {
    if s.len() >= n { s.take(n as int) } else { s + Seq::new((n - s.len()) as nat, |i: int| fill) }
}

/// Removes and returns the first row.
pub fn rows_remove_first(v: &mut Vec<Vec<Cell>>) -> (row: Vec<Cell>)
    requires
        old(v)@.len() > 0,
    ensures
        row@ == rv(old(v)@)[0],
        rv(final(v)@) == rv(old(v)@).drop_first(),
        final(v)@.len() == old(v)@.len() - 1,
{
    let row = v.remove(0);
    assert(rv(v@) =~= rv(old(v)@).drop_first());
    row
}

/// Removes and returns the row at index `i`.
pub fn rows_remove(v: &mut Vec<Vec<Cell>>, i: usize) -> (row: Vec<Cell>)
    requires
        i < old(v)@.len(),
    ensures
        row@ == rv(old(v)@)[i as int],
        rv(final(v)@) == rv(old(v)@).remove(i as int),
        final(v)@.len() == old(v)@.len() - 1,
{
    let row = v.remove(i);
    assert(rv(v@) =~= rv(old(v)@).remove(i as int));
    row
}

/// Appends a row.
pub fn rows_push(v: &mut Vec<Vec<Cell>>, row: Vec<Cell>)
    ensures
        rv(final(v)@) == rv(old(v)@).push(row@),
        final(v)@.len() == old(v)@.len() + 1,
{
    let ghost r = row@;
    v.push(row);
    assert(rv(v@) =~= rv(old(v)@).push(r));
}

/// Inserts a row at index `i`.
pub fn rows_insert(v: &mut Vec<Vec<Cell>>, i: usize, row: Vec<Cell>)
    requires
        i <= old(v)@.len(),
    ensures
        rv(final(v)@) == rv(old(v)@).insert(i as int, row@),
        final(v)@.len() == old(v)@.len() + 1,
{
    let ghost r = row@;
    v.insert(i, row);
    assert(rv(v@) =~= rv(old(v)@).insert(i as int, r));
}

/// Removes and returns the last row.
pub fn rows_pop(v: &mut Vec<Vec<Cell>>) -> (row: Vec<Cell>)
    requires
        old(v)@.len() > 0,
    ensures
        row@ == rv(old(v)@).last(),
        rv(final(v)@) == rv(old(v)@).drop_last(),
        final(v)@.len() == old(v)@.len() - 1,
{
    let row = v.pop().unwrap();
    assert(rv(v@) =~= rv(old(v)@).drop_last());
    row
}

/// Keeps only the first `n` rows.
pub fn rows_truncate(v: &mut Vec<Vec<Cell>>, n: usize)
    requires
        n <= old(v)@.len(),
    ensures
        rv(final(v)@) == rv(old(v)@).take(n as int),
        final(v)@.len() == n,
{
    v.truncate(n);
    assert(rv(v@) =~= rv(old(v)@).take(n as int));
}

/// Keeps only the last `m` rows.
pub fn rows_keep_last(v: &mut Vec<Vec<Cell>>, m: usize)
    ensures
        rv(final(v)@) == keep_last(rv(old(v)@), m as nat),
{
    if v.len() > m {
        let k = v.len() - m;
        let tail = v.split_off(k);
        *v = tail;
        assert(rv(v@) =~= rv(old(v)@).skip(k as int));
    }
}

/// Empties the vector of rows.
pub fn rows_clear(v: &mut Vec<Vec<Cell>>)
    ensures
        rv(final(v)@) == Seq::<Seq<Cell>>::empty(),
{
    v.clear();
    assert(rv(v@) =~= Seq::<Seq<Cell>>::empty());
}

/// Resets the cells at columns `from..to` of row `r` to blanks.
pub fn clear_cells(v: &mut Vec<Vec<Cell>>, r: usize, from: usize, to: usize)
    requires
        r < old(v)@.len(),
        to <= old(v)@[r as int]@.len(),
    ensures
        rv(final(v)@) == rv(old(v)@).update(r as int, cleared(old(v)@[r as int]@, from as int, to as int)),
{
    let mut line: Vec<Cell> = Vec::new();
    std::mem::swap(&mut line, &mut v[r]);
    let ghost orig = line@;
    let mut c = from;
    while c < to
        invariant
            line@.len() == orig.len(),
            to <= orig.len(),
            from <= c,
            from <= to ==> c <= to,
            from > to ==> c == from,
            forall|i: int| 0 <= i < orig.len() ==> line@[i] == (if from <= i < c { default_cell() } else { orig[i] }),
        decreases to - c,
    {
        line.set(c, Cell::default());
        c = c + 1;
    }
    assert forall|i: int| 0 <= i < orig.len() implies line@[i] == cleared(orig, from as int, to as int)[i] by {
        assert(line@[i] == (if from <= i < c { default_cell() } else { orig[i] }));
    }
    assert(line@ =~= cleared(orig, from as int, to as int));
    std::mem::swap(&mut line, &mut v[r]);
    assert(rv(v@) =~= rv(old(v)@).update(r as int, cleared(orig, from as int, to as int)));
}

} // verus!
