//! Grid cells and sets of them.

use std::collections::HashSet;
use vstd::prelude::*;
use crate::seqs::{lemma_push_fresh, lemma_push_holds, lemma_take_all, lemma_take_holds};

verus! {

broadcast use vstd::std_specs::hash::group_hash_axioms;

/// A grid cell, named by the grid lines at its left and its lower edge: the
/// cell of pitch `g` at `(column, row)` covers `column .. column + g` across
/// and `row .. row + g` up.
#[derive(Clone, Copy, Debug, PartialEq, Eq, Structural)]
pub struct Cell {
    pub column: i64,
    pub row: i64,
}

/// The number that stands for a cell in the index of a cell set: the
/// column in the upper half, the row, counted from the least one, in the
/// lower half.
pub open spec fn cell_key(c: Cell) -> int {
    c.column * 0x1_0000_0000_0000_0000 + (c.row + 0x8000_0000_0000_0000)
}

/// Two cells with one key are one cell.
pub proof fn lemma_cell_key(a: Cell, b: Cell)
    ensures
        cell_key(a) == cell_key(b) <==> a == b,
        i128::MIN <= cell_key(a) <= i128::MAX,
{
}

/// A set of grid cells, each held once. The cells are listed in a vector,
/// and a hash set of their keys answers whether a cell is held.
pub struct CellSet {
    cells: Vec<Cell>,
    index: HashSet<i128>,
}

impl View for CellSet {
    type V = Set<Cell>;

    closed spec fn view(&self) -> Set<Cell> {
        self.cells@.to_set()
    }
}

fn key_of(cell: Cell) -> (k: i128)
    ensures
        k == cell_key(cell),
{
    (cell.column as i128) * 0x1_0000_0000_0000_0000 + (cell.row as i128 + 0x8000_0000_0000_0000)
}

impl CellSet {
    /// The invariant of every cell set: no cell is listed twice, and the
    /// index holds the keys of the listed cells.
    pub closed spec fn wf(&self) -> bool {
        &&& self.cells@.no_duplicates()
        &&& forall|c: Cell| #[trigger]
            self.cells@.contains(c) <==> self.index@.contains(cell_key(c) as i128)
    }

    /// The empty set.
    pub fn new() -> (s: CellSet)
        ensures
            s.wf(),
            s@ == Set::<Cell>::empty(),
    {
        let s = CellSet { cells: Vec::new(), index: HashSet::new() };
        assert(s@ =~= Set::<Cell>::empty());
        s
    }

    /// How many cells the set holds.
    pub fn len(&self) -> (n: usize)
        requires
            self.wf(),
        ensures
            n == self@.len(),
            self@.finite(),
    {
        proof {
            self.cells@.unique_seq_to_set();
            vstd::seq_lib::seq_to_set_is_finite(self.cells@);
        }
        self.cells.len()
    }

    /// Whether the set holds `cell`.
    pub fn contains(&self, cell: Cell) -> (b: bool)
        requires
            self.wf(),
        ensures
            b == self@.contains(cell),
    {
        let key: i128 = key_of(cell);
        let found: bool = self.index.contains(&key);
        assert(self.cells@.contains(cell) <==> self.index@.contains(cell_key(cell) as i128));
        found
    }

    /// Puts `cell` into the set. Returns whether it was new.
    pub fn insert(&mut self, cell: Cell) -> (added: bool)
        requires
            old(self).wf(),
        ensures
            final(self).wf(),
            added == !old(self)@.contains(cell),
            final(self)@ == old(self)@.insert(cell),
    {
        let key: i128 = key_of(cell);
        assert(self.cells@.contains(cell) <==> self.index@.contains(cell_key(cell) as i128));
        let added: bool = self.index.insert(key);
        if added {
            self.cells.push(cell);
            proof {
                lemma_push_fresh(old(self).cells@, cell);
                lemma_push_holds(old(self).cells@, cell);
                old(self).cells@.lemma_push_to_set_commute(cell);
                assert forall|c: Cell| #[trigger]
                    self.cells@.contains(c) <==> self.index@.contains(cell_key(c) as i128) by {
                    lemma_cell_key(c, cell);
                    assert(old(self).cells@.contains(c) <==> old(self).index@.contains(
                        cell_key(c) as i128,
                    ));
                }
            }
        } else {
            assert(self@ =~= old(self)@.insert(cell));
        }
        added
    }

    /// The cells, each once.
    pub fn cells(&self) -> (v: &Vec<Cell>)
        requires
            self.wf(),
        ensures
            v@.no_duplicates(),
            v@.to_set() == self@,
    {
        &self.cells
    }

    /// The rows of the cells in `column`, each once.
    pub fn rows_at(&self, column: i64) -> (rows: Vec<i64>)
        requires
            self.wf(),
        ensures
            rows@.no_duplicates(),
            forall|r: i64| rows@.contains(r) <==> self@.contains(Cell { column, row: r }),
    {
        let mut rows: Vec<i64> = Vec::new();
        let mut i: usize = 0;
        while i < self.cells.len()
            invariant
                self.wf(),
                0 <= i <= self.cells.len(),
                rows@.no_duplicates(),
                forall|r: i64| #[trigger]
                    rows@.contains(r) <==> self.cells@.take(i as int).contains(
                        Cell { column, row: r },
                    ),
            decreases self.cells.len() - i,
        {
            let c: Cell = self.cells[i];
            proof {
                lemma_take_holds(self.cells@, i as int);
                if self.cells@.take(i as int).contains(c) {
                    let j = choose|j: int|
                        0 <= j < self.cells@.take(i as int).len() && self.cells@.take(i as int)[j]
                            == c;
                    assert(self.cells@[j] == self.cells@[i as int]);
                }
            }
            if c.column == column {
                proof {
                    lemma_push_fresh(rows@, c.row);
                    lemma_push_holds(rows@, c.row);
                }
                rows.push(c.row);
            }
            i += 1;
        }
        proof {
            lemma_take_all(self.cells@);
        }
        rows
    }

    /// Puts every cell of `other` into the set.
    pub fn merge(&mut self, other: &CellSet)
        requires
            old(self).wf(),
            other.wf(),
        ensures
            final(self).wf(),
            final(self)@ == old(self)@.union(other@),
    {
        let mut i: usize = 0;
        while i < other.cells.len()
            invariant
                self.wf(),
                0 <= i <= other.cells.len(),
                forall|c: Cell| #[trigger]
                    self@.contains(c) <==> old(self)@.contains(c) || other.cells@.take(
                        i as int,
                    ).contains(c),
            decreases other.cells.len() - i,
        {
            proof {
                lemma_take_holds(other.cells@, i as int);
            }
            self.insert(other.cells[i]);
            i += 1;
        }
        proof {
            lemma_take_all(other.cells@);
            assert(self@ =~= old(self)@.union(other@));
        }
    }
}

} // verus!
