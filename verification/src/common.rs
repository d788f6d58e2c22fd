//! A move coordinate and a growable list of cell coordinates, used both for
//! "valid moves" and for "cells to flip" results.

use vstd::prelude::*;

verus! {

/// A (row, col) coordinate pair, 0-indexed, valid only within [0, 8).
pub type Move = (usize, usize);

/// Whether a coordinate pair lies on the board.
pub open spec fn move_on_board(mv: Move) -> bool {
    crate::board::on_board(mv.0 as int, mv.1 as int)
}

/// An ordered list of cell coordinates with an explicit count.
pub struct CellList {
    pub list: Vec<Move>,
}

impl View for CellList {
    type V = Seq<Move>;

    open spec fn view(&self) -> Seq<Move> {
        self.list@
    }
}

impl CellList {
    pub fn new() -> (cells: CellList)
        ensures
            cells@ == Seq::<Move>::empty(),
    {
        CellList { list: Vec::new() }
    }

    /// How many coordinates the list holds.
    pub fn count(&self) -> (n: usize)
        ensures
            n == self@.len(),
    {
        self.list.len()
    }

    pub fn get(&self, i: usize) -> (mv: Move)
        requires
            i < self@.len(),
        ensures
            mv == self@[i as int],
    {
        self.list[i]
    }

    pub fn push(&mut self, mv: Move)
        ensures
            final(self)@ == old(self)@.push(mv),
    {
        self.list.push(mv);
    }

    /// Move every coordinate of `extra` to the end of this list.
    pub fn append_vec(&mut self, extra: &mut Vec<Move>)
        ensures
            final(self)@ == old(self)@ + old(extra)@,
    {
        self.list.append(extra);
    }

    pub fn clear(&mut self)
        ensures
            final(self)@ == Seq::<Move>::empty(),
    {
        self.list.clear();
    }
}

impl Default for CellList {
    fn default() -> (cells: CellList)
        ensures
            cells@ == Seq::<Move>::empty(),
    {
        CellList::new()
    }
}

} // verus!
