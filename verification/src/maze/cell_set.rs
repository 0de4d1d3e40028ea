//! A set of cells, as the flood through a maze needs it to remember where it
//! has been.

use std::collections::HashSet;
use vstd::prelude::*;
use crate::maze::generation::MazeCoordinate;

verus! {

/// The number of a cell: its row and its column, each moved into the range
/// of an unsigned 32-bit number, side by side. No two cells share a number.
spec fn cell_key(cell: MazeCoordinate) -> u64 {
    ((cell.row + 0x8000_0000) * 0x1_0000_0000 + (cell.col + 0x8000_0000)) as u64
}

/// A set of cells.
pub struct CellSet {
    keys: HashSet<u64>,
}

impl View for CellSet {
    type V = Set<MazeCoordinate>;

    closed spec fn view(&self) -> Set<MazeCoordinate> {
        Set::new(|cell: MazeCoordinate| self.keys@.contains(cell_key(cell)))
    }
}

impl CellSet {
    /// The number of a cell.
    fn key_of(cell: &MazeCoordinate) -> (key: u64)
        ensures
            key == cell_key(*cell),
    {
        (cell.row as i64 + 0x8000_0000) as u64 * 0x1_0000_0000 + (cell.col as i64
            + 0x8000_0000) as u64
    }

    /// A set without cells.
    pub fn new() -> (cells: CellSet)
        ensures
            cells@ == Set::<MazeCoordinate>::empty(),
    {
        let cells = CellSet { keys: HashSet::new() };
        assert(cells@ =~= Set::<MazeCoordinate>::empty());
        cells
    }

    /// Adds a cell and says whether it was missing before.
    pub fn insert(&mut self, cell: MazeCoordinate) -> (added: bool)
        ensures
            final(self)@ == old(self)@.insert(cell),
            added == !old(self)@.contains(cell),
    {
        let key = Self::key_of(&cell);
        let added = self.keys.insert(key);
        assert(self@ =~= old(self)@.insert(cell));
        added
    }

    /// Whether the cell is in the set.
    pub fn contains(&self, cell: &MazeCoordinate) -> (found: bool)
        ensures
            found == self@.contains(*cell),
    {
        let key = Self::key_of(cell);
        self.keys.contains(&key)
    }
}

} // verus!
