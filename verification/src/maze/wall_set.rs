//! The set of walls that stand in a maze.
//!
//! A wall is kept under one number that holds its four coordinates, the
//! cells in order, so that a wall is found whichever of its cells is named
//! first.

use rand::rngs::ThreadRng;
use std::collections::HashSet;
use vstd::prelude::*;
use vstd::relations::injective_on;
use vstd::set_lib::lemma_map_size;
use crate::maze::generation::{MazeCoordinate, MazeWall};
use crate::maze::random::random_member;

verus! {

/// The number of a cell: its row and its column, each moved into the range
/// of an unsigned 32-bit number, side by side.
spec fn cell_key(cell: MazeCoordinate) -> int {
    (cell.row + 0x8000_0000) * 0x1_0000_0000 + (cell.col + 0x8000_0000)
}

/// The number of a wall: the numbers of its two cells side by side.
spec fn wall_key(wall: MazeWall) -> u128 {
    (cell_key(wall.coord1) * 0x1_0000_0000_0000_0000 + cell_key(wall.coord2)) as u128
}

/// The cell of a number.
spec fn key_cell(key: int) -> MazeCoordinate {
    MazeCoordinate {
        row: (key / 0x1_0000_0000 - 0x8000_0000) as i32,
        col: (key % 0x1_0000_0000 - 0x8000_0000) as i32,
    }
}

/// The wall of a number.
spec fn key_wall(key: u128) -> MazeWall {
    MazeWall {
        coord1: key_cell(key as int / 0x1_0000_0000_0000_0000),
        coord2: key_cell(key as int % 0x1_0000_0000_0000_0000),
    }
}

/// Walls and numbers stand for each other one to one.
proof fn lemma_keys_and_walls(wall: MazeWall, key: u128)
    ensures
        key_wall(wall_key(wall)) == wall,
        wall_key(key_wall(key)) == key,
        0 <= cell_key(wall.coord1) < 0x1_0000_0000_0000_0000,
        0 <= cell_key(wall.coord2) < 0x1_0000_0000_0000_0000,
{
    let first = cell_key(wall.coord1);
    let second = cell_key(wall.coord2);
    assert(key_cell(first) == wall.coord1);
    assert(key_cell(second) == wall.coord2);
    let whole = first * 0x1_0000_0000_0000_0000 + second;
    assert(whole / 0x1_0000_0000_0000_0000 == first);
    assert(whole % 0x1_0000_0000_0000_0000 == second);
    let high = key as int / 0x1_0000_0000_0000_0000;
    let low = key as int % 0x1_0000_0000_0000_0000;
    assert(0 <= high < 0x1_0000_0000_0000_0000);
    assert(cell_key(key_cell(high)) == high);
    assert(cell_key(key_cell(low)) == low);
}

/// The walls of a maze.
pub struct WallSet {
    keys: HashSet<u128>,
}

impl View for WallSet {
    type V = Set<MazeWall>;

    /// The walls in the set, each with its cells in order.
    closed spec fn view(&self) -> Set<MazeWall> {
        Set::new(|wall: MazeWall| self.keys@.contains(wall_key(wall)))
    }
}

impl WallSet {
    /// The set is sound: it is finite and keeps every wall under the number
    /// of its ordered form. Every set from [`WallSet::new`] is sound, and
    /// no method of the set spoils that.
    pub closed spec fn wf(&self) -> bool {
        &&& self.keys@.finite()
        &&& forall|key: u128| #[trigger]
            self.keys@.contains(key) ==> key_wall(key).ordered() == key_wall(key)
    }

    /// The view is the set of the walls of the numbers kept.
    proof fn lemma_view_is_image(&self)
        requires
            self.wf(),
        ensures
            self@ == self.keys@.map(|key: u128| key_wall(key)),
            injective_on(|key: u128| key_wall(key), self.keys@),
    {
        let decode = |key: u128| key_wall(key);
        assert forall|wall: MazeWall| self@.contains(wall) <==> self.keys@.map(decode).contains(
            wall,
        ) by {
            lemma_keys_and_walls(wall, 0);
            if self@.contains(wall) {
                assert(decode(wall_key(wall)) == wall);
            }
            if self.keys@.map(decode).contains(wall) {
                let key = choose|key: u128| self.keys@.contains(key) && decode(key) == wall;
                lemma_keys_and_walls(wall, key);
            }
        }
        assert(self@ =~= self.keys@.map(decode));
        assert forall|a: u128, b: u128|
            self.keys@.contains(a) && self.keys@.contains(b) && #[trigger] decode(a)
                == #[trigger] decode(b) implies a == b by {
            lemma_keys_and_walls(decode(a), a);
            lemma_keys_and_walls(decode(b), b);
        }
    }

    /// No wall stands if and only if no number is kept.
    proof fn lemma_empty_alike(&self)
        ensures
            self@.is_empty() <==> self.keys@.is_empty(),
    {
        if self.keys@.is_empty() {
            assert(self@ =~= Set::<MazeWall>::empty());
        } else {
            let key = choose|key: u128| self.keys@.contains(key);
            lemma_keys_and_walls(key_wall(key), key);
            assert(self@.contains(key_wall(key)));
        }
    }

    /// The number of a wall with its cells in order.
    fn key_of(wall: &MazeWall) -> (key: u128)
        ensures
            key == wall_key(wall.ordered()),
    {
        let ordered = wall.in_order();
        proof {
            lemma_keys_and_walls(ordered, 0);
        }
        let first: u64 = (ordered.coord1.row as i64 + 0x8000_0000) as u64 * 0x1_0000_0000 + (
        ordered.coord1.col as i64 + 0x8000_0000) as u64;
        let second: u64 = (ordered.coord2.row as i64 + 0x8000_0000) as u64 * 0x1_0000_0000 + (
        ordered.coord2.col as i64 + 0x8000_0000) as u64;
        first as u128 * 0x1_0000_0000_0000_0000 + second as u128
    }

    /// The wall of a number.
    fn wall_of(key: u128) -> (wall: MazeWall)
        ensures
            wall == key_wall(key),
    {
        let first: u64 = (key / 0x1_0000_0000_0000_0000) as u64;
        let second: u64 = (key % 0x1_0000_0000_0000_0000) as u64;
        MazeWall {
            coord1: MazeCoordinate {
                row: ((first / 0x1_0000_0000) as i64 - 0x8000_0000) as i32,
                col: ((first % 0x1_0000_0000) as i64 - 0x8000_0000) as i32,
            },
            coord2: MazeCoordinate {
                row: ((second / 0x1_0000_0000) as i64 - 0x8000_0000) as i32,
                col: ((second % 0x1_0000_0000) as i64 - 0x8000_0000) as i32,
            },
        }
    }

    /// A set without walls.
    pub fn new() -> (walls: WallSet)
        ensures
            walls.wf(),
            walls@ == Set::<MazeWall>::empty(),
    {
        let walls = WallSet { keys: HashSet::new() };
        assert(walls@ =~= Set::<MazeWall>::empty());
        walls
    }

    /// Adds a wall, whichever of its cells is named first, and says whether
    /// it was missing before.
    pub fn insert(&mut self, wall: MazeWall) -> (added: bool)
        requires
            old(self).wf(),
        ensures
            final(self).wf(),
            final(self)@ == old(self)@.insert(wall.ordered()),
            added == !old(self)@.contains(wall.ordered()),
    {
        proof {
            lemma_keys_and_walls(wall.ordered(), 0);
        }
        let key = Self::key_of(&wall);
        let added = self.keys.insert(key);
        proof {
            assert forall|other: MazeWall|
                self@.contains(other) <==> old(self)@.insert(wall.ordered()).contains(other) by {
                lemma_keys_and_walls(other, 0);
            }
            assert(self@ =~= old(self)@.insert(wall.ordered()));
        }
        added
    }

    /// Whether the wall stands, whichever of its cells is named first.
    pub fn contains(&self, wall: &MazeWall) -> (found: bool)
        ensures
            found == self@.contains(wall.ordered()),
    {
        let key = Self::key_of(wall);
        self.keys.contains(&key)
    }

    /// Takes a wall away, whichever of its cells is named first, and says
    /// whether it stood before.
    pub fn remove(&mut self, wall: &MazeWall) -> (removed: bool)
        requires
            old(self).wf(),
        ensures
            final(self).wf(),
            final(self)@ == old(self)@.remove(wall.ordered()),
            removed == old(self)@.contains(wall.ordered()),
    {
        let key = Self::key_of(wall);
        let removed = self.keys.remove(&key);
        proof {
            assert forall|other: MazeWall|
                self@.contains(other) <==> old(self)@.remove(wall.ordered()).contains(other) by {
                lemma_keys_and_walls(other, 0);
                lemma_keys_and_walls(wall.ordered(), 0);
            }
            assert(self@ =~= old(self)@.remove(wall.ordered()));
        }
        removed
    }

    /// The number of walls. There are never more than can be counted.
    pub fn len(&self) -> (count: usize)
        requires
            self.wf(),
        ensures
            count == self@.len(),
            self@.finite(),
    {
        proof {
            self.lemma_view_is_image();
            lemma_map_size(self.keys@, self@, |key: u128| key_wall(key));
        }
        self.keys.len()
    }

    /// Whether no wall stands.
    pub fn is_empty(&self) -> (empty: bool)
        requires
            self.wf(),
        ensures
            empty == self@.is_empty(),
    {
        proof {
            self.lemma_empty_alike();
        }
        self.keys.is_empty()
    }

    /// One of the walls, drawn at random, with its cells in order; `None` if
    /// and only if no wall stands.
    pub fn pick(&self, rng: &mut ThreadRng) -> (drawn: Option<MazeWall>)
        requires
            self.wf(),
        ensures
            drawn is None <==> self@.is_empty(),
            drawn matches Some(wall) ==> self@.contains(wall) && wall.ordered() == wall,
    {
        proof {
            self.lemma_empty_alike();
        }
        match random_member(rng, &self.keys) {
            Some(key) => {
                proof {
                    lemma_keys_and_walls(key_wall(key), key);
                }
                Some(Self::wall_of(key))
            },
            None => None,
        }
    }
}

} // verus!
