//! Pillars and walls.
//!
//! Pillars stand on the points of a lattice, so their positions are whole
//! numbers. A wall spans two pillars; it borrows them and owns neither.

use vstd::prelude::*;

verus! {

/// A pillar: an upright obstacle at a fixed point of the world.
#[derive(Copy, Clone, Debug, PartialEq, Eq, Structural)]
pub struct Pillar {
    x_pos: i64,
    y_pos: i64,
}

/// A wall: the flat surface between two pillars.
#[derive(Copy, Clone, Debug)]
pub struct Wall<'first, 'second> {
    pillar1: &'first Pillar,
    pillar2: &'second Pillar,
}

impl Pillar {
    /// The x position of the pillar.
    pub closed spec fn spec_x_pos(&self) -> i64 {
        self.x_pos
    }

    /// The y position of the pillar.
    pub closed spec fn spec_y_pos(&self) -> i64 {
        self.y_pos
    }

    /// The pillar at the given point.
    pub fn at(x_pos: i64, y_pos: i64) -> (pillar: Pillar)
        ensures
            pillar.x_pos() == x_pos,
            pillar.y_pos() == y_pos,
    {
        Pillar { x_pos, y_pos }
    }

    /// The x position of the pillar.
    #[verifier::when_used_as_spec(spec_x_pos)]
    pub fn x_pos(&self) -> (x_pos: i64)
        ensures
            x_pos == self.spec_x_pos(),
    {
        self.x_pos
    }

    /// The y position of the pillar.
    #[verifier::when_used_as_spec(spec_y_pos)]
    pub fn y_pos(&self) -> (y_pos: i64)
        ensures
            y_pos == self.spec_y_pos(),
    {
        self.y_pos
    }
}

impl<'first, 'second> Wall<'first, 'second> {
    /// The pillar the wall starts from.
    pub closed spec fn spec_pillar1(&self) -> &'first Pillar {
        self.pillar1
    }

    /// The pillar the wall ends in.
    pub closed spec fn spec_pillar2(&self) -> &'second Pillar {
        self.pillar2
    }

    /// The wall from `pillar1` to `pillar2`.
    pub closed spec fn spanning(pillar1: &'first Pillar, pillar2: &'second Pillar) -> Wall<'first, 'second> {
        Wall { pillar1, pillar2 }
    }

    /// The wall from `pillar1` to `pillar2`.
    pub fn from_pillars(pillar1: &'first Pillar, pillar2: &'second Pillar) -> (wall: Wall<'first, 'second>)
        ensures
            wall == Self::spanning(pillar1, pillar2),
            wall.pillar1() == pillar1,
            wall.pillar2() == pillar2,
    {
        Wall { pillar1, pillar2 }
    }

    /// The pillar the wall starts from.
    #[verifier::when_used_as_spec(spec_pillar1)]
    pub fn pillar1(&self) -> (pillar: &'first Pillar)
        ensures
            pillar == self.spec_pillar1(),
    {
        self.pillar1
    }

    /// The pillar the wall ends in.
    #[verifier::when_used_as_spec(spec_pillar2)]
    pub fn pillar2(&self) -> (pillar: &'second Pillar)
        ensures
            pillar == self.spec_pillar2(),
    {
        self.pillar2
    }
}

} // verus!
