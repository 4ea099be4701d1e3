//! Terrain costs: how much movement budget entering a cell consumes.

use vstd::prelude::*;

use crate::movement::GridCoord;
use crate::movement::MoveUnit;

verus! {

/// A terrain-cost capability: maps a cell to the movement-budget cost of
/// entering it.
pub trait MoveCost: Sized {
    /// The cost of entering `a`.
    spec fn cost(&self, a: GridCoord) -> u16;

    /// Returns exactly the cost of entering `a`.
    fn move_cost(&self, a: &GridCoord) -> (r: MoveUnit)
        ensures
            r.0 == self.cost(*a),
    ;
}

/// Plain grassland: every cell costs one movement point to enter.
#[derive(Clone, Copy, PartialEq, Eq, Structural, Debug)]
pub struct Grass;

impl MoveCost for Grass {
    open spec fn cost(&self, a: GridCoord) -> u16 {
        1u16
    }

    fn move_cost(&self, a: &GridCoord) -> (r: MoveUnit) {
        MoveUnit(1)
    }
}

/// Road overlay: entering a cell that carries a road costs half of what
/// the underlying terrain asks; other cells are unchanged.
pub struct TerrainCollection<T> {
    pub pos: Vec<GridCoord>,
    pub base: T,
}

impl<T: MoveCost> MoveCost for TerrainCollection<T> {
    open spec fn cost(&self, a: GridCoord) -> u16 {
        if self.pos@.contains(a) {
            (self.base.cost(a) / 2) as u16
        } else {
            self.base.cost(a)
        }
    }

    fn move_cost(&self, a: &GridCoord) -> (r: MoveUnit) {
        let mut i: usize = 0;
        let mut on_road: bool = false;
        while i < self.pos.len()
            invariant
                i <= self.pos@.len(),
                on_road == exists|j: int| 0 <= j < i && self.pos@[j] == *a,
            decreases self.pos@.len() - i,
        {
            if self.pos[i] == *a {
                on_road = true;
            }
            i = i + 1;
        }
        let base = self.base.move_cost(a);
        if on_road {
            MoveUnit(base.0 / 2)
        } else {
            base
        }
    }
}

} // verus!
