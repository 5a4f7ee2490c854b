use vstd::prelude::*;

use crate::game::{GameObject, GamePos};

verus! {

/// A single food item on the grid.
#[derive(Clone, Copy, PartialEq, Eq, Structural, Debug)]
pub struct Food {
    pub position: GamePos,
}

impl Food {
    pub fn new(x: i32, y: i32) -> (food: Food)
        ensures
            food.position == GamePos(x, y),
    {
        Food { position: GamePos(x, y) }
    }
}

impl GameObject for Food {
    open spec fn occupied(&self, pos: GamePos) -> bool {
        self.position == pos
    }

    fn would_collide(&self, pos: GamePos) -> (hit: bool) {
        self.position.0 == pos.0 && self.position.1 == pos.1
    }
}

} // verus!
