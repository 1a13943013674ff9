//! A single cell of the grid.

use vstd::prelude::*;

verus! {

/// The state of one cell. There is no third state.
#[derive(Clone, Copy, Debug, PartialEq, Eq, Structural)]
pub enum Cell {
    Dead,
    Alive,
}

impl Cell {
    /// The opposite state.
    pub open spec fn toggled(self) -> Cell {
        match self {
            Cell::Dead => Cell::Alive,
            Cell::Alive => Cell::Dead,
        }
    }

    /// Flips the cell in place: a dead cell comes alive, a live one dies.
    pub fn toggle(&mut self)
        ensures
            *final(self) == old(self).toggled(),
    {
        *self = match *self {
            Cell::Dead => Cell::Alive,
            Cell::Alive => Cell::Dead,
        };
    }
}

/// A glider drawn as three rows of three intensities: 8 where a cell is
/// alive, 0 where it is dead.
pub fn get_glider_bitmap() -> (bitmap: [(u8, u8, u8); 3])
    ensures
        bitmap@ == seq![(0u8, 0u8, 8u8), (8u8, 0u8, 8u8), (0u8, 8u8, 8u8)],
{
    let bitmap = [(0, 0, 8), (8, 0, 8), (0, 8, 8)];
    assert(bitmap@ =~= seq![(0u8, 0u8, 8u8), (8u8, 0u8, 8u8), (0u8, 8u8, 8u8)]);
    bitmap
}

} // verus!
