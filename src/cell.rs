use vstd::prelude::*;

verus! {

/// The state of one square of the board.
#[derive(Copy, Clone, Debug, PartialEq, Eq, Structural)]
pub enum Cell {
    Alive,
    Dead,
}

/// The cell that a coin flip `b` stands for: dead on 0, alive otherwise.
pub open spec fn cell_of_bit(b: int) -> Cell {
    if b == 0 {
        Cell::Dead
    } else {
        Cell::Alive
    }
}

impl Cell {
    /// One for a living cell, zero for a dead one.
    pub open spec fn value(self) -> int {
        match self {
            Cell::Alive => 1,
            Cell::Dead => 0,
        }
    }

    /// The cell as a count: 1 when alive, 0 when dead.
    pub fn as_u8(&self) -> (r: u8)
        ensures
            r == self.value(),
    {
        match self {
            Cell::Alive => 1,
            Cell::Dead => 0,
        }
    }

    /// Whether the cell lives.
    pub fn is_alive(&self) -> (r: bool)
        ensures
            r == (*self == Cell::Alive),
    {
        match self {
            Cell::Alive => true,
            Cell::Dead => false,
        }
    }

    /// The cell that a coin flip gives: dead on 0, alive on any other value.
    pub fn from_bit(b: u8) -> (r: Cell)
        ensures
            r == cell_of_bit(b as int),
    {
        match b {
            0 => Cell::Dead,
            _ => Cell::Alive,
        }
    }

    /// Whether the cell is dead.
    pub fn is_dead(&self) -> (r: bool)
        ensures
            r == (*self == Cell::Dead),
    {
        !self.is_alive()
    }
}

} // verus!
