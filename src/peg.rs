use vstd::prelude::*;

verus! {

/// Number of cells on the shared circular track.
pub const BOARD_SIZE: usize = 40;

/// Number of seats at the table.
pub const PLAYER_COUNT: usize = 4;

/// Number of track cells between two neighbouring starting cells.
pub const SIDE_SIZE: usize = 10;

/// Number of pegs each player owns, which is also the length of a home lane.
pub const PEG_COUNT: usize = 4;

/// The state of one peg: in the reserve, on the track at a cell, or in the
/// owner's home lane at a slot.
#[derive(Debug, Clone, Copy, PartialEq, Eq, Structural)]
pub enum Peg {
    Out,
    In(usize),
    Home(usize),
}

impl Peg {
    /// Whether the peg waits in the reserve.
    pub fn is_out(&self) -> (r: bool)
        ensures
            r == (*self is Out),
    {
        match self {
            Peg::Out => true,
            _ => false,
        }
    }

    /// Whether the peg stands on the shared track.
    pub fn is_in(&self) -> (r: bool)
        ensures
            r == (*self is In),
    {
        match self {
            Peg::In(_) => true,
            _ => false,
        }
    }

    /// Whether the peg has reached its home lane.
    pub fn is_home(&self) -> (r: bool)
        ensures
            r == (*self is Home),
    {
        match self {
            Peg::Home(_) => true,
            _ => false,
        }
    }
}

} // verus!
