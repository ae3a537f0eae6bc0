use vstd::prelude::*;

use crate::peg::{PLAYER_COUNT, SIDE_SIZE};

verus! {

/// The display name of the player at a seat.
pub open spec fn name_of(seat: int) -> Seq<char> {
    if seat == 0 {
        seq!['B', 'l', 'u', 'e']
    } else if seat == 1 {
        seq!['Y', 'e', 'l', 'l', 'o', 'w']
    } else if seat == 2 {
        seq!['G', 'r', 'e', 'e', 'n']
    } else {
        seq!['R', 'e', 'd']
    }
}

/// The track cell where the pegs of a seat enter the track.
pub open spec fn start_of(seat: int) -> int {
    seat * SIDE_SIZE
}

/// The seat that plays after the given one.
pub open spec fn next_seat(seat: int) -> int {
    (seat + 1) % (PLAYER_COUNT as int)
}

/// One of the seats at the table, numbered from zero.
#[derive(Debug, Clone, Copy, PartialEq, Eq, Structural)]
pub struct Player(usize);

impl Player {
    #[verifier::type_invariant]
    spec fn seat_in_range(self) -> bool {
        self.0 < PLAYER_COUNT
    }

    /// The seat number of this player.
    pub closed spec fn seat(self) -> int {
        self.0 as int
    }

    /// The player at a given seat.
    pub(crate) fn at_seat(seat: usize) -> (r: Player)
        requires
            seat < PLAYER_COUNT,
        ensures
            r.seat() == seat,
    {
        Player(seat)
    }

    pub fn index(&self) -> (r: usize)
        ensures
            r == self.seat(),
            r < PLAYER_COUNT,
    {
        proof {
            use_type_invariant(self);
        }
        self.0
    }

    /// The marker that this player's pegs leave on a track cell; zero stands for
    /// an empty cell.
    pub fn num(&self) -> (r: u8)
        ensures
            r == self.seat() + 1,
    {
        proof {
            use_type_invariant(self);
        }
        (self.0 + 1) as u8
    }

    pub fn name(&self) -> (r: &'static str)
        ensures
            r@ == name_of(self.seat()),
    {
        proof {
            use_type_invariant(self);
        }
        if self.0 == 0 {
            proof {
                reveal_strlit("Blue");
            }
            "Blue"
        } else if self.0 == 1 {
            proof {
                reveal_strlit("Yellow");
            }
            "Yellow"
        } else if self.0 == 2 {
            proof {
                reveal_strlit("Green");
            }
            "Green"
        } else {
            proof {
                reveal_strlit("Red");
            }
            "Red"
        }
    }

    /// The track cell where this player's pegs enter the track.
    pub fn start_position(&self) -> (r: usize)
        ensures
            r == start_of(self.seat()),
    {
        proof {
            use_type_invariant(self);
        }
        self.0 * SIDE_SIZE
    }

    /// The player whose turn follows this one.
    pub fn next(&self) -> (r: Player)
        ensures
            r.seat() == next_seat(self.seat()),
    {
        proof {
            use_type_invariant(self);
        }
        Player((self.0 + 1) % PLAYER_COUNT)
    }
}

} // verus!
