use vstd::prelude::*;

use crate::board::{Board, BoardView, Event};
use crate::peg::{Peg, PEG_COUNT};
use crate::player::Player;

verus! {

/// The face of the die that gives another roll and lets a peg enter the track.
pub const BONUS_ROLL: usize = 6;

/// Whether a peg is of the kind looked for: on the track, or in the reserve.
pub open spec fn kind_matches(p: Peg, on_track: bool) -> bool {
    if on_track {
        p is In
    } else {
        p is Out
    }
}

/// Whether `k` is the lowest-numbered peg of `seat` of the kind looked for.
pub open spec fn is_lowest(b: BoardView, seat: int, on_track: bool, k: int) -> bool {
    &&& 0 <= k < PEG_COUNT
    &&& kind_matches(b.peg(seat, k), on_track)
    &&& forall|j: int| 0 <= j < k ==> !kind_matches(#[trigger] b.peg(seat, j), on_track)
}

/// Whether `seat` has a peg of the kind looked for.
pub open spec fn has_peg(b: BoardView, seat: int, on_track: bool) -> bool {
    exists|k: int| 0 <= k < PEG_COUNT && kind_matches(#[trigger] b.peg(seat, k), on_track)
}

/// The lowest-numbered peg of `seat` of the kind looked for.
pub open spec fn lowest(b: BoardView, seat: int, on_track: bool) -> int {
    choose|k: int| is_lowest(b, seat, on_track, k)
}

/// A roll of the die.
pub open spec fn is_roll(r: usize) -> bool {
    1 <= r <= 6
}

/// What is remembered between two rolls of one turn: the peg inserted by the
/// previous roll, if any, stands on the track.
pub open spec fn turn_state_ok(b: BoardView, seat: int, inserted: Option<usize>) -> bool {
    match inserted {
        Some(k) => k < PEG_COUNT && b.peg(seat, k as int) is In,
        None => true,
    }
}

/// The board, and the peg that must move next, after `seat` rolls `roll`. The
/// first rule that applies decides:
/// a six with a peg in the reserve brings the lowest such peg onto the track;
/// else a peg inserted by the previous roll moves by the roll;
/// else the lowest peg on the track moves by the roll;
/// else nothing happens.
pub open spec fn after_roll(b: BoardView, seat: int, inserted: Option<usize>, roll: usize) -> (BoardView, Option<usize>) {
    let rolled = b.logged(Event::Roll { player: seat as usize, roll });
    if roll == BONUS_ROLL && has_peg(b, seat, false) {
        let k = lowest(b, seat, false);
        (rolled.inserted(seat, k), Some(k as usize))
    } else if inserted is Some {
        (rolled.moved(seat, inserted->Some_0 as int, roll), None)
    } else if has_peg(b, seat, true) {
        (rolled.moved(seat, lowest(b, seat, true), roll), None)
    } else {
        (rolled, None)
    }
}

/// The board, and the peg that must move next, after `seat` rolled each of
/// `rolls` in order, starting a turn.
pub open spec fn played(b: BoardView, seat: int, rolls: Seq<usize>) -> (BoardView, Option<usize>)
    decreases rolls.len(),
{
    if rolls.len() == 0 {
        (b, None)
    } else {
        let (prev, inserted) = played(b, seat, rolls.drop_last());
        after_roll(prev, seat, inserted, rolls.last())
    }
}

/// Whether `rolls` can make up one whole turn: at least one roll, and every roll
/// but the last a six.
pub open spec fn is_turn(rolls: Seq<usize>) -> bool {
    &&& rolls.len() >= 1
    &&& forall|i: int| 0 <= i < rolls.len() ==> is_roll(#[trigger] rolls[i])
    &&& forall|i: int| 0 <= i < rolls.len() - 1 ==> #[trigger] rolls[i] == BONUS_ROLL
}

/// How many of `rolls` one turn uses: up to and including the first roll that is
/// not a six, or all of them if each is a six.
pub open spec fn rolls_used(rolls: Seq<usize>) -> int
    decreases rolls.len(),
{
    if rolls.len() == 0 {
        0
    } else if rolls[0] != BONUS_ROLL {
        1
    } else {
        1 + rolls_used(rolls.skip(1))
    }
}

/// The board after `seat` plays one turn with the die showing `rolls` in order.
pub open spec fn turn(b: BoardView, seat: int, rolls: Seq<usize>) -> BoardView {
    played(b, seat, rolls.take(rolls_used(rolls))).0
}

impl Board {
    /// The lowest-numbered peg of `player` that stands on the track
    /// (`on_track`) or waits in the reserve (otherwise).
    pub fn first_peg(&self, player: Player, on_track: bool) -> (r: Option<usize>)
        requires
            self@.wf(),
        ensures
            r == (if has_peg(self@, player.seat(), on_track) {
                Some(lowest(self@, player.seat(), on_track) as usize)
            } else {
                None
            }),
            r matches Some(k) ==> is_lowest(self@, player.seat(), on_track, k as int),
    {
        let pegs = self.player_pegs(player);
        let mut k: usize = 0;
        while k < PEG_COUNT
            invariant
                k <= PEG_COUNT,
                pegs@.len() == PEG_COUNT,
                forall|j: int| 0 <= j < PEG_COUNT ==> pegs@[j] == #[trigger] self@.peg(player.seat(), j),
                forall|j: int| 0 <= j < k ==> !kind_matches(#[trigger] self@.peg(player.seat(), j), on_track),
            decreases PEG_COUNT - k,
        {
            let p = pegs[k];
            let found = if on_track {
                p.is_in()
            } else {
                p.is_out()
            };
            if found {
                proof {
                    let seat = player.seat();
                    assert(is_lowest(self@, seat, on_track, k as int));
                    assert(has_peg(self@, seat, on_track));
                    let c = lowest(self@, seat, on_track);
                    assert(is_lowest(self@, seat, on_track, c));
                    if c < k {
                        assert(!kind_matches(self@.peg(seat, c), on_track));
                    }
                    if c > k {
                        assert(!kind_matches(self@.peg(seat, k as int), on_track));
                    }
                }
                return Some(k);
            }
            k += 1;
        }
        None
    }

    /// Plays one roll of `player`'s turn: logs the roll, then applies the first
    /// rule of `after_roll` that fits. `inserted` is the peg that the previous
    /// roll of this turn brought onto the track, if any; the result is the one
    /// that the next roll must move.
    pub fn play_roll(&mut self, player: Player, inserted: Option<usize>, roll: usize) -> (next: Option<usize>)
        requires
            old(self)@.wf(),
            is_roll(roll),
            turn_state_ok(old(self)@, player.seat(), inserted),
        ensures
            final(self)@.wf(),
            turn_state_ok(final(self)@, player.seat(), next),
            (final(self)@, next) == after_roll(old(self)@, player.seat(), inserted, roll),
    {
        let ghost before = self@;
        let ghost seat = player.seat();
        let reserve = self.first_peg(player, false);
        let on_track = self.first_peg(player, true);
        self.log(Event::Roll { player: player.index(), roll });
        if roll == BONUS_ROLL && reserve.is_some() {
            let k = reserve.unwrap();
            proof {
                assert(is_lowest(before, seat, false, k as int));
            }
            self.insert_peg(player, k);
            Some(k)
        } else if inserted.is_some() {
            self.move_peg(player, inserted.unwrap(), roll);
            None
        } else if on_track.is_some() {
            let k = on_track.unwrap();
            proof {
                assert(is_lowest(before, seat, true, k as int));
            }
            self.move_peg(player, k, roll);
            None
        } else {
            None
        }
    }

    /// Plays one whole turn of `player` with the die showing `rolls` in order:
    /// rolls are played while they are sixes, and the turn ends after the first
    /// roll that is not, or when `rolls` runs out. Returns how many rolls were
    /// played.
    pub fn play_turn(&mut self, player: Player, rolls: &[usize]) -> (used: usize)
        requires
            old(self)@.wf(),
            forall|i: int| 0 <= i < rolls@.len() ==> is_roll(#[trigger] rolls@[i]),
        ensures
            final(self)@.wf(),
            used == rolls_used(rolls@),
            final(self)@ == turn(old(self)@, player.seat(), rolls@),
    {
        let ghost before = self@;
        let ghost seat = player.seat();
        let mut inserted: Option<usize> = None;
        let mut i: usize = 0;
        assert(rolls@.take(0) =~= Seq::<usize>::empty());
        assert(rolls@.skip(0) =~= rolls@);
        loop
            invariant_except_break
                seat == player.seat(),
                i <= rolls@.len(),
                self@.wf(),
                turn_state_ok(self@, seat, inserted),
                (self@, inserted) == played(before, seat, rolls@.take(i as int)),
                rolls_used(rolls@) == i + rolls_used(rolls@.skip(i as int)),
                forall|j: int| 0 <= j < rolls@.len() ==> is_roll(#[trigger] rolls@[j]),
            ensures
                seat == player.seat(),
                self@.wf(),
                i == rolls_used(rolls@),
                self@ == played(before, seat, rolls@.take(i as int)).0,
            decreases rolls@.len() - i,
        {
            if i == rolls.len() {
                assert(rolls@.skip(i as int).len() == 0);
                break;
            }
            let roll = rolls[i];
            inserted = self.play_roll(player, inserted, roll);
            proof {
                let next = rolls@.take(i + 1);
                assert(next.drop_last() =~= rolls@.take(i as int));
                assert(next.last() == roll);
                let rest = rolls@.skip(i as int);
                assert(rest[0] == roll);
                assert(rest.skip(1) =~= rolls@.skip(i + 1));
            }
            i += 1;
            if roll != BONUS_ROLL {
                break;
            }
        }
        i
    }
}

} // verus!
