//! Properties of the game rules that hold on every board.
use vstd::prelude::*;

use crate::board::{advance, enters_lane, slot, BoardView, Event};
use crate::peg::{Peg, PEG_COUNT, PLAYER_COUNT};
use crate::turn::{after_roll, has_peg, is_lowest, is_roll, kind_matches, lowest, played, rolls_used, turn, BONUS_ROLL};

verus! {

/// On a well-formed board no two pegs, of one player or of two, stand on the
/// same track cell. Every operation on a board keeps it well formed.
pub proof fn lemma_one_peg_per_cell(b: BoardView, s: int, k: int, t: int, l: int)
    requires
        b.wf(),
        0 <= s < PLAYER_COUNT,
        0 <= k < PEG_COUNT,
        0 <= t < PLAYER_COUNT,
        0 <= l < PEG_COUNT,
        b.peg(s, k) is In,
        b.peg(s, k) == b.peg(t, l),
    ensures
        s == t && k == l,
{
}

/// A peg inserted from the reserve stands on cell `seat * 10`, which then holds
/// the seat's marker.
pub proof fn lemma_insert_at_start(b: BoardView, seat: int, k: int)
    requires
        b.wf(),
        0 <= seat < PLAYER_COUNT,
        0 <= k < PEG_COUNT,
        b.peg(seat, k) is Out,
    ensures
        b.inserted(seat, k).peg(seat, k) == Peg::In((seat * 10) as usize),
        b.inserted(seat, k).track[seat * 10] == seat + 1,
{
}

/// When a peg of seat `t` moves onto the cell of a peg of another seat `s`, the
/// latter goes back to the reserve, a capture of `s` is logged, and every peg
/// standing elsewhere keeps its state.
pub proof fn lemma_capture(b: BoardView, s: int, k: int, t: int, l: int, steps: usize)
    requires
        b.wf(),
        0 <= s < PLAYER_COUNT,
        0 <= k < PEG_COUNT,
        0 <= t < PLAYER_COUNT,
        0 <= l < PEG_COUNT,
        s != t,
        1 <= steps <= 6,
        b.peg(t, l) is In,
        b.peg(s, k) == Peg::In(advance(b.peg(t, l)->In_0 as int, steps as int) as usize),
        !enters_lane(t, advance(b.peg(t, l)->In_0 as int, steps as int)),
    ensures
        b.moved(t, l, steps).peg(s, k) == Peg::Out,
        b.moved(t, l, steps).peg(t, l) == b.peg(s, k),
        b.moved(t, l, steps).events == b.events + seq![
            Event::Move { player: t as usize, peg: l as usize, steps },
            Event::Capture { victim: s as usize },
        ],
        forall|u: int, m: int|
            0 <= u < PLAYER_COUNT && 0 <= m < PEG_COUNT && !(u == t && m == l) && b.peg(u, m) != b.peg(s, k)
                ==> #[trigger] b.moved(t, l, steps).peg(u, m) == b.peg(u, m),
{
    assert(b.peg_placed(s, k));
    assert(b.peg_placed(t, l));
    let a = b.moved(t, l, steps);
    assert(a.events =~= b.events + seq![
        Event::Move { player: t as usize, peg: l as usize, steps },
        Event::Capture { victim: s as usize },
    ]);
    assert forall|u: int, m: int|
        0 <= u < PLAYER_COUNT && 0 <= m < PEG_COUNT && !(u == t && m == l) && b.peg(u, m) != b.peg(s, k)
        implies #[trigger] a.peg(u, m) == b.peg(u, m) by {
        assert(slot(u, m) != slot(t, l));
    }
    assert(slot(s, k) != slot(t, l));
}

/// A six rolled while a peg waits in the reserve brings the lowest such peg onto
/// the track before any peg moves; the next roll of the turn, unless it is a six
/// that brings in yet another peg, moves that very peg by the number rolled.
pub proof fn lemma_six_inserts_then_moves(b: BoardView, seat: int, r: usize)
    requires
        b.wf(),
        0 <= seat < PLAYER_COUNT,
        has_peg(b, seat, false),
        is_roll(r),
        !(r == BONUS_ROLL && has_peg(after_roll(b, seat, None, BONUS_ROLL).0, seat, false)),
    ensures
        ({
            let k = lowest(b, seat, false);
            let first = b.logged(Event::Roll { player: seat as usize, roll: BONUS_ROLL }).inserted(seat, k);
            &&& after_roll(b, seat, None, BONUS_ROLL) == (first, Some(k as usize))
            &&& played(b, seat, seq![BONUS_ROLL, r]).0
                == first.logged(Event::Roll { player: seat as usize, roll: r }).moved(seat, k, r)
        }),
{
    let rolls = seq![BONUS_ROLL, r];
    assert(rolls.drop_last() =~= seq![BONUS_ROLL]);
    assert(seq![BONUS_ROLL].drop_last() =~= Seq::<usize>::empty());
    let k = lowest(b, seat, false);
    let witness = choose|j: int| 0 <= j < PEG_COUNT && (#[trigger] b.peg(seat, j)) is Out;
    lemma_lowest_exists(b, seat, false, witness);
    assert(is_lowest(b, seat, false, k));
    let one = seq![BONUS_ROLL];
    assert(played(b, seat, one.drop_last()) == (b, None::<usize>));
    assert(played(b, seat, one) == after_roll(b, seat, None, BONUS_ROLL));
    assert(played(b, seat, rolls) == after_roll(played(b, seat, one).0, seat, played(b, seat, one).1, r));
}

/// A roll that is not a six ends the turn: it is the only roll played, and it
/// takes at most one action.
pub proof fn lemma_non_six_ends_turn(b: BoardView, seat: int, rolls: Seq<usize>)
    requires
        rolls.len() >= 1,
        rolls[0] != BONUS_ROLL,
    ensures
        rolls_used(rolls) == 1,
        turn(b, seat, rolls) == after_roll(b, seat, None, rolls[0]).0,
{
    let first = rolls.take(1);
    assert(first.drop_last() =~= Seq::<usize>::empty());
    assert(first.last() == rolls[0]);
    assert(played(b, seat, first.drop_last()) == (b, None::<usize>));
    assert(played(b, seat, first) == after_roll(b, seat, None, rolls[0]));
}

/// Where some peg of a kind exists, there is a lowest one.
proof fn lemma_lowest_exists(b: BoardView, seat: int, on_track: bool, k: int)
    requires
        0 <= k < PEG_COUNT,
        kind_matches(b.peg(seat, k), on_track),
    ensures
        is_lowest(b, seat, on_track, lowest(b, seat, on_track)),
    decreases k,
{
    if exists|j: int| 0 <= j < k && kind_matches(#[trigger] b.peg(seat, j), on_track) {
        let j = choose|j: int| 0 <= j < k && kind_matches(#[trigger] b.peg(seat, j), on_track);
        lemma_lowest_exists(b, seat, on_track, j);
    } else {
        assert(is_lowest(b, seat, on_track, k));
    }
}

} // verus!
