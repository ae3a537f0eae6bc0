use vstd::prelude::*;

use crate::board::{empty_board, Board, BoardView};
use crate::peg::PLAYER_COUNT;
use crate::player::{next_seat, Player};
use crate::turn::{is_roll, is_turn, played, rolls_used, turn, turn_state_ok, BONUS_ROLL};

verus! {

/// Bound on the rolls of one turn, so that every turn is seen to end. A turn
/// meets it only after this many sixes in a row.
pub const MAX_BONUS_ROLLS: u64 = 0xffff_ffff_ffff_ffff;

/// Relies on rand's `thread_rng` and `Rng::gen_range`: a value drawn from the
/// inclusive range 1 to 6.
#[verifier::external_body]
fn roll_dice() -> (r: usize)
    ensures
        is_roll(r),
{
    let mut rng = rand::thread_rng();
    rand::Rng::gen_range(&mut rng, 1..=6)
}

/// One game: the board and the seat whose turn comes next.
pub struct Game {
    board: Board,
    current_player: Player,
}

impl Game {
    /// The contents of the board.
    pub closed spec fn board_view(&self) -> BoardView {
        self.board@
    }

    /// The seat whose turn comes next.
    pub closed spec fn seat(&self) -> int {
        self.current_player.seat()
    }

    pub open spec fn wf(&self) -> bool {
        self.board_view().wf()
    }
}

impl Default for Game {
    fn default() -> (r: Game)
        ensures
            r.wf(),
            r.board_view() == empty_board(),
            r.seat() == 0,
    {
        Game { board: Board::default(), current_player: Player::at_seat(0) }
    }
}

impl Game {
    pub fn board(&self) -> (r: &Board)
        ensures
            r@ == self.board_view(),
    {
        &self.board
    }

    pub fn current_player(&self) -> (r: Player)
        ensures
            r.seat() == self.seat(),
    {
        self.current_player
    }

    /// Every player, seat after seat.
    pub fn players(&self) -> (r: Vec<Player>)
        ensures
            r@.len() == PLAYER_COUNT,
            forall|i: int| 0 <= i < PLAYER_COUNT ==> (#[trigger] r@[i]).seat() == i,
    {
        let mut r: Vec<Player> = Vec::new();
        let mut i: usize = 0;
        while i < PLAYER_COUNT
            invariant
                i <= PLAYER_COUNT,
                r@.len() == i,
                forall|j: int| 0 <= j < i ==> (#[trigger] r@[j]).seat() == j,
            decreases PLAYER_COUNT - i,
        {
            r.push(Player::at_seat(i));
            i += 1;
        }
        r
    }

    /// Plays the turn of the player whose turn it is, with rolls of the die, and
    /// passes the turn to the next seat.
    pub fn next_turn(&mut self)
        requires
            old(self).wf(),
        ensures
            final(self).wf(),
            final(self).seat() == next_seat(old(self).seat()),
            exists|rolls: Seq<usize>| is_turn(rolls)
                && final(self).board_view() == played(old(self).board_view(), old(self).seat(), rolls).0,
    {
        self.perform_turn(self.current_player);
        self.current_player = self.current_player.next();
    }

    /// Plays the turn of the player whose turn it is with the die showing
    /// `rolls` in order, and passes the turn to the next seat. Returns how many
    /// rolls were played.
    pub fn next_turn_with_rolls(&mut self, rolls: &[usize]) -> (used: usize)
        requires
            old(self).wf(),
            forall|i: int| 0 <= i < rolls@.len() ==> is_roll(#[trigger] rolls@[i]),
        ensures
            final(self).wf(),
            final(self).seat() == next_seat(old(self).seat()),
            used == rolls_used(rolls@),
            final(self).board_view() == turn(old(self).board_view(), old(self).seat(), rolls@),
    {
        let used = self.board.play_turn(self.current_player, rolls);
        self.current_player = self.current_player.next();
        used
    }

    /// Plays one turn of `player` with rolls of the die: rolls are played while
    /// they are sixes, and the turn ends after the first that is not.
    pub fn perform_turn(&mut self, player: Player)
        requires
            old(self).wf(),
        ensures
            final(self).wf(),
            final(self).seat() == old(self).seat(),
            exists|rolls: Seq<usize>| is_turn(rolls)
                && final(self).board_view() == played(old(self).board_view(), player.seat(), rolls).0,
    {
        let ghost before = self.board@;
        let ghost seat = player.seat();
        let ghost mut drawn: Seq<usize> = Seq::empty();
        let mut inserted: Option<usize> = None;
        let mut budget: u64 = MAX_BONUS_ROLLS;
        loop
            invariant_except_break
                seat == player.seat(),
                self.board@.wf(),
                turn_state_ok(self.board@, seat, inserted),
                (self.board@, inserted) == played(before, seat, drawn),
                forall|j: int| 0 <= j < drawn.len() ==> #[trigger] drawn[j] == BONUS_ROLL,
            invariant
                self.current_player == old(self).current_player,
            ensures
                self.board@.wf(),
                is_turn(drawn),
                self.board@ == played(before, seat, drawn).0,
            decreases budget,
        {
            let roll = roll_dice();
            inserted = self.board.play_roll(player, inserted, roll);
            proof {
                let prev = drawn;
                drawn = drawn.push(roll);
                assert(drawn.drop_last() =~= prev);
            }
            if roll != BONUS_ROLL || budget == 0 {
                break;
            }
            budget -= 1;
        }
    }
}

} // verus!
