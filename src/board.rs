use vstd::prelude::*;

use crate::peg::{Peg, BOARD_SIZE, PEG_COUNT, PLAYER_COUNT};
use crate::player::{name_of, start_of, Player};

verus! {

/// A peg that moves beyond this many cells past its home entry leaves the shared
/// track for its home lane.
pub const LANE_THRESHOLD: usize = BOARD_SIZE - PEG_COUNT;

/// What happened on the board, in the order it happened. Players are given by
/// their seat numbers.
#[derive(Debug, Clone, Copy, PartialEq, Eq, Structural)]
pub enum Event {
    /// A player rolled the die.
    Roll { player: usize, roll: usize },
    /// A player brought a peg from the reserve onto the track.
    Insert { player: usize, peg: usize },
    /// A peg moved along the shared track.
    Move { player: usize, peg: usize, steps: usize },
    /// A peg left the shared track for its home lane.
    MoveHome { player: usize, peg: usize, steps: usize },
    /// The pegs of `victim` on a cell were sent back to the reserve.
    Capture { victim: usize },
}

/// Where the peg `peg` of seat `seat` is kept in the flat peg table.
pub open spec fn slot(seat: int, peg: int) -> int {
    seat * PEG_COUNT + peg
}

/// The last track cell before a seat's starting cell.
pub open spec fn home_entry(seat: int) -> int {
    (start_of(seat) + BOARD_SIZE - 1) % (BOARD_SIZE as int)
}

/// How far a cell lies past a seat's home entry, going round the track.
pub open spec fn round_position(seat: int, cell: int) -> int {
    (BOARD_SIZE + cell - home_entry(seat)) % (BOARD_SIZE as int)
}

/// Whether a peg of `seat` that would land on `cell` leaves the track for its lane.
pub open spec fn enters_lane(seat: int, cell: int) -> bool {
    round_position(seat, cell) > LANE_THRESHOLD
}

/// The cell that lies `steps` cells after `cell`.
pub open spec fn advance(cell: int, steps: int) -> int {
    (cell + steps) % (BOARD_SIZE as int)
}

/// The pegs after every peg standing on `cell` went back to the reserve.
pub open spec fn sent_back(pegs: Seq<Peg>, cell: usize) -> Seq<Peg> {
    Seq::new(pegs.len(), |i: int| if pegs[i] == Peg::In(cell) { Peg::Out } else { pegs[i] })
}

/// The capture reported when a peg lands on `cell` of `track`: one if the cell is
/// taken, naming its occupant, and none if it is empty.
pub open spec fn capture_log(track: Seq<u8>, cell: usize) -> Seq<Event> {
    if track[cell as int] != 0 {
        seq![Event::Capture { victim: (track[cell as int] - 1) as usize }]
    } else {
        seq![]
    }
}

/// The contents of a board: the marker on each track cell (zero when empty, else
/// the occupant's seat plus one), each peg's state and each lane slot, both kept
/// seat after seat, and the events so far.
pub ghost struct BoardView {
    pub track: Seq<u8>,
    pub pegs: Seq<Peg>,
    pub home: Seq<bool>,
    pub events: Seq<Event>,
}

impl BoardView {
    /// The state of peg `peg` of seat `seat`.
    pub open spec fn peg(self, seat: int, peg: int) -> Peg {
        self.pegs[slot(seat, peg)]
    }

    /// What a track cell and a lane slot say of one peg agrees with its state.
    pub open spec fn peg_placed(self, seat: int, peg: int) -> bool {
        match self.peg(seat, peg) {
            Peg::In(cell) => cell < BOARD_SIZE && self.track[cell as int] == seat + 1 && !self.home[slot(seat, peg)],
            Peg::Home(lane) => lane == peg && self.home[slot(seat, peg)],
            Peg::Out => !self.home[slot(seat, peg)],
        }
    }

    /// No two pegs stand on the same track cell.
    pub open spec fn one_peg_per_cell(self) -> bool {
        forall|s: int, k: int, t: int, l: int|
            0 <= s < PLAYER_COUNT && 0 <= k < PEG_COUNT && 0 <= t < PLAYER_COUNT && 0 <= l < PEG_COUNT
                && (#[trigger] self.peg(s, k)) is In && self.peg(s, k) == #[trigger] self.peg(t, l)
                ==> s == t && k == l
    }

    /// Every marked track cell holds a peg of the seat that the marker names.
    pub open spec fn cells_occupied(self) -> bool {
        forall|c: int| 0 <= c < BOARD_SIZE && #[trigger] self.track[c] != 0
            ==> exists|k: int| 0 <= k < PEG_COUNT && #[trigger] self.peg(self.track[c] - 1, k) == Peg::In(c as usize)
    }

    pub open spec fn wf(self) -> bool {
        &&& self.track.len() == BOARD_SIZE
        &&& self.pegs.len() == PLAYER_COUNT * PEG_COUNT
        &&& self.home.len() == PLAYER_COUNT * PEG_COUNT
        &&& forall|c: int| 0 <= c < BOARD_SIZE ==> #[trigger] self.track[c] <= PLAYER_COUNT
        &&& forall|s: int, k: int| 0 <= s < PLAYER_COUNT && 0 <= k < PEG_COUNT ==> #[trigger] self.peg_placed(s, k)
        &&& self.one_peg_per_cell()
        &&& self.cells_occupied()
    }

    /// The board after peg `peg` of `seat`, off the track, is placed on `cell`:
    /// the pegs already there go back to the reserve and the cell takes the
    /// seat's marker.
    pub open spec fn placed(self, cell: usize, seat: int, peg: int) -> BoardView {
        BoardView {
            track: self.track.update(cell as int, (seat + 1) as u8),
            pegs: sent_back(self.pegs, cell).update(slot(seat, peg), Peg::In(cell)),
            home: self.home,
            events: self.events + capture_log(self.track, cell),
        }
    }
    /// The board with one more event logged.
    pub open spec fn logged(self, e: Event) -> BoardView {
        BoardView { events: self.events.push(e), ..self }
    }

    /// The board after peg `peg` of `seat` left the track cell it stood on.
    pub open spec fn lifted(self, seat: int, peg: int, from: usize) -> BoardView {
        BoardView {
            track: self.track.update(from as int, 0u8),
            pegs: self.pegs.update(slot(seat, peg), Peg::Out),
            ..self
        }
    }

    /// The board after peg `peg` of `seat`, standing on the track, moved `steps`
    /// cells. If it would pass the lane threshold it leaves the track and rests in
    /// its own lane slot; otherwise it is lifted off its cell and placed on the
    /// cell ahead.
    pub open spec fn moved(self, seat: int, peg: int, steps: usize) -> BoardView {
        let from = match self.peg(seat, peg) {
            Peg::In(c) => c,
            _ => 0,
        };
        let dest = advance(from as int, steps as int);
        if enters_lane(seat, dest) {
            BoardView {
                track: self.track.update(from as int, 0u8),
                pegs: self.pegs.update(slot(seat, peg), Peg::Home(peg as usize)),
                home: self.home.update(slot(seat, peg), true),
                events: self.events.push(Event::MoveHome { player: seat as usize, peg: peg as usize, steps }),
            }
        } else {
            self.logged(Event::Move { player: seat as usize, peg: peg as usize, steps })
                .lifted(seat, peg, from)
                .placed(dest as usize, seat, peg)
        }
    }

    /// The board after peg `peg` of `seat`, in the reserve, entered the track on
    /// the seat's starting cell.
    pub open spec fn inserted(self, seat: int, peg: int) -> BoardView {
        self.logged(Event::Insert { player: seat as usize, peg: peg as usize })
            .placed(start_of(seat) as usize, seat, peg)
    }
}


/// A board before the first turn: the track and the lanes empty, every peg in
/// the reserve, nothing logged.
pub open spec fn empty_board() -> BoardView {
    BoardView {
        track: Seq::new(BOARD_SIZE as nat, |c: int| 0u8),
        pegs: Seq::new((PLAYER_COUNT * PEG_COUNT) as nat, |i: int| Peg::Out),
        home: Seq::new((PLAYER_COUNT * PEG_COUNT) as nat, |i: int| false),
        events: Seq::empty(),
    }
}

/// The letter that stands for a peg's state in the summary: `O` in the
/// reserve, `I` on the track, `H` in the home lane.
pub open spec fn peg_letter(p: Peg) -> char {
    match p {
        Peg::Out => 'O',
        Peg::In(_) => 'I',
        Peg::Home(_) => 'H',
    }
}

/// One line of the summary: the seat's name, a space, a letter for each of its
/// pegs, and a line break.
pub open spec fn stats_line(b: BoardView, seat: int) -> Seq<char> {
    name_of(seat) + seq![' '] + Seq::new(PEG_COUNT as nat, |k: int| peg_letter(b.peg(seat, k))) + seq!['\n']
}

/// The summary lines of the first `n` seats.
pub open spec fn stats_text(b: BoardView, n: int) -> Seq<char>
    decreases n,
{
    if n <= 0 {
        Seq::empty()
    } else {
        stats_text(b, n - 1) + stats_line(b, n - 1)
    }
}

/// The shared track, the home lanes and the pegs of all players.
pub struct Board {
    track: Vec<u8>,
    home: Vec<bool>,
    pegs: Vec<Peg>,
    events: Vec<Event>,
}

impl View for Board {
    type V = BoardView;

    closed spec fn view(&self) -> BoardView {
        BoardView { track: self.track@, pegs: self.pegs@, home: self.home@, events: self.events@ }
    }
}

impl Default for Board {
    fn default() -> (r: Board)
        ensures
            r@.wf(),
            r@ == empty_board(),
    {
        let mut track: Vec<u8> = Vec::new();
        let mut c: usize = 0;
        while c < BOARD_SIZE
            invariant
                c <= BOARD_SIZE,
                track@ == Seq::new(c as nat, |i: int| 0u8),
            decreases BOARD_SIZE - c,
        {
            track.push(0u8);
            c += 1;
            assert(track@ =~= Seq::new(c as nat, |i: int| 0u8));
        }
        let mut home: Vec<bool> = Vec::new();
        let mut pegs: Vec<Peg> = Vec::new();
        let mut i: usize = 0;
        while i < PLAYER_COUNT * PEG_COUNT
            invariant
                i <= PLAYER_COUNT * PEG_COUNT,
                home@ == Seq::new(i as nat, |j: int| false),
                pegs@ == Seq::new(i as nat, |j: int| Peg::Out),
            decreases PLAYER_COUNT * PEG_COUNT - i,
        {
            home.push(false);
            pegs.push(Peg::Out);
            i += 1;
            assert(home@ =~= Seq::new(i as nat, |j: int| false));
            assert(pegs@ =~= Seq::new(i as nat, |j: int| Peg::Out));
        }
        let r = Board { track, home, pegs, events: Vec::new() };
        assert(r@.events =~= Seq::<Event>::empty());
        r
    }
}

impl Board {
    /// Places peg `peg` of `player`, which is in the reserve, on `pos`. Any peg
    /// already standing there goes back to the reserve and a capture of its owner
    /// is logged.
    pub fn place_peg(&mut self, pos: usize, player: Player, peg: usize)
        requires
            old(self)@.wf(),
            pos < BOARD_SIZE,
            peg < PEG_COUNT,
            old(self)@.peg(player.seat(), peg as int) is Out,
        ensures
            final(self)@.wf(),
            final(self)@ == old(self)@.placed(pos, player.seat(), peg as int),
    {
        let ghost before = self@;
        let seat = player.index();
        let current = self.track[pos];
        if current != 0 {
            let victim = (current - 1) as usize;
            self.events.push(Event::Capture { victim });
            let mut k: usize = 0;
            while k < PEG_COUNT
                invariant
                    before.wf(),
                    pos < BOARD_SIZE,
                    victim < PLAYER_COUNT,
                    victim + 1 == before.track[pos as int],
                    k <= PEG_COUNT,
                    self.track@ == before.track,
                    self.home@ == before.home,
                    self.events@ == before.events + capture_log(before.track, pos),
                    self.pegs@.len() == before.pegs.len(),
                    forall|s: int, j: int| #![trigger self@.peg(s, j)]
                        0 <= s < PLAYER_COUNT && 0 <= j < PEG_COUNT ==> self@.peg(s, j) == (
                            if s == victim && j < k && before.peg(s, j) == Peg::In(pos) {
                                Peg::Out
                            } else {
                                before.peg(s, j)
                            }),
                decreases PEG_COUNT - k,
            {
                let i = victim * PEG_COUNT + k;
                let ghost prev = self@;
                if self.pegs[i] == Peg::In(pos) {
                    self.pegs[i] = Peg::Out;
                }
                assert forall|s: int, j: int| 0 <= s < PLAYER_COUNT && 0 <= j < PEG_COUNT && !(s == victim && j == k)
                    implies #[trigger] self@.peg(s, j) == prev.peg(s, j) by {
                    assert(slot(s, j) != i);
                }
                k += 1;
            }
            assert forall|s: int, j: int| 0 <= s < PLAYER_COUNT && 0 <= j < PEG_COUNT
                implies self@.peg(s, j) == sent_back(before.pegs, pos)[slot(s, j)] by {
                if before.peg(s, j) == Peg::In(pos) {
                    assert(before.peg_placed(s, j));
                }
            }
        } else {
            assert forall|s: int, j: int| 0 <= s < PLAYER_COUNT && 0 <= j < PEG_COUNT
                implies self@.peg(s, j) == sent_back(before.pegs, pos)[slot(s, j)] by {
                if before.peg(s, j) == Peg::In(pos) {
                    assert(before.peg_placed(s, j));
                }
            }
            assert(self.events@ =~= before.events + capture_log(before.track, pos));
        }
        proof {
            assert forall|i: int| 0 <= i < PLAYER_COUNT * PEG_COUNT
                implies self.pegs@[i] == sent_back(before.pegs, pos)[i] by {
                let (s, j) = lemma_slot_of(i);
                assert(self@.peg(s, j) == sent_back(before.pegs, pos)[slot(s, j)]);
            }
            assert(self.pegs@ =~= sent_back(before.pegs, pos));
        }
        self.track[pos] = player.num();
        self.pegs[seat * PEG_COUNT + peg] = Peg::In(pos);
        let ghost after = before.placed(pos, seat as int, peg as int);
        assert(self@.track =~= after.track);
        assert(self@.pegs =~= after.pegs);
        assert(self@.home =~= after.home);
        assert(self@.events =~= after.events);
        proof {
            lemma_placed_wf(before, pos, seat as int, peg as int);
        }
    }
    /// Appends an event to the log.
    pub fn log(&mut self, e: Event)
        requires
            old(self)@.wf(),
        ensures
            final(self)@.wf(),
            final(self)@ == old(self)@.logged(e),
    {
        let ghost before = self@;
        self.events.push(e);
        proof {
            lemma_logged_wf(before, e);
        }
        assert(self@ == before.logged(e));
    }

    /// The marker on each track cell: zero when the cell is empty, else the
    /// occupant's seat plus one.
    pub fn cells(&self) -> (r: &[u8])
        ensures
            r@ == self@.track,
    {
        self.track.as_slice()
    }

    /// Everything that happened on the board so far, oldest first.
    pub fn events(&self) -> (r: &[Event])
        ensures
            r@ == self@.events,
    {
        self.events.as_slice()
    }

    /// Whether each slot of `player`'s home lane is taken.
    pub fn home_cells(&self, player: Player) -> (r: Vec<bool>)
        requires
            self@.wf(),
        ensures
            r@ == self@.home.subrange(slot(player.seat(), 0), slot(player.seat(), PEG_COUNT as int)),
    {
        let first = player.index() * PEG_COUNT;
        let mut r: Vec<bool> = Vec::new();
        let mut k: usize = 0;
        while k < PEG_COUNT
            invariant
                k <= PEG_COUNT,
                first == slot(player.seat(), 0),
                first + PEG_COUNT <= PLAYER_COUNT * PEG_COUNT,
                self@.wf(),
                r@ == self@.home.subrange(first as int, first + k),
            decreases PEG_COUNT - k,
        {
            r.push(self.home[first + k]);
            k += 1;
            assert(r@ =~= self@.home.subrange(first as int, first + k));
        }
        r
    }

    /// The state of each of `player`'s pegs.
    pub fn player_pegs(&self, player: Player) -> (r: Vec<Peg>)
        requires
            self@.wf(),
        ensures
            r@ == self@.pegs.subrange(slot(player.seat(), 0), slot(player.seat(), PEG_COUNT as int)),
            r@.len() == PEG_COUNT,
            forall|k: int| 0 <= k < PEG_COUNT ==> r@[k] == #[trigger] self@.peg(player.seat(), k),
    {
        let first = player.index() * PEG_COUNT;
        let mut r: Vec<Peg> = Vec::new();
        let mut k: usize = 0;
        while k < PEG_COUNT
            invariant
                k <= PEG_COUNT,
                first == slot(player.seat(), 0),
                first + PEG_COUNT <= PLAYER_COUNT * PEG_COUNT,
                self@.wf(),
                r@ == self@.pegs.subrange(first as int, first + k),
            decreases PEG_COUNT - k,
        {
            r.push(self.pegs[first + k]);
            k += 1;
            assert(r@ =~= self@.pegs.subrange(first as int, first + k));
        }
        r
    }

    /// A summary of every player's pegs, one line per seat.
    pub fn stats(&self) -> (r: String)
        requires
            self@.wf(),
        ensures
            r@ == stats_text(self@, PLAYER_COUNT as int),
    {
        let mut r = String::new();
        let mut seat: usize = 0;
        while seat < PLAYER_COUNT
            invariant
                seat <= PLAYER_COUNT,
                self@.wf(),
                r@ == stats_text(self@, seat as int),
            decreases PLAYER_COUNT - seat,
        {
            let player = Player::at_seat(seat);
            let ghost line_start = r@;
            r.append(player.name());
            proof {
                reveal_strlit(" ");
            }
            r.append(" ");
            let ghost letters_start = r@;
            let mut k: usize = 0;
            while k < PEG_COUNT
                invariant
                    k <= PEG_COUNT,
                    seat < PLAYER_COUNT,
                    self@.wf(),
                    r@ == letters_start + Seq::new(k as nat, |j: int| peg_letter(self@.peg(seat as int, j))),
                decreases PEG_COUNT - k,
            {
                let ghost prev = r@;
                let letter = match self.pegs[seat * PEG_COUNT + k] {
                    Peg::Out => {
                        proof {
                            reveal_strlit("O");
                        }
                        "O"
                    },
                    Peg::In(_) => {
                        proof {
                            reveal_strlit("I");
                        }
                        "I"
                    },
                    Peg::Home(_) => {
                        proof {
                            reveal_strlit("H");
                        }
                        "H"
                    },
                };
                r.append(letter);
                k += 1;
                assert(r@ =~= letters_start + Seq::new(k as nat, |j: int| peg_letter(self@.peg(seat as int, j))));
            }
            proof {
                reveal_strlit("\n");
            }
            r.append("\n");
            seat += 1;
            assert(r@ =~= stats_text(self@, seat as int));
        }
        r
    }

    /// Brings peg `peg` of `player` from the reserve onto the player's starting
    /// cell, capturing whatever stood there.
    pub fn insert_peg(&mut self, player: Player, peg: usize)
        requires
            old(self)@.wf(),
            peg < PEG_COUNT,
            old(self)@.peg(player.seat(), peg as int) is Out,
        ensures
            final(self)@.wf(),
            final(self)@ == old(self)@.inserted(player.seat(), peg as int),
    {
        let seat = player.index();
        let ghost before = self@;
        self.events.push(Event::Insert { player: seat, peg });
        proof {
            lemma_logged_wf(before, Event::Insert { player: seat, peg });
        }
        assert(self@ == before.logged(Event::Insert { player: seat, peg }));
        let start = player.start_position();
        self.place_peg(start, player, peg);
    }

    /// Moves peg `peg` of `player`, which stands on the track, by `moves` cells.
    pub fn move_peg(&mut self, player: Player, peg: usize, moves: usize)
        requires
            old(self)@.wf(),
            peg < PEG_COUNT,
            old(self)@.peg(player.seat(), peg as int) is In,
            1 <= moves <= 6,
        ensures
            final(self)@.wf(),
            final(self)@ == old(self)@.moved(player.seat(), peg as int, moves),
    {
        let ghost before = self@;
        let seat = player.index();
        let idx = seat * PEG_COUNT + peg;
        let from = match self.pegs[idx] {
            Peg::In(c) => c,
            _ => 0,
        };
        assert(before.peg_placed(seat as int, peg as int));
        let dest = (from + moves) % BOARD_SIZE;
        let home_pos = (player.start_position() + (BOARD_SIZE - 1)) % BOARD_SIZE;
        let pos_in_round = (BOARD_SIZE + dest - home_pos) % BOARD_SIZE;
        if pos_in_round > LANE_THRESHOLD {
            self.events.push(Event::MoveHome { player: seat, peg, steps: moves });
            self.track[from] = 0;
            self.pegs[idx] = Peg::Home(peg);
            self.home[idx] = true;
            proof {
                let e = Event::MoveHome { player: seat, peg, steps: moves };
                lemma_logged_wf(before, e);
                lemma_lane_wf(before.logged(e), seat as int, peg as int, from);
                assert(self@ == before.moved(seat as int, peg as int, moves));
            }
        } else {
            self.events.push(Event::Move { player: seat, peg, steps: moves });
            self.track[from] = 0;
            self.pegs[idx] = Peg::Out;
            proof {
                lemma_logged_wf(before, Event::Move { player: seat, peg, steps: moves });
                lemma_lifted_wf(before.logged(Event::Move { player: seat, peg, steps: moves }), seat as int, peg as int, from);
            }
            assert(self@ == before.logged(Event::Move { player: seat, peg, steps: moves }).lifted(seat as int, peg as int, from));
            self.place_peg(dest, player, peg);
        }
    }
}

/// Logging an event keeps the board well formed.
proof fn lemma_logged_wf(b: BoardView, e: Event)
    requires
        b.wf(),
    ensures
        b.logged(e).wf(),
{
    let a = b.logged(e);
    assert forall|s: int, k: int| 0 <= s < PLAYER_COUNT && 0 <= k < PEG_COUNT
        implies #[trigger] a.peg_placed(s, k) by {
        assert(b.peg_placed(s, k));
    }
    assert forall|c: int| 0 <= c < BOARD_SIZE && #[trigger] a.track[c] != 0
        implies exists|k: int| 0 <= k < PEG_COUNT && #[trigger] a.peg(a.track[c] - 1, k) == Peg::In(c as usize) by {
        let k = choose|k: int| 0 <= k < PEG_COUNT && #[trigger] b.peg(b.track[c] - 1, k) == Peg::In(c as usize);
        assert(a.peg(a.track[c] - 1, k) == Peg::In(c as usize));
    }
    assert forall|s: int, k: int, t: int, l: int|
        0 <= s < PLAYER_COUNT && 0 <= k < PEG_COUNT && 0 <= t < PLAYER_COUNT && 0 <= l < PEG_COUNT
            && (#[trigger] a.peg(s, k)) is In && a.peg(s, k) == #[trigger] a.peg(t, l)
        implies s == t && k == l by {
        assert(a.peg(s, k) == b.peg(s, k));
        assert(a.peg(t, l) == b.peg(t, l));
        assert(b.one_peg_per_cell());
    }
}

/// Taking a peg off its track cell keeps the board well formed.
proof fn lemma_lifted_wf(b: BoardView, seat: int, peg: int, from: usize)
    requires
        b.wf(),
        0 <= seat < PLAYER_COUNT,
        0 <= peg < PEG_COUNT,
        b.peg(seat, peg) == Peg::In(from),
    ensures
        b.lifted(seat, peg, from).wf(),
{
    let a = b.lifted(seat, peg, from);
    assert(b.peg_placed(seat, peg));
    assert forall|s: int, k: int| 0 <= s < PLAYER_COUNT && 0 <= k < PEG_COUNT
        implies #[trigger] a.peg_placed(s, k) by {
        assert(b.peg_placed(s, k));
        if !(s == seat && k == peg) {
            assert(slot(s, k) != slot(seat, peg));
        }
    }
    assert forall|c: int| 0 <= c < BOARD_SIZE && #[trigger] a.track[c] != 0
        implies exists|k: int| 0 <= k < PEG_COUNT && #[trigger] a.peg(a.track[c] - 1, k) == Peg::In(c as usize) by {
        let k = choose|k: int| 0 <= k < PEG_COUNT && #[trigger] b.peg(b.track[c] - 1, k) == Peg::In(c as usize);
        assert(a.peg(a.track[c] - 1, k) == Peg::In(c as usize));
    }
    assert forall|s: int, k: int, t: int, l: int|
        0 <= s < PLAYER_COUNT && 0 <= k < PEG_COUNT && 0 <= t < PLAYER_COUNT && 0 <= l < PEG_COUNT
            && (#[trigger] a.peg(s, k)) is In && a.peg(s, k) == #[trigger] a.peg(t, l)
        implies s == t && k == l by {
        if !(s == seat && k == peg) {
            assert(slot(s, k) != slot(seat, peg));
            assert(a.peg(s, k) == b.peg(s, k));
        }
        if !(t == seat && l == peg) {
            assert(slot(t, l) != slot(seat, peg));
            assert(a.peg(t, l) == b.peg(t, l));
        }
        assert(b.one_peg_per_cell());
    }
}

/// Sending a peg from its track cell into its lane slot keeps the board well formed.
proof fn lemma_lane_wf(b: BoardView, seat: int, peg: int, from: usize)
    requires
        b.wf(),
        0 <= seat < PLAYER_COUNT,
        0 <= peg < PEG_COUNT,
        b.peg(seat, peg) == Peg::In(from),
    ensures
        ({
            let a = BoardView {
                track: b.track.update(from as int, 0u8),
                pegs: b.pegs.update(slot(seat, peg), Peg::Home(peg as usize)),
                home: b.home.update(slot(seat, peg), true),
                events: b.events,
            };
            a.wf()
        }),
{
    let a = BoardView {
        track: b.track.update(from as int, 0u8),
        pegs: b.pegs.update(slot(seat, peg), Peg::Home(peg as usize)),
        home: b.home.update(slot(seat, peg), true),
        events: b.events,
    };
    assert(b.peg_placed(seat, peg));
    assert forall|s: int, k: int| 0 <= s < PLAYER_COUNT && 0 <= k < PEG_COUNT
        implies #[trigger] a.peg_placed(s, k) by {
        assert(b.peg_placed(s, k));
        if !(s == seat && k == peg) {
            assert(slot(s, k) != slot(seat, peg));
        }
    }
    assert forall|c: int| 0 <= c < BOARD_SIZE && #[trigger] a.track[c] != 0
        implies exists|k: int| 0 <= k < PEG_COUNT && #[trigger] a.peg(a.track[c] - 1, k) == Peg::In(c as usize) by {
        let k = choose|k: int| 0 <= k < PEG_COUNT && #[trigger] b.peg(b.track[c] - 1, k) == Peg::In(c as usize);
        assert(a.peg(a.track[c] - 1, k) == Peg::In(c as usize));
    }
    assert forall|s: int, k: int, t: int, l: int|
        0 <= s < PLAYER_COUNT && 0 <= k < PEG_COUNT && 0 <= t < PLAYER_COUNT && 0 <= l < PEG_COUNT
            && (#[trigger] a.peg(s, k)) is In && a.peg(s, k) == #[trigger] a.peg(t, l)
        implies s == t && k == l by {
        if !(s == seat && k == peg) {
            assert(slot(s, k) != slot(seat, peg));
            assert(a.peg(s, k) == b.peg(s, k));
        }
        if !(t == seat && l == peg) {
            assert(slot(t, l) != slot(seat, peg));
            assert(a.peg(t, l) == b.peg(t, l));
        }
        assert(b.one_peg_per_cell());
    }
}


/// Every index of the peg table is the slot of one peg.
proof fn lemma_slot_of(i: int) -> (r: (int, int))
    requires
        0 <= i < PLAYER_COUNT * PEG_COUNT,
    ensures
        0 <= r.0 < PLAYER_COUNT,
        0 <= r.1 < PEG_COUNT,
        i == slot(r.0, r.1),
{
    (i / 4, i % 4)
}

/// Placing a peg from the reserve keeps the board well formed.
proof fn lemma_placed_wf(b: BoardView, cell: usize, seat: int, peg: int)
    requires
        b.wf(),
        cell < BOARD_SIZE,
        0 <= seat < PLAYER_COUNT,
        0 <= peg < PEG_COUNT,
        b.peg(seat, peg) is Out,
    ensures
        b.placed(cell, seat, peg).wf(),
{
    let a = b.placed(cell, seat, peg);
    assert forall|s: int, k: int| 0 <= s < PLAYER_COUNT && 0 <= k < PEG_COUNT
        implies #[trigger] a.peg(s, k) == (if s == seat && k == peg { Peg::In(cell) } else if b.peg(s, k) == Peg::In(cell) { Peg::Out } else { b.peg(s, k) }) by {
    }
    assert forall|s: int, k: int| 0 <= s < PLAYER_COUNT && 0 <= k < PEG_COUNT
        implies #[trigger] a.peg_placed(s, k) by {
        assert(b.peg_placed(s, k));
    }
    assert forall|c: int| 0 <= c < BOARD_SIZE && #[trigger] a.track[c] != 0
        implies exists|k: int| 0 <= k < PEG_COUNT && #[trigger] a.peg(a.track[c] - 1, k) == Peg::In(c as usize) by {
        if c != cell {
            let k = choose|k: int| 0 <= k < PEG_COUNT && #[trigger] b.peg(b.track[c] - 1, k) == Peg::In(c as usize);
            assert(a.peg(a.track[c] - 1, k) == Peg::In(c as usize));
        } else {
            assert(a.peg(seat, peg) == Peg::In(c as usize));
        }
    }
    assert forall|s: int, k: int, t: int, l: int|
        0 <= s < PLAYER_COUNT && 0 <= k < PEG_COUNT && 0 <= t < PLAYER_COUNT && 0 <= l < PEG_COUNT
            && (#[trigger] a.peg(s, k)) is In && a.peg(s, k) == #[trigger] a.peg(t, l)
        implies s == t && k == l by {
        if !(s == seat && k == peg) {
            assert(slot(s, k) != slot(seat, peg));
            assert(a.peg(s, k) == b.peg(s, k));
        }
        if !(t == seat && l == peg) {
            assert(slot(t, l) != slot(seat, peg));
            assert(a.peg(t, l) == b.peg(t, l));
        }
        assert(b.one_peg_per_cell());
    }
}

} // verus!
