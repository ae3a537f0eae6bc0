use parchis::{Board, Event, Game, Peg, Player};

fn seats() -> Vec<Player> {
    Game::default().players()
}

fn occupied_cells(board: &Board) -> Vec<(usize, u8)> {
    board
        .cells()
        .iter()
        .enumerate()
        .filter(|(_, c)| **c != 0)
        .map(|(i, c)| (i, *c))
        .collect()
}

#[test]
fn fresh_session_six_then_three() {
    let mut game = Game::default();
    assert_eq!(game.current_player().index(), 0);
    let used = game.next_turn_with_rolls(&[6, 3]);
    assert_eq!(used, 2);
    let board = game.board();
    let seat0 = game.players()[0];
    assert_eq!(board.player_pegs(seat0)[0], Peg::In(3));
    assert_eq!(board.cells()[0], 0);
    assert_eq!(board.cells()[3], 1);
    assert_eq!(occupied_cells(board), vec![(3, 1)]);
    assert_eq!(game.current_player().index(), 1);
    assert_eq!(
        board.events().to_vec(),
        vec![
            Event::Roll { player: 0, roll: 6 },
            Event::Insert { player: 0, peg: 0 },
            Event::Roll { player: 0, roll: 3 },
            Event::Move { player: 0, peg: 0, steps: 3 },
        ]
    );
}

#[test]
fn capture_sends_seat_zero_home() {
    let p = seats();
    let mut board = Board::default();
    assert_eq!(board.play_turn(p[0], &[6, 5]), 2);
    assert_eq!(board.player_pegs(p[0])[0], Peg::In(5));
    assert_eq!(board.play_turn(p[1], &[6, 5]), 2);
    assert_eq!(board.player_pegs(p[1])[0], Peg::In(15));
    let expected = [20, 25, 30, 35, 0, 5];
    for cell in expected {
        assert_eq!(board.play_turn(p[1], &[5]), 1);
        assert_eq!(board.player_pegs(p[1])[0], Peg::In(cell));
    }
    assert_eq!(board.player_pegs(p[0])[0], Peg::Out);
    assert_eq!(board.cells()[5], 2);
    assert_eq!(occupied_cells(&board), vec![(5, 2)]);
    let events = board.events();
    let n = events.len();
    assert_eq!(events[n - 2], Event::Move { player: 1, peg: 0, steps: 5 });
    assert_eq!(events[n - 1], Event::Capture { victim: 0 });
    assert_eq!(events.iter().filter(|e| matches!(e, Event::Capture { .. })).count(), 1);
}

#[test]
fn insert_places_peg_on_seat_start() {
    let p = seats();
    for seat in 0..4 {
        let mut board = Board::default();
        board.insert_peg(p[seat], 2);
        assert_eq!(board.player_pegs(p[seat])[2], Peg::In(seat * 10));
        assert_eq!(board.cells()[seat * 10], (seat + 1) as u8);
        assert_eq!(occupied_cells(&board).len(), 1);
    }
}

#[test]
fn capture_leaves_other_pegs_alone() {
    let p = seats();
    let mut board = Board::default();
    board.insert_peg(p[0], 0);
    board.move_peg(p[0], 0, 4);
    board.insert_peg(p[2], 1);
    board.insert_peg(p[1], 3);
    board.move_peg(p[1], 3, 6);
    assert_eq!(board.player_pegs(p[1])[3], Peg::In(16));
    board.insert_peg(p[3], 0);
    board.move_peg(p[3], 0, 6);
    board.move_peg(p[3], 0, 4);
    assert_eq!(board.player_pegs(p[3])[0], Peg::In(0));
    board.move_peg(p[3], 0, 4);
    assert_eq!(board.player_pegs(p[3])[0], Peg::In(4));
    assert_eq!(board.player_pegs(p[0])[0], Peg::Out);
    assert_eq!(board.player_pegs(p[2])[1], Peg::In(20));
    assert_eq!(board.player_pegs(p[1])[3], Peg::In(16));
    assert_eq!(occupied_cells(&board), vec![(4, 4), (16, 2), (20, 3)]);
    assert_eq!(board.events().last(), Some(&Event::Capture { victim: 0 }));
}

#[test]
fn six_inserts_before_moving() {
    let p = seats();
    let mut board = Board::default();
    board.play_turn(p[2], &[6, 2]);
    assert_eq!(board.player_pegs(p[2])[0], Peg::In(22));
    let used = board.play_turn(p[2], &[6, 4]);
    assert_eq!(used, 2);
    assert_eq!(board.player_pegs(p[2])[0], Peg::In(22));
    assert_eq!(board.player_pegs(p[2])[1], Peg::In(24));
    assert_eq!(board.player_pegs(p[2])[2], Peg::Out);
}

#[test]
fn six_without_reserve_moves_first_peg() {
    let p = seats();
    let mut board = Board::default();
    for k in 0..4 {
        board.insert_peg(p[0], k);
        board.move_peg(p[0], k, k + 1);
    }
    let used = board.play_turn(p[0], &[6, 1]);
    assert_eq!(used, 2);
    assert_eq!(board.player_pegs(p[0])[0], Peg::In(8));
}

#[test]
fn repeated_six_inserts_again_and_captures_own_peg() {
    let p = seats();
    let mut board = Board::default();
    let used = board.play_turn(p[0], &[6, 6, 3]);
    assert_eq!(used, 3);
    let pegs = board.player_pegs(p[0]);
    assert_eq!(pegs, vec![Peg::Out, Peg::In(3), Peg::Out, Peg::Out]);
    assert_eq!(occupied_cells(&board), vec![(3, 1)]);
    assert_eq!(
        board.events().to_vec(),
        vec![
            Event::Roll { player: 0, roll: 6 },
            Event::Insert { player: 0, peg: 0 },
            Event::Roll { player: 0, roll: 6 },
            Event::Insert { player: 0, peg: 1 },
            Event::Capture { victim: 0 },
            Event::Roll { player: 0, roll: 3 },
            Event::Move { player: 0, peg: 1, steps: 3 },
        ]
    );
}

#[test]
fn non_six_ends_turn_after_one_action() {
    let p = seats();
    let mut board = Board::default();
    let used = board.play_turn(p[1], &[4, 6, 6]);
    assert_eq!(used, 1);
    assert_eq!(board.events().to_vec(), vec![Event::Roll { player: 1, roll: 4 }]);
    assert!(board.player_pegs(p[1]).iter().all(|peg| *peg == Peg::Out));

    board.play_turn(p[1], &[6, 1]);
    let used = board.play_turn(p[1], &[2, 3]);
    assert_eq!(used, 1);
    assert_eq!(board.player_pegs(p[1])[0], Peg::In(13));
}

#[test]
fn turn_stops_when_rolls_run_out() {
    let p = seats();
    let mut board = Board::default();
    assert_eq!(board.play_turn(p[0], &[6, 6]), 2);
    assert_eq!(board.play_turn(p[0], &[]), 0);
    assert_eq!(board.events().len(), 5);
}

#[test]
fn peg_past_threshold_enters_home_lane() {
    let p = seats();
    let mut board = Board::default();
    board.play_turn(p[0], &[6, 5]);
    for _ in 0..6 {
        board.play_turn(p[0], &[5]);
    }
    assert_eq!(board.player_pegs(p[0])[0], Peg::In(35));
    board.play_turn(p[0], &[2]);
    assert_eq!(board.player_pegs(p[0])[0], Peg::Home(0));
    assert_eq!(board.home_cells(p[0]), vec![true, false, false, false]);
    assert_eq!(board.home_cells(p[1]), vec![false; 4]);
    assert!(occupied_cells(&board).is_empty());
    assert_eq!(board.events().last(), Some(&Event::MoveHome { player: 0, peg: 0, steps: 2 }));
    assert_eq!(board.stats(), "Blue HOOO\nYellow OOOO\nGreen OOOO\nRed OOOO\n");
}

#[test]
fn peg_on_threshold_stays_on_track() {
    let p = seats();
    let mut board = Board::default();
    board.play_turn(p[0], &[6, 5]);
    for _ in 0..6 {
        board.play_turn(p[0], &[5]);
    }
    board.play_turn(p[0], &[6]);
    assert_eq!(board.player_pegs(p[0])[1], Peg::In(0));
    let mut board = Board::default();
    board.insert_peg(p[0], 0);
    board.move_peg(p[0], 0, 6);
    for _ in 0..4 {
        board.move_peg(p[0], 0, 6);
    }
    board.move_peg(p[0], 0, 5);
    assert_eq!(board.player_pegs(p[0])[0], Peg::In(35));
    board.move_peg(p[0], 0, 1);
    assert_eq!(board.player_pegs(p[0])[0], Peg::Home(0));
}

#[test]
fn stats_lists_every_seat() {
    let p = seats();
    let mut board = Board::default();
    assert_eq!(board.stats(), "Blue OOOO\nYellow OOOO\nGreen OOOO\nRed OOOO\n");
    board.play_turn(p[3], &[6, 2]);
    assert_eq!(board.stats(), "Blue OOOO\nYellow OOOO\nGreen OOOO\nRed IOOO\n");
}

#[test]
fn place_peg_on_empty_and_taken_cells() {
    let p = seats();
    let mut board = Board::default();
    board.place_peg(17, p[2], 3);
    assert_eq!(board.cells()[17], 3);
    assert_eq!(board.player_pegs(p[2])[3], Peg::In(17));
    assert!(board.events().is_empty());
    board.place_peg(17, p[0], 1);
    assert_eq!(board.cells()[17], 1);
    assert_eq!(board.player_pegs(p[2])[3], Peg::Out);
    assert_eq!(board.events().to_vec(), vec![Event::Capture { victim: 2 }]);
}

#[test]
fn move_wraps_round_the_track() {
    let p = seats();
    let mut board = Board::default();
    board.insert_peg(p[3], 0);
    assert_eq!(board.player_pegs(p[3])[0], Peg::In(30));
    board.move_peg(p[3], 0, 6);
    board.move_peg(p[3], 0, 6);
    assert_eq!(board.player_pegs(p[3])[0], Peg::In(2));
    assert_eq!(board.cells()[2], 4);
    assert_eq!(board.cells()[36], 0);
}

#[test]
fn first_peg_finds_lowest() {
    let p = seats();
    let mut board = Board::default();
    assert_eq!(board.first_peg(p[1], false), Some(0));
    assert_eq!(board.first_peg(p[1], true), None);
    board.insert_peg(p[1], 0);
    board.move_peg(p[1], 0, 1);
    board.insert_peg(p[1], 2);
    assert_eq!(board.first_peg(p[1], false), Some(1));
    assert_eq!(board.first_peg(p[1], true), Some(0));
}

#[test]
fn play_roll_follows_rule_order() {
    let p = seats();
    let mut board = Board::default();
    assert_eq!(board.play_roll(p[0], None, 3), None);
    assert_eq!(board.play_roll(p[0], None, 6), Some(0));
    assert_eq!(board.play_roll(p[0], Some(0), 4), None);
    assert_eq!(board.player_pegs(p[0])[0], Peg::In(4));
    assert_eq!(board.play_roll(p[0], None, 2), None);
    assert_eq!(board.player_pegs(p[0])[0], Peg::In(6));
}

#[test]
fn players_and_names() {
    let game = Game::default();
    let players = game.players();
    let names: Vec<&str> = players.iter().map(|p| p.name()).collect();
    assert_eq!(names, vec!["Blue", "Yellow", "Green", "Red"]);
    let indices: Vec<usize> = players.iter().map(|p| p.index()).collect();
    assert_eq!(indices, vec![0, 1, 2, 3]);
    let nums: Vec<u8> = players.iter().map(|p| p.num()).collect();
    assert_eq!(nums, vec![1, 2, 3, 4]);
    let starts: Vec<usize> = players.iter().map(|p| p.start_position()).collect();
    assert_eq!(starts, vec![0, 10, 20, 30]);
    let next: Vec<usize> = players.iter().map(|p| p.next().index()).collect();
    assert_eq!(next, vec![1, 2, 3, 0]);
}

#[test]
fn peg_kinds() {
    assert!(Peg::Out.is_out() && !Peg::Out.is_in() && !Peg::Out.is_home());
    assert!(Peg::In(7).is_in() && !Peg::In(7).is_out() && !Peg::In(7).is_home());
    assert!(Peg::Home(1).is_home() && !Peg::Home(1).is_in() && !Peg::Home(1).is_out());
}

#[test]
fn fresh_board_is_empty() {
    let board = Board::default();
    assert_eq!(board.cells().len(), 40);
    assert!(board.cells().iter().all(|c| *c == 0));
    for p in seats() {
        assert_eq!(board.player_pegs(p), vec![Peg::Out; 4]);
        assert_eq!(board.home_cells(p), vec![false; 4]);
    }
    assert!(board.events().is_empty());
}

#[test]
fn random_turns_roll_dice_and_pass_seats() {
    let mut game = Game::default();
    for round in 0..40 {
        let before = game.board().events().len();
        let seat = game.current_player().index();
        assert_eq!(seat, round % 4);
        game.next_turn();
        let events = game.board().events()[before..].to_vec();
        let rolls: Vec<usize> = events
            .iter()
            .filter_map(|e| match e {
                Event::Roll { player, roll } => {
                    assert_eq!(*player, seat);
                    Some(*roll)
                }
                _ => None,
            })
            .collect();
        assert!(!rolls.is_empty());
        assert!(rolls.iter().all(|r| (1..=6).contains(r)));
        assert!(rolls[..rolls.len() - 1].iter().all(|r| *r == 6));
        assert_ne!(*rolls.last().unwrap(), 6);
        let mut on_track: Vec<usize> = Vec::new();
        for p in game.players() {
            for peg in game.board().player_pegs(p) {
                if let Peg::In(c) = peg {
                    assert_eq!(game.board().cells()[c], p.num());
                    on_track.push(c);
                }
            }
        }
        let mut unique = on_track.clone();
        unique.sort();
        unique.dedup();
        assert_eq!(unique.len(), on_track.len());
    }
    assert_eq!(game.current_player().index(), 0);
}

#[test]
fn perform_turn_keeps_current_player() {
    let mut game = Game::default();
    let p = game.players();
    game.perform_turn(p[2]);
    assert_eq!(game.current_player().index(), 0);
    assert!(matches!(game.board().events()[0], Event::Roll { player: 2, .. }));
}
