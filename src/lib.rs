//! A four-player cross-and-circle race game: pegs leave a reserve, race around a
//! shared circular track, capture each other by landing on occupied cells, and
//! finally leave the track for a private home lane.
//!
//! The board and the turn rules are verified; die rolls come from `rand`.
pub mod board;
pub mod game;
pub mod laws;
pub mod layout;
pub mod peg;
pub mod player;
pub mod turn;

pub use board::{Board, Event};
pub use game::Game;
pub use peg::Peg;
pub use player::Player;
