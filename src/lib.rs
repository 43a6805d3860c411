//! A two-player seed-sowing board game of the Kalah family: the board with
//! its sowing, skip and capture rules, the turn state machine built on it,
//! and simple opponent strategies.

pub mod board;
pub mod bot;
pub mod game;
pub mod ring;

pub use board::{new_board, Board, MoveError, Pocket, PocketKind};
pub use bot::{row_label, store_landing_move, Bot, CaptureBot, RandomBot};
pub use game::{new_game, GameState};
pub use ring::{index_of, label_of, other_player, Player};
