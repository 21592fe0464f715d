//! A tic-tac-toe engine: a 3x3 board, win detection, a one-ply heuristic
//! opponent, an exhaustive minimax opponent, and a multi-round session that
//! keeps score.

pub mod board;
pub mod rules;
pub mod optimal;
pub mod heuristic;
pub mod session;

pub use board::{Board, Cell, IllegalMove, Mark};
pub use heuristic::{computer_move_normal, heuristic_move_with, rule_based_move};
pub use optimal::{computer_move_god, minimax};
pub use rules::{check_winner, classify, win_line, RoundOutcome, WinLine};
pub use session::{GameData, Mode, Phase, Session, WIN_POINTS};
