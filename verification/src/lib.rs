//! Rules engine, search, match bookkeeping and client logic for Antarian
//! Chess, a chess variant with Emperors, Empresses, Priests, Paladins,
//! Dragons and Knights.

pub mod types;
pub mod zobrist;
pub mod board;
pub mod rays;
pub mod movegen;
pub mod pieces;
pub mod move_facts;
pub mod laws;
pub mod attack_laws;
pub mod rule_laws;
pub mod evaluation;
pub mod mirror_laws;
pub mod stop_flag;
pub mod tt;
pub mod move_sort;
pub mod search;
pub mod search_log;
pub mod protocol;
pub mod server;
pub mod server_laws;
pub mod session;
pub mod session_laws;
pub mod client;
pub mod release;
pub mod update_check;
pub mod launch;

pub use board::Board;
pub use zobrist::{compute_zobrist, ZOBRIST_SIDE};
pub use types::{Color, GameResult, Move, PieceKind};
