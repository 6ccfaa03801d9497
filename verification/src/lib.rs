//! A rule-complete chess engine core: position representation, exhaustive
//! legal-move generation (castling, en passant, promotion, check safety),
//! a notation layer for coordinate and SAN move text, selectable evaluation,
//! and a deadline-bounded iterative-deepening minimax search.
pub mod attack;
pub mod board;
pub mod cache;
pub mod eval;
pub mod movegen;
pub mod notation;
pub mod opening;
pub mod search;

pub use board::Board;
pub use board::Color;
pub use board::Kind;
pub use board::Move;
pub use board::Piece;
pub use cache::Cache;
pub use eval::EvaluatorType;
pub use opening::OpeningBook;
