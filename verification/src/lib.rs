pub mod bit_board;
pub mod moves;
pub mod movegen;
pub mod eval;
pub mod search;
pub mod text;
pub mod parse;
pub mod protocol;
pub mod well_formed;
pub mod mirror;
pub mod counts;
