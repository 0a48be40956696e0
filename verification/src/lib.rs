pub mod board;
pub mod moves;
pub mod place;
pub mod eval;
pub mod search;
pub mod protocol;
pub mod laws;
