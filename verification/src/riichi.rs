//! The hand model and the analysis built on it.

pub mod blocks;
pub mod hand;
pub mod improve;
pub mod invariants;
pub mod laws;
pub mod melds;
pub mod notation;
pub mod order;
pub mod riichi_error;
pub mod round_trip;
pub mod search;
pub mod shanten;
pub mod shapes;
pub mod table;
pub mod tally;
pub mod text;
pub mod tile;
