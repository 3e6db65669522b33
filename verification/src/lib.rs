//! Usage accounting for coding agents.

pub mod all;
pub mod cost;
pub mod figures;
pub mod fx;
mod index;
pub mod json;
pub mod names;
pub mod order;
pub mod paths;
pub mod places;
pub mod prime;
pub mod sort;
pub mod sums;
pub mod sync;
pub mod table;
pub mod tally;
pub mod text;
