//! The fx agent: its data directories, its usage ledger and the sessions that generations belong
//! to.

pub mod laws;
pub mod lines;
pub mod loader;
pub mod parser;
pub mod paths;
pub mod reading;
pub mod records;
