//! Unified reports over every agent.

pub mod agreement;
pub mod columns;
pub mod document;
pub mod flat;
pub mod labels;
pub mod layout;
pub mod outline;
pub mod period;
pub mod plan;
pub mod report_table;
pub mod rows;
pub mod spelling;
pub mod summary;
pub mod summary_days;
