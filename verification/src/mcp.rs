//! The tools that answer queries.
pub mod answer_laws;
pub mod check;
pub mod format;
pub mod fts5;
pub mod fts5_laws;
pub mod neighbourhood;
pub mod neighbourhood_laws;
pub mod query;
pub mod telemetry;
pub mod types;
