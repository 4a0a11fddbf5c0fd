pub mod cost_ledger;
pub mod json;
pub mod keys;
pub mod mcp;
pub mod metrics;
pub mod metrics_export;
pub mod metrics_sink;
pub mod path_laws;
pub mod paths;
pub mod ranking;
pub mod rescore;
pub mod schema_index;
pub mod session_index;
pub mod text;
pub mod text_laws;
pub mod time;
