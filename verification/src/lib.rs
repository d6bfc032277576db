//! Compares two JSON documents node by node and shows the result in three views: what both
//! documents share, what differs as seen from the first, and what differs as seen from the
//! second.
//!
//! [`delta::compare_values`] computes the delta of two documents, [`delta::Delta::to_value`]
//! folds a delta into a document under a filter, and [`run`] takes two JSON texts to the
//! contents of the three output files. Every contract speaks of the mathematical document that
//! a `serde_json::Value` holds; [`json`] says what is assumed of `serde_json`, and [`laws`]
//! what is proved of the library as a whole.
pub mod config;
pub mod delta;
pub mod filters;
pub mod json;
pub mod laws;
pub mod project;
pub mod run;

pub use config::Config;
pub use run::parse_json;
pub use run::run;
