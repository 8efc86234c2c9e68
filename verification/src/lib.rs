//! Verified core of the benchmarking toolkit.

pub mod text;
pub mod identity;
pub mod matching;
pub mod run_id;
pub mod hashing;
pub mod eval_context;
pub mod order;
pub mod provenance;
pub mod compare;
pub mod error;
pub mod judge;
pub mod prompt;
pub mod markup;
pub mod dataset;
pub mod schema;
pub mod storage;
pub mod viz;
pub mod runner;
pub mod report;
pub mod counting;
pub mod cache;
pub mod html;
pub mod semantic;
pub mod tokens;
pub mod markdown;
