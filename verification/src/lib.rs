//! Verified core of an artifact depot: reorganization planning, promotion,
//! garbage collection, auditing and request bookkeeping.
pub mod apt;
pub mod audit;
pub mod auth;
pub mod docker;
pub mod error;
pub mod gc;
pub mod helm;
pub mod json;
pub mod laws;
pub mod ordered;
pub mod reorg;
pub mod reorg_helm;
pub mod seqs;
pub mod server;
pub mod service;
pub mod text;
pub mod time;
