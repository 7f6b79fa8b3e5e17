//! What the operations of the depot promise, in terms of their inputs and results.
pub mod apt;
pub mod audit;
pub mod auth;
pub mod bloom;
pub mod calls;
pub mod docker;
pub mod execute;
pub mod gc;
pub mod helm_plan;
pub mod helm_report;
pub mod manifest;
pub mod ordered;
pub mod plan;
pub mod report;
pub mod resolve;
pub mod rules;
pub mod scan;
pub mod seqs;
pub mod server;
pub mod service;
pub mod settle;
pub mod text;
pub mod upstream;
