//! Rules-driven reorganization of docker repositories.
//!
//! A rules file names reusable tag patterns and, per group of repositories, an
//! ordered list of rules. The first rule that matches an `image:tag` decides
//! what happens to it; an unmatched tag is left in place. Planning is pure: the
//! modules here decide, and the caller performs the requests.
pub mod collisions;
pub mod compile;
pub mod config;
pub mod evidence;
pub mod execute;
pub mod patterns;
pub mod plan;
pub mod preflight;
pub mod report;
pub mod resolve;
pub mod review;
pub mod rules;
pub mod settle;
pub mod summary;
pub mod upstream;
