//! APT repositories in the depot.
pub mod signing;
