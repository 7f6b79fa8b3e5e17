//! Helm charts in the depot.
pub mod promote;
pub mod transfer;
