//! Docker images in the depot.
pub mod closure;
pub mod copy;
pub mod manifest;
pub mod paths;
pub mod promote;
pub mod tags;
