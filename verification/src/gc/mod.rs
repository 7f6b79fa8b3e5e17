//! Garbage collection: filters of live blobs and the docker collector.
pub mod bloom;
pub mod docker;
