//! Records of the depot and the operations on them.
pub mod blob;
pub mod promote;
pub mod records;
pub mod store;
