//! The server's record of requests.
pub mod audit;
pub mod request_stream;
