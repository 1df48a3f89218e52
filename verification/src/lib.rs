//! A minimal concurrent HTTP server core: a bounded worker pool with graceful
//! shutdown, request-line parsing and routing, response framing, and a
//! CSV-backed product store. The blocking I/O around these pieces lives in a
//! thin unverified shell; everything here carries contracts.

pub mod addr;
pub mod http;
pub mod pool;
pub mod store;
pub mod text;
