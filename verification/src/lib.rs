//! A small verified HTTP server core: request parsing, response
//! serialization, routing, and dispatch, all stated over byte sequences.
//!
//! Network and file I/O, logging, and the worker threads live outside the
//! library; the library owns the protocol logic.

pub mod bytemap;
pub mod bytes;
pub mod document;
pub mod errors;
pub mod methods;
pub mod request;
pub mod response;
pub mod routes;
pub mod utils;

pub use methods::Methods;
