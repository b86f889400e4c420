//! A small HTTP/1.1 server core: request parsing, response building and
//! routing, with every step stated over byte sequences and proved.
//!
//! The program around it (listening, reading and writing sockets, the
//! file store, the command line) hands this library plain values and
//! sends back the bytes it returns.

pub mod bytes;
pub mod guarantees;
pub mod headers;
pub mod request;
pub mod response;
pub mod router;
