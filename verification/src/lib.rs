//! Core of a minimal HTTP/1.1 file server: request parsing, method
//! dispatch, and response construction, verified end to end.
//!
//! The surrounding program owns the sockets and the filesystem; it hands
//! this library the request bytes and a report on the resolved file, and
//! carries the finished response back to the wire.

pub mod dispatch;
pub mod error;
pub mod inspect;
pub mod request;
pub mod resolve;
pub mod response;
pub mod text;
