//! A minimal HTTP/1.1 protocol engine: a request parser, a `Range` header
//! interpreter and the response model of a static file server.
//!
//! The library does no I/O. A server reads the bytes of a connection, asks
//! [`connection::plan`] what to do with them, looks up the file where it is
//! told to, lets [`Response::handle`] pick the response, and sends it: the head
//! from [`Response::head`], a file's bytes in the chunks that a
//! [`transfer::Transfer`] measures out.
//!
//! - [`scan`]: offsets in a byte buffer: whitespace, tokens, patterns.
//! - [`text`]: UTF-8 text and its pieces.
//! - [`number`]: decimal numbers, read and written.
//! - [`request`]: the parser and the `Range` header.
//! - [`response`]: status codes, responses and the rules that pick one.
//! - [`transfer`]: sending a window of a file chunk by chunk.
//! - [`connection`]: the first decision for a connection.
//! - [`error`]: the errors of a server.
//! - [`theorems`]: what holds of all this, whatever the input.

pub mod connection;
pub mod error;
pub mod number;
pub mod request;
pub mod response;
pub mod scan;
pub mod text;
pub mod theorems;
pub mod transfer;

pub use error::NanoserveError;
pub use request::{ParseRequestError, RangeHeader, Request};
pub use response::{Response, ResponseBody, ResponseCode};
