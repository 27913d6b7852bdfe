//! A minimal HTTP/1.1 server core, free of I/O.
//!
//! - [`request`]: the request parser, from bytes to method, path, protocol
//!   and headers, with the grammar it follows.
//! - [`response`]: the response builder and its serialization.
//! - [`app`]: the configuration of an application, and what the accept loop
//!   decides for the bytes of each connection.
//! - [`defaults`]: the answer to a request that could not be parsed.
//! - [`threads`]: the job queue of the worker pool.
//! - [`text`], [`encoding`]: bytes, lines and tokens, and ASCII in UTF-8.
//! - [`roundtrip`]: requests in wire form parse back to themselves.
//!
//! Sockets, files and threads are the caller's.

pub mod app;
pub mod defaults;
pub mod encoding;
pub mod request;
pub mod response;
pub mod roundtrip;
pub mod text;
pub mod threads;
