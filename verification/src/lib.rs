//! A zero-copy parser for the request line of an HTTP/1.1 request.
//!
//! The parser turns a raw byte buffer into a structured representation of the
//! first line of a request: the method, the path, and an optional query-string
//! multi-map. All parsed text borrows from the input buffer; nothing is copied.

pub mod laws;
pub mod method;
pub mod query_string;
pub mod request;
pub mod scan;
pub mod server;
