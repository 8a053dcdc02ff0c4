//! The rules of a small command-line HTTP client: what its arguments must look
//! like, what a POST sends, and how a response is laid out for the terminal.
//!
//! Nothing here touches the network or the terminal. The functions take and
//! return plain values, so that a front end only has to fetch and to print.

pub mod header;
pub mod kv;
pub mod media;
pub mod paint;
pub mod request;
pub mod response;
pub mod url;
