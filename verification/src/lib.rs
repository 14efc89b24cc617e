//! A small HTTP request server core: byte-level request parsing, exact-match
//! routing, response serialisation and the scheduling rules of a fixed-size
//! worker pool.

pub mod text;
pub mod literals;
pub mod common;
pub mod parser;
pub mod thread_pool;
pub mod handler;
pub mod route;
pub mod round_trip;
