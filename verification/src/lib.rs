//! A verified core for a small RESP2 in-memory key-value server: an
//! incremental frame codec, a typed store with string, list and set values,
//! a command executor, a key-sharding router, and a per-connection response
//! reorder buffer.
use vstd::prelude::*;

pub mod byteops;
pub mod num;
pub mod message;
pub mod parser;
pub mod kv;
pub mod wire_text;
pub mod handler;
pub mod router;
pub mod connection;
