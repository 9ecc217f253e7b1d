//! Client-side core of a sharded, block-oriented archive service.
//!
//! A coordinator reports the dataset's height and maps a height to the worker
//! serving it; workers answer declarative queries with batches of entries.
//! This crate holds the verified core: the query and entry model, the JSON
//! wire codec, the decimal height parser, URL construction, and the stream
//! cursor engine.  The HTTP transport around it lives outside the crate.

pub mod model;
pub mod num;
pub mod text;
pub mod json;
pub mod codec;
pub mod client;
pub mod engine;
