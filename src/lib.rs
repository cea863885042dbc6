//! Sorting and row-limiting core of a viewer for columnar files.
//!
//! Sort requests are parsed into ordered keys, checked against a schema,
//! and answered either by a per-batch top-k selection or by a sort-and-limit
//! over the whole source; every result passes through a row-budget
//! truncator before it is rendered.

pub mod batch;
pub mod chunked;
pub mod cli;
pub mod engine;
pub mod error;
pub mod kernels;
pub mod laws;
pub mod limit;
pub mod output;
pub mod reader;
pub mod sort;
pub mod view;
