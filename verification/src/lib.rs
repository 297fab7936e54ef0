//! Data-source resolution and row-level transforms for a SQL-based file toolkit.
//!
//! The library classifies locators (local paths, HTTP(S) URLs, `s3://` URIs)
//! into a storage kind and a file format, plans how a source is registered
//! with the query engine, and implements the row-level operations the engine
//! does not provide natively: reversing row order, splitting a table into
//! near-equal chunks, concatenating sources, and removing duplicate rows.

pub mod output;
pub mod register;
pub mod rows;
pub mod split;
pub mod text;
pub mod utils;
