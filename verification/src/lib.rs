//! Streaming parser, filter engine, and columnar chunk encoder for Wikimedia
//! hourly pageview logs.
//!
//! The library decomposes each log line into a structured record: the raw
//! domain code, the de-escaped page title, a view count, and the decomposed
//! domain code (language, project domain, mobile flag). Records can be
//! filtered in two stages (a cheap line-level pattern before parsing, and
//! structured predicates after) and batched into size-bounded columnar
//! chunks with dictionary-encoded string columns.

pub mod filter;
pub mod parse;
pub mod pattern;
pub mod pipeline;
pub mod sift;
pub mod store;
pub mod text;

