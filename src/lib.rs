//! Inference of the dialect and schema of delimited text from a bounded sample.
//!
//! A sample is split into lines ([`lines`]); leading non-tabular lines are found
//! ([`preamble`]); candidate delimiters are scored on the remaining lines ([`delimiter`]);
//! the quote character and raggedness are detected ([`quoting`]); the lines are tokenized by
//! the CSV reader ([`outside`]) and the header row, column types and names are inferred
//! ([`schema`], [`field_type`]). [`sniffer::sniff`] runs the whole pipeline and returns a
//! [`metadata::Metadata`]. [`laws`] states and proves properties of the pipeline.
pub mod field_type;
pub mod lines;
pub mod delimiter;
pub mod quoting;
pub mod preamble;
pub mod outside;
pub mod metadata;
pub mod schema;
pub mod sniffer;
pub mod laws;

