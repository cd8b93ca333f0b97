//! Verified core of a newline-delimited JSON toolkit: a JSON-pointer field
//! extractor with a closed set of output formats and a per-line failure
//! policy, and a bounded-queue model of a parallel gzip line decompressor.
pub mod extract;
pub mod format;
pub mod gzip;
pub mod json;
pub mod lines;
pub mod pipeline;
