//! A verified CSV-to-JSON conversion service core.
//!
//! The library parses a CSV document given as raw bytes into a set of
//! records, serializes that set as a JSON array of objects, and maps
//! conversion failures to HTTP status codes and JSON error envelopes.
//! All parsing and serialization logic is verified against byte-level
//! specifications; the surrounding HTTP runtime lives outside the library.

pub mod convert;
pub mod http;
pub mod json;
pub mod numfmt;
pub mod records;
pub mod seqs;
pub mod split;
pub mod utf8;
