//! Character co-occurrence statistics.
//!
//! For a configured alphabet of accepted characters and a symmetric scan
//! window, this library builds a three-dimensional histogram counting how
//! often each accepted neighbor character appears at each relative offset
//! from each accepted base character. A companion mode extracts the literal
//! context windows around occurrences of a target character. A family of
//! fiber statistics supports normalizing the finished histogram.

pub mod alphabet;
pub mod chunking;
pub mod extractor;
pub mod histogram;
pub mod scanner;
pub mod stats;
