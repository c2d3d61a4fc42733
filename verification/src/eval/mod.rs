//! The offline evaluation of the detection on labelled samples.

pub mod print;
pub mod report;
pub mod sample;
pub mod tally;

pub use sample::{find_blank_line, parse_sample};
