//! Client-side protocol for reading and writing the memory of another
//! process through a privileged kernel device: argument resolution,
//! the fixed-layout request value, and the reporting of outcomes.

pub mod parse;
pub mod report;
pub mod request;
