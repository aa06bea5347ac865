//! Reads the reports of a hardware sensor utility into structured readings.
//!
//! A report lists devices, each with a header line and the lines of its
//! metrics, and an empty line between two devices:
//!
//! ```text
//! acpitz-virtual-0
//! temp1:        +27.8°C  (crit = +105.0°C)
//!
//! coretemp-isa-0000
//! Core 0:        +43.0°C  (high = +80.0°C, crit = +100.0°C)
//! ```
//!
//! [`parser::parse_readings`] turns such a text into its readings, one for
//! each metric line, in the order of the lines. Lines that are no metric
//! lines are passed over: the format differs from driver to driver, and a
//! report is read as far as it can be read.
//!
//! Everything here is verified. What a function returns is stated over the
//! characters of its input:
//!
//! - [`chars`] and [`scan`]: classes of characters and runs of them;
//! - [`decimal`]: signed decimal numbers, kept as exact text;
//! - [`metric`]: the grammar of a metric line, and [`pattern`]: the same
//!   grammar stated as a whole, with the proof that the two agree;
//! - [`lines`]: the lines of a text;
//! - [`reading`]: the readings;
//! - [`parser`]: the state that is kept from line to line, and the parser;
//! - [`sections`]: what follows for the readings of a report from the way
//!   its lines are grouped.

pub mod chars;
pub mod scan;
pub mod decimal;
pub mod metric;
pub mod pattern;
pub mod lines;
pub mod reading;
pub mod parser;
pub mod sections;
