//! Conversion of text with ANSI/VT100 escape sequences into styled HTML.
//!
//! The library is organised leaves first: the color model, the CSI
//! parameter tokenizer, the SGR attribute state machine, and the line
//! scanner that drives HTML emission. A conversion session holds the
//! page configuration and the persistent style state; completed rows are
//! handed back as plain strings for the caller to write out.

pub mod color;
pub mod csi;
pub mod filter;
pub mod sgr;
pub mod text;

pub use color::Color;
pub use color::Gamma;
pub use csi::parse_csi_values;
pub use filter::A2hFilter;
pub use sgr::StyleState;
pub use text::parse_int;
