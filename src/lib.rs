//! A streaming JSON pretty-printer.
//!
//! The input is read once, left to right, by a small state machine that
//! decides for every symbol whether it is copied, dropped (whitespace between
//! tokens) or surrounded by line breaks and indentation. No parse tree is
//! built and nothing is validated.
pub mod model;
pub mod state;
pub mod format;
pub mod laws;
pub mod text;

pub use format::{format_bytes, format_json, Indentation};
pub use state::{Action, Class, FormatState};
