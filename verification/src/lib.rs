//! Incremental, suspendable line reading: scan a non-blocking byte source for a
//! delimiter, validate the accumulated bytes as UTF-8, and move them into the
//! caller's destination string without copying.
//!
//! The byte source and the task scheduler are external collaborators: they hand
//! the operation [`scanner::Fill`] events (fresh bytes, end of input, a
//! transient not-ready signal, or a hard error) and are told through the
//! returned step how many bytes were irrevocably consumed. All decisions taken
//! on those events are verified here.

pub mod scanner;
pub mod read_line;
pub mod text;
