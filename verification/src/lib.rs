//! Core of a single-question gateway in front of a retrieval-augmented
//! answering tool: what the tool is started with, and how what it prints is
//! read as an answer and a list of references.
//!
//! The library does no I/O. A caller builds a [`Query`], starts the tool with
//! [`Query::environment`], writes [`Query::stdin_text`] to it, and hands what
//! came of the run to [`conclude`] as a [`Completion`].

pub mod answer;
pub mod encoding;
pub mod invoke;
pub mod laws;
pub mod pattern;
pub mod query;
pub mod text;

pub use answer::{parse_output, Answer, MARKER};
pub use invoke::{conclude, decode_streams, Completion, InvokeError, RawOutput};
pub use query::Query;
