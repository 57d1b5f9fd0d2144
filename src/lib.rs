//! Diagnostics for a language front end: error codes, byte spans, a
//! newline index over source text that turns byte offsets into lines and
//! columns, a renderer for annotated source excerpts, and a reporter that
//! logs messages and hands them to registered observers.

pub mod codes;
pub mod display;
pub mod library;
pub mod loc;
pub mod reporter;
pub mod utf8_facts;

pub use codes::ErrorCode;
pub use loc::Loc;
pub use reporter::Reporter;
