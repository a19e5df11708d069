//! Redacts sensitive text fragments, matched by configurable regex
//! categories, inside documents of several formats (plain text, PDF content
//! streams, word-processor paragraph trees).  Every match is replaced by an
//! opaque token and a reversible mapping from token back to original value is
//! recorded.
//!
//! The crate holds the redaction engine, the pattern-catalog resolver, the
//! per-format document adapters and the folder-scheduling logic.  File and
//! directory I/O, command-line parsing and container (de)serialization are
//! left to the binary built on top of it.

pub mod args;
pub mod codec;
pub mod docx;
pub mod engine;
pub mod error;
pub mod files;
pub mod folder;
pub mod laws;
pub mod pattern;
pub mod pdf;
