//! Lowers MallardScript programs into flat DuckyScript text.
//!
//! The library works on parsed program trees ([`Statement`]) and on a
//! [`Sources`] table that records what the file system answered for each
//! import. [`compile`] is a pure function of those: when it reaches an import
//! that the table cannot answer yet, it stops and names the file it needs, and
//! the caller loads that file and compiles again.

pub mod ast;
pub mod chord;
pub mod error;
pub mod laws;
pub mod lower;
pub mod sink;
pub mod sources;

pub use ast::Statement;
pub use sink::OutputSink;
pub use chord::flatten_chord;
pub use error::{CompileError, Halt, ImportRequest};
pub use sources::{parent_directory, Contents, Resolution, SourceFile, Sources};
pub use lower::{compile, CompileOutcome, INDENTATION_STEP};
