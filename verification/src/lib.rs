//! Legacy one-line APT source entries: extracting them from scanned source
//! lists, and rendering them back to the text of a list file.
//!
//! The library reads no file and starts no process. Extraction takes the
//! scanned lists and the parser of commented-out lines from the caller;
//! saving gives back a request that the caller carries out.

pub mod entry;
pub mod extract;
pub mod laws;
pub mod parser;
pub mod render;
pub mod text;
pub mod write;

pub use crate::entry::{Directive, LegacyAptSource, SourceLine, SourcesList};
pub use crate::write::WriteRequest;
