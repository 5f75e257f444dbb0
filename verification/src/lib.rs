//! Reading ZIP archives by random access: the verified core.
//!
//! The library locates the end-of-central-directory record, follows the
//! zip64 records when the 32-bit fields overflow, parses the central
//! directory into file entries and plans every ranged read that extraction
//! needs. Everything that touches a file, a socket or a decoder stream is
//! left to the caller, which hands the bytes it read back to these functions.
use vstd::prelude::*;

pub mod bytes;
pub mod parser;
pub mod archive;
pub mod buffer;
pub mod seeker;
pub mod resume;
pub mod deflate;
pub mod reader;
