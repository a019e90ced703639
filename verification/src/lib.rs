//! Repackaging engine for embedding a Python distribution inside a native
//! executable: it resolves declarative packaging rules against a distribution,
//! stages the chosen modules, extensions and data resources, serializes them
//! into an index-first binary blob format, and plans the derived C sources and
//! link steps for a custom static libpython.

use vstd::prelude::*;

pub mod archive;
pub mod codec;
pub mod configc;
pub mod dist;
pub mod linker;
pub mod importlib;
pub mod ordmap;
pub mod project;
pub mod resources;
pub mod pyconfig;
pub mod reducer;
pub mod resolver;
pub mod scan;
pub mod text;

verus! {

/// Errors surfaced by the engine. Every failure carries the offending
/// name or path so callers can report a single annotated error.
#[derive(Debug, PartialEq, Eq)]
pub enum RepackageError {
    /// A malformed rule value, or a missing required extension or variant.
    ConfigError { message: String },
    /// A blob entry whose name or data does not fit in a `u32` length field.
    TooLarge { name: String },
    /// A filesystem operation failed.
    IoError { message: String },
    /// A spawned child process failed to start or exited with an error.
    SubprocessError { message: String },
    /// The bytecode compiler reported a per-module error.
    BytecodeCompileError { name: String, message: String },
    /// A required library is absent from the distribution.
    LinkError { library: String },
    /// An archive is missing an expected file or holds unusable metadata.
    DistributionError { message: String },
}

} // verus!
