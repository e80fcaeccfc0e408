//! Converts entries of a launcher's binary shortcut manifest into desktop
//! link artifacts and artwork assets.
//!
//! The library holds the verified core: decoding the binary manifest into
//! records, selecting records by a target substring, sanitizing display
//! names into filesystem-safe labels, computing the link descriptor and the
//! output paths, and resolving the artwork source with a deterministic
//! fallback order. File reading and writing stay with the caller, which
//! hands in plain byte strings and receives plans and byte strings back.

use vstd::prelude::*;

pub mod assets;
pub mod byteseq;
pub mod decoder;
pub mod link;
pub mod matcher;
pub mod pipeline;
pub mod records;
pub mod sanitize;

verus! {

/// The error taxonomy of the whole pipeline. `Io` is produced by the caller
/// that performs file operations; the remaining variants are produced by the
/// library with enough context (offset, target) to diagnose a failure.
#[derive(Debug)]
pub enum PipelineError {
    /// A file could not be read or written; carries the path in question.
    Io { path: Vec<u8> },
    /// The manifest bytes are malformed; carries the byte offset of the flaw.
    ManifestFormat { offset: usize },
    /// No record's executable path contains the target; carries the target.
    NoMatch { target: Vec<u8> },
    /// A descriptor field is too long for the binary link format.
    Encode { field_len: usize },
    /// The artwork source bytes are not a decodable image.
    ImageDecode,
    /// Neither a source image nor the bundled default asset is available.
    AssetMissing,
}

impl PipelineError {
    /// True exactly on the `NoMatch` variant; lets a caller distinguish the
    /// per-target "nothing selected" condition from structural failures.
    pub fn is_no_match(&self) -> (r: bool)
        ensures
            r == (self matches PipelineError::NoMatch { .. }),
    {
        match self {
            PipelineError::NoMatch { .. } => true,
            _ => false,
        }
    }
}

} // verus!
