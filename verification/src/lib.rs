//! Parse, apply and revert UPS patches.
//!
//! ## Note
//! This crate was not designed to handle large files: it works on whole files
//! in memory.
pub mod checksum;
pub mod codec;
pub mod diff;
pub mod error;
pub mod laws;
pub mod model;
pub mod patch;
pub mod text;
pub mod util;
pub mod varint;

pub use checksum::Checksum;
pub use error::{
    MetadataMismatch, UpsParseError, UpsParseResult, UpsPatchError, UpsPatchErrors,
    UpsPatchResult,
};
pub use patch::{Block, DirectionMetadata, Hunk, Patch, PatchDirection};
pub use util::SliceDiffs;
