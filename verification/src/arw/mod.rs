//! Embedded previews of Sony ARW files: TIFF fields, JPEG framing, discovery.
pub mod choice;
pub mod container;
pub mod coverage;
pub mod error;
pub mod jpeg;
pub mod parser;
pub mod source;
pub mod tiff;
pub mod upright;

pub use crate::arw::error::{Error, IoFailure};
pub use crate::arw::parser::{find_best_preview, EmbeddedPreview, IoStats, PreviewReader};
pub use crate::arw::source::{ByteSource, MemorySource};
