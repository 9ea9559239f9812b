//! Metadata of a photograph: for display, and its rating.
pub mod exif;
pub mod fields;
pub mod xmp;

pub use crate::metadata::exif::{read_exif, ExifMetadata, MetadataError};
