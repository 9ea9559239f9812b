//! Verified core of a fast Sony ARW photo culler.
//!
//! The crate holds the rules of the program: bounded discovery of embedded JPEG
//! previews, display metadata, memory accounting, decode scheduling, navigation,
//! filtering, ratings, reversible file moves and session records. Files, threads,
//! windows and the GPU stay with the program that links the crate.
pub mod app;
pub mod arw;
pub mod bench;
pub mod browser;
pub mod image;
pub mod memory;
pub mod metadata;
pub mod path;
pub mod text;
