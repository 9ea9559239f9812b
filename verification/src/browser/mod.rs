//! Browsing a folder: listing, filtering, navigation and what to load next.
pub mod directory;
pub mod filmstrip;
pub mod filter;
pub mod navigator;
pub mod prefetch;
