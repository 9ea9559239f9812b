//! What the measuring tools decide: which files, in which order, and what is
//! asked of them.
pub mod args;
pub mod contention;
pub mod extract;
pub mod filmstrip;
pub mod order;
pub mod pipeline;
