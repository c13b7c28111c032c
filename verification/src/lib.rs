//! Bookkeeping for page-backed memory regions obtained from the operating
//! system, bounds-checked byte access to such regions, and the command
//! language of an interactive shell that drives both.

pub mod allocator;
pub mod command;
pub mod memory_ops;
pub mod text;
