//! Naming and reconciliation engine of a photograph archive.
//!
//! The library derives the identity of a photograph from its file name,
//! renders canonical names and archive paths from that identity, plans the
//! renames that bring a directory tree (and the preview directories beside
//! it) to canonical names, and decides, step by step, how a file is placed
//! into the archive. It never touches the file system: callers hand it
//! listings and answers, and carry out the actions it returns.

pub mod text;
pub mod base;
pub mod task;
