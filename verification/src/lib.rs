//! A lazy, depth-bounded directory-tree walker for filename search.
//!
//! The walker is a pull-driven state machine over an explicit stack of open
//! directories. The caller owns the operating-system cursors: it reads one
//! raw entry from the top directory, hands the walker what it found, and
//! performs the action that the walker answers with.

pub mod config;
pub mod entry;
pub mod matcher;
pub mod stack;
pub mod walker;
pub mod laws;
pub mod tree;
