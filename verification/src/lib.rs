//! Reconciles a repository tree of tracked files with the copies that live
//! under a user's home directory.
//!
//! The library decides; it never touches the disk. Callers observe the two
//! trees, hand the observations over as plain values, and carry out the
//! actions that come back.

pub mod action;
pub mod digest;
pub mod error;
pub mod laws;
pub mod model;
pub mod ops;
pub mod path;
pub mod report;
pub mod roots;
pub mod seqs;
pub mod status;
pub mod walk;
