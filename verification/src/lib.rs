//! Decision logic of a streaming backup archiver.
//!
//! The crate decides which paths of a set of filesystem roots enter a
//! tar-style container, in which order and under which names, how a
//! failure to read a path is resolved, and how the header of an embedded,
//! independently compressed member is rewritten once its size is known.
//! It performs no input or output of its own: a driver carries out the
//! actions it asks for and reports back what happened.
//!
//! The modules [`scanner`] and [`coordinator`] hold the two machines that
//! a driver runs; [`scan_laws`], [`coordinator_laws`] and [`walk`] state
//! what holds of every run of them.

pub mod compress;
pub mod coordinator;
pub mod coordinator_laws;
pub mod error;
pub mod header;
pub mod path;
pub mod pattern;
pub mod retry;
pub mod scan_laws;
pub mod scanner;
pub mod settings;
pub mod static_ptr;
pub mod tags;
pub mod walk;
