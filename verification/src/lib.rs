//! Inline evaluation reports for scripts.
//!
//! A script is rewritten so that every expression statement reports what it
//! computed, run in a sandbox under a time budget, and the reported values
//! are laid out as text, line by line beside the source.
//!
//! - [`position`] maps byte offsets of the source to line numbers.
//! - [`ast`] is the syntax tree that the pass works on, and [`replacer`] the
//!   instrumentation pass itself.
//! - [`json`] holds the values that a run reports, [`event`] the events that
//!   the reporting hook buffers, and [`format`] lays the events out.
//! - [`session`] is the protocol of one sandboxed evaluation, [`coordinator`]
//!   the requester's side with its time budget, and [`budget`] the budgets.
//! - [`tab`] holds the document records that outcomes are written into.
//!
//! The library decides and computes; parsing, emitting, interpreting and
//! storing are left to its caller.

pub mod ast;
pub mod budget;
pub mod coordinator;
pub mod event;
pub mod format;
pub mod json;
pub mod position;
pub mod replacer;
pub mod session;
pub mod tab;
pub mod text;
