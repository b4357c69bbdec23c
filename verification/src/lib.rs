//! A verified progress tracker for working through a book's problem sets.
//!
//! The crate replays a sequence of domain commands — set a goal, open a day,
//! open a chapter, record assigned and finished work, add problems, mark
//! problems for rework, apply a penalty, reset progress — against an
//! [`interpreter::Interpreter`], which owns a segmented problem ledger and
//! enforces the cross-command invariants: date contiguity, chapter scoping,
//! duplicate detection, assigned-work settlement and penalty bookkeeping.
//! A point-in-time [`report::Report`] is derived on demand.
//!
//! Parsing the textual command language and rendering reports are left to the
//! surrounding application; the library consumes structured
//! [`commands::Command`] values only.
#![verifier::loop_isolation(false)]

pub mod commands;
pub mod date;
pub mod error;
pub mod interpreter;
pub mod laws;
pub mod ledger;
pub mod problem;
pub mod report;
