//! Local-first synchronization core for a personal productivity store.
//!
//! The crate verifies the parts of the application that decide things:
//! the schema-migration engine, the change-tracking rules that every
//! entity mutation must obey, the push/pull/conflict-resolution contract
//! of the sync engine, and the seed data built on first run.  All I/O
//! (the SQL store itself, the network, the clock and id generator behind
//! their wrappers) stays outside the proofs.

pub mod attachments;
pub mod calendar;
pub mod comments;
pub mod focus;
pub mod habits;
pub mod ids;
pub mod lists;
pub mod migrate;
pub mod order;
pub mod seed;
pub mod shortcuts;
pub mod store;
pub mod sync;
pub mod tags;
pub mod tasks;
