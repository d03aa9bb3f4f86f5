//! The engine of a local focus tracker: what it stores of a user, how the stored data grows,
//! and what is derived from it.
//!
//! - `user`, `session`, `task`, `achievement`, `settings`, `snapshot`: the data, each type
//!   with its plain view.
//! - `aggregate`: the daily ledger that every recorded session is booked on.
//! - `streak`: the current and the longest streak of a user's active dates.
//! - `rules`: the achievement rules and their evaluation.
//! - `update`: the statement for a sparse change-set.
//! - `reconcile`: the merge of a foreign snapshot's rows into the stored ones.
//! - `migrate`: the decisions of the schema migration runner.
//! - `order`: the order in which a snapshot hands out sessions and tasks.
//! - `profile`: everything stored of one user, with all of the above as its operations.
//! - `calendar`, `clock`, `text`: dates and time, chance, and texts.

pub mod achievement;
pub mod aggregate;
pub mod calendar;
pub mod clock;
pub mod migrate;
pub mod order;
pub mod profile;
pub mod reconcile;
pub mod rules;
pub mod session;
pub mod settings;
pub mod snapshot;
pub mod streak;
pub mod task;
pub mod text;
pub mod update;
pub mod user;
