//! Coordination state for a team of agent workers: a membership registry,
//! a dependency-gated work queue and per-agent mailboxes, each kept as an
//! in-memory image of the documents a team shares, with every operation
//! stated as a contract over a mathematical model of that image.
//!
//! The three stores are [`team_manager::TeamManager`], [`task_list::TaskList`]
//! and [`inbox::Inbox`]. Each holds what lies below one directory, keyed by
//! name, and changes it in one indivisible step; reading the documents in
//! and writing them back under a lock is left to the caller, for whom
//! [`paths`] says where each document lies and [`storage`] what to make of
//! a read or of a try for a lock. [`handler`] puts the stores together into
//! the tools that a session offers, and [`team_state`] is what an observer
//! of a team keeps.
//!
//! What holds of the stores over any run of operations is proved in
//! [`task_laws`], [`inbox_laws`] and [`team_laws`].

mod clock;
pub mod error;
pub mod handler;
pub mod ident;
pub mod inbox;
pub mod inbox_laws;
pub mod name_table;
pub mod paths;
pub mod storage;
pub mod task;
pub mod task_laws;
pub mod task_list;
pub mod team_laws;
pub mod team_manager;
pub mod team_state;
pub mod text;
