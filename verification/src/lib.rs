//! Rules and decisions of a btrfs snapshot keeper.
//!
//! The library holds what can be decided from plain values: how snapshots are named and
//! located, which of them a cleanup removes, how a replication target is written, what is sent
//! there and from which parent, and how every multi-step operation reacts to what the disk, the
//! database and the `btrfs` command answer. Reading and writing is left to the program around it.
pub mod args;
pub mod change_laws;
pub mod changes;
pub mod contents;
pub mod controller;
pub mod copy_laws;
pub mod course_laws;
pub mod database;
pub mod deleting;
pub mod delivery;
pub mod exclude_laws;
pub mod excludes;
pub mod filters;
pub mod message_laws;
pub mod operations;
pub mod option_laws;
pub mod order;
pub mod paths;
pub mod pattern;
pub mod pattern_laws;
pub mod places;
pub mod replication;
pub mod restoring;
pub mod retention;
pub mod run;
pub mod run_laws;
pub mod sending;
pub mod shell;
pub mod sizes;
pub mod staging;
pub mod structs;
pub mod table_laws;
pub mod target_laws;
pub mod text;
pub mod text_laws;
pub mod tracking;
pub mod transfer;
pub mod utils;
pub mod writing_laws;
