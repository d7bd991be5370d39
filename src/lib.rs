//! Device state and auto-attach supervision for a tool that shares USB
//! devices with a guest system through a backend command-line program.
//!
//! - `parser` reads the program's device listing into records;
//! - `command` holds its argument lists and how a run of it is judged;
//! - `supervisor` keeps one background auto-attach process per device and
//!   the record of them to persist;
//! - `manager` ties the last listing to the supervisor and applies the
//!   policy on which requests each device state allows.
//!
//! Processes, files and windows are left to the caller: the library decides
//! what to run and takes back what came of it.

pub mod command;
pub mod device;
pub mod manager;
pub mod parser;
pub mod supervisor;
pub mod text;
