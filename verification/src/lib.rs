//! Finds the identifiers of the running processes that belong to a program
//! name.
//!
//! A [`ProcessTable`] is a snapshot of the process listing; it is built from
//! the text that was read there and never refreshed. Its query judges every
//! entry with [`Process::matches`] and returns the identifiers of those that
//! run the program.

pub mod check_flags;
pub mod laws;
pub mod process;
pub mod process_table;
pub mod procfs;
pub mod text;
pub mod utils;

pub use crate::check_flags::{CheckRoot, CheckScripts, CheckThreads, CheckWorkers};
pub use crate::process::{Process, ProcessLinks};
pub use crate::process_table::{read_processes, ProcessTable, ScanError};
