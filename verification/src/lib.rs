//! Strong deletion of one session from an agent's memory.
//!
//! Deleting a session means that nothing of it is left in any layer: the rows derived
//! from it, the wiki pages and their history, the log entries, and whatever a backup
//! would bring back. The library decides what goes and what stays, and proves it; the
//! program around it reads and writes the database, the repository and the files.

pub mod text;
pub mod order;
pub mod text_laws;
pub mod ids;
pub mod clock;
pub mod error;
pub mod store;
pub mod session_purge;
pub mod purge_laws;
pub mod purge_rows;
pub mod ledger;
pub mod ledger_laws;
pub mod ledger_rows;
pub mod git_tree;
pub mod git_purge;
pub mod git_laws;
pub mod git_paths;
pub mod git_plans;
pub mod git_swap;
pub mod swap_laws;
pub mod log_purge;
pub mod log_laws;
pub mod restore;
pub mod restore_laws;
pub mod purge_command;
pub mod command_laws;
pub mod chat;
pub mod store_operations;
pub mod git_operations;
pub mod file_operations;
