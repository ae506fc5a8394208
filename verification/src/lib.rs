//! Decisions and text of `cargo overstay`: a tool that keeps Rust `target/`
//! directories from filling a disk.
//!
//! The library does no input or output of its own. What needs the disk, the
//! environment or a terminal is asked for: a command is a value that names
//! the one thing it wants next and is handed the answer.

pub mod agreement;
pub mod call_laws;
pub mod cli;
pub mod command_laws;
pub mod confirm;
pub mod consent_laws;
pub mod course_laws;
pub mod delete;
pub mod deletion_laws;
pub mod detached;
pub mod dispatch;
pub mod entry_laws;
pub mod listing_laws;
pub mod loss_laws;
pub mod ls;
pub mod ls_laws;
pub mod ls_text;
pub mod messages;
pub mod misfit_laws;
pub mod passthrough;
pub mod passthrough_laws;
pub mod path;
pub mod prompt_laws;
pub mod purge;
pub mod purge_command;
pub mod purge_laws;
pub mod purge_text;
pub mod rank;
pub mod report_laws;
pub mod scan;
pub mod scan_laws;
pub mod shim;
pub mod shim_laws;
pub mod spelling;
pub mod store;
pub mod style;
pub mod style_laws;
pub mod text;
pub mod text_laws;
pub mod walk;
pub mod walk_laws;
