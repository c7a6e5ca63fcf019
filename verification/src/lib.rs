//! Package-manager front end logic: parsing of `apt`, `dnf5` and `flatpak` output,
//! version ordering, cleanup planning, configuration, and what the command line and
//! the terminal interface decide (update summaries, tabs, list filters, the
//! add-repository form, the settings rows and the confirmation dialog layout).
pub mod text;
pub mod package;
pub mod error;
pub mod manager;
pub mod order;
pub mod util;
pub mod source;
pub mod version;
pub mod cleanup;
pub mod assoc;
pub mod config;
pub mod db;
pub mod cli;
pub mod forms;
pub mod lists;
pub mod dialog;
pub mod settings;
