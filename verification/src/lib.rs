//! Satellite: a dashboard over the system's global package managers.
//!
//! The library holds everything the dashboard decides: which managers exist on
//! a platform and which commands they run, how each manager's output is read
//! into packages and upgrades, the order packages are listed in, how the
//! dashboard reacts to loaded data and keys, which steps a batch of updates or
//! removals takes, and what the screen shows. Starting commands, reading their
//! output and drawing the terminal is left to the program around it.

pub mod command;
pub mod dashboard;
pub mod installed;
pub mod json;
pub mod manager;
pub mod ops;
pub mod order;
pub mod output;
pub mod package;
pub mod parse;
pub mod screen;
pub mod text;
pub mod upgrades;

pub use command::{build_command, CommandLine, Platform};
pub use dashboard::{Action, App, AppEvent, Key, ManagerState, ViewState};
pub use json::JsonValue;
pub use manager::{get_managers, ManagerType};
pub use package::Package;
