//! Core of a terminal tool that repeatedly runs a shell command, shows its
//! output as a selectable list of lines, and feeds the selected lines back
//! into further command executions.
//!
//! The crate holds the two verified pieces of that tool: the interruptible
//! command-execution engine (`command`, `engine`) and the selection-list
//! state machine (`state`), plus the keybinding-configuration helpers
//! (`keybindings`). Process spawning, terminal rendering and input handling
//! live outside; they talk to this crate through plain values.

pub mod command;
pub mod engine;
pub mod keybindings;
pub mod state;
