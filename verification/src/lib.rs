//! Automatic tab titles for the Herdr terminal multiplexer.
//!
//! The crate holds the decisions of the plugin: which label a tab gets, which
//! pane and which process it is taken from, how settings, command lines and
//! Herdr's replies are read, and in which order a sync and the watcher act.
//! Everything that touches the machine is left to the program around it, which
//! hands in plain values and performs the actions it is given.
pub mod text;
pub mod number;
pub mod directory;
pub mod label;
pub mod template;
pub mod process;
pub mod windows;
pub mod config;
pub mod json;
pub mod text_map;
pub mod tab;
pub mod naming;
pub mod herdr;
pub mod sync;
pub mod outcome;
pub mod cli;
pub mod host;
pub mod watcher;
pub mod history;
