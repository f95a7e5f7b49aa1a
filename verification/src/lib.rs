//! Layered symlink management: the decisions of a tool that projects packages
//! of files from a repository into a target directory as symbolic links, with
//! per-host and per-tag overrides and lifecycle hooks.
//!
//! Nothing in this library touches the filesystem. It computes which link goes
//! where, which hook runs when and what may be removed; the program around it
//! walks directories, spawns processes and reports back what it saw.

pub mod args;
pub mod entry;
pub mod hooks;
pub mod layout;
pub mod order;
pub mod path;
pub mod pipeline;
pub mod resolver;
pub mod runner;
pub mod settings;
pub mod sync;
pub mod walk;
