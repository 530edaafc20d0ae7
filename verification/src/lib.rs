//! Dotrift: deploys dotfiles from a source directory into a target directory.
//!
//! This crate holds the verified core: configuration validation, rule
//! application, profile merging, reconcile decisions and text helpers.

pub mod text;
pub mod mode;
pub mod error;
pub mod paths;
pub mod targets;
pub mod rules;
pub mod portals;
pub mod deployment;
pub mod value;
pub mod data;
pub mod scan;
pub mod global;
pub mod deploy;
pub mod capture;
pub mod output;
pub mod environment;
pub mod tree;
pub mod dry_run;
pub mod collision;
pub mod portal_config;
pub mod editor_args;
pub mod builtins;
pub mod cli;
pub mod target_state;
pub mod ignore_file;
pub mod prompt;
pub mod analysis;
pub mod diff_view;
pub mod entry_order;
