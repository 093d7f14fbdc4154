//! Pod and fin coordination logic: slugs, addresses, maildir names, task
//! front matter, run policy, wake planning, lock files and service files.

pub mod text;
pub mod stable;
pub mod paths;
pub mod model;
pub mod mailbox;
pub mod config;
pub mod config_file;
pub mod register;
pub mod runtime;
pub mod issues;
pub mod service;
pub mod report;
pub mod runs;
pub mod hooks;
pub mod commands;
pub mod doctor;
pub mod status;
pub mod loop_worker;
pub mod templates;
