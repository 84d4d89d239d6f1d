//! A small task tracker: command-line parsing, task-list operations and
//! the line-oriented JSON file format that stores the list.

pub mod task;
pub mod text;
pub mod config;
pub mod persistence;
