//! Decision logic of a small git front end: which git operations the
//! background worker performs for each command, how the status listings that
//! git reports are turned into the file lists the user interface shows, and
//! how the interface folds the worker's events into what it displays.

pub mod backend;
pub mod flags;
pub mod repo;
pub mod view;
