//! Time-and-filter core of a workspace-administration command-line client.
//!
//! The library converts between civil calendar dates and seconds since the
//! UNIX epoch, parses compound human-readable durations such as `1d12h30m`,
//! renders coarse relative-age strings such as `2h ago`, and applies
//! conjunctions of optional filter criteria to in-memory collections of
//! session and image records.  Every function is pure: the current wall-clock
//! time, where it matters, is an explicit parameter supplied by the caller.

pub mod civil;
pub mod config;
pub mod display;
pub mod filters;
pub mod models;
pub mod resource;
pub mod text;
