//! Resolution of the Just executable that Pipeline runs.
//!
//! A compatible installed executable is preferred, then one from `PATH`. If
//! there is none, `/just` is copied out of a container image.

pub mod command;
pub mod config;
pub mod extract;
pub mod resolve;
pub mod version;
