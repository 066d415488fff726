//! A small Just-powered pipeline runner: definitions, hooks, policy and the
//! protocols around them.

pub mod cli;
pub mod definition;
pub mod dispatch;
pub mod error;
pub mod hooks;
pub mod just_runtime;
pub mod names;
pub mod native;
pub mod policy;
pub mod promises;
pub mod protocol;
pub mod text;
