//! What can go wrong in a run of Pipeline.

use crate::definition::error::{definition_message, DefinitionError};
use crate::hooks::error::{hook_message, HookError};
use crate::just_runtime::config::{runtime_message, RuntimeError};
use crate::policy::{policy_message, PolicyError};
use vstd::prelude::*;

verus! {

/// Any error of Pipeline.
#[derive(Debug, PartialEq, Eq)]
pub enum PipelineError {
    Definition(DefinitionError),
    Runtime(RuntimeError),
    Hook(HookError),
    Policy(PolicyError),
    Io(String),
    Message(String),
}

/// The message of an error.
pub open spec fn pipeline_message(error: PipelineError) -> Seq<char> {
    match error {
        PipelineError::Definition(inner) => definition_message(inner),
        PipelineError::Runtime(inner) => runtime_message(inner),
        PipelineError::Hook(inner) => hook_message(inner),
        PipelineError::Policy(inner) => policy_message(inner),
        PipelineError::Io(text) => text@,
        PipelineError::Message(text) => text@,
    }
}

impl PipelineError {
    /// The message for the user.
    pub fn message(&self) -> (message: String)
        ensures
            message@ == pipeline_message(*self),
    {
        match self {
            PipelineError::Definition(inner) => inner.message(),
            PipelineError::Runtime(inner) => inner.message(),
            PipelineError::Hook(inner) => inner.message(),
            PipelineError::Policy(inner) => inner.message(),
            PipelineError::Io(text) => String::from_str(text.as_str()),
            PipelineError::Message(text) => String::from_str(text.as_str()),
        }
    }
}

/// An error with a message of its own.
pub open spec fn says(error: PipelineError, text: Seq<char>) -> bool {
    error matches PipelineError::Message(message) && message@ == text
}

} // verus!
