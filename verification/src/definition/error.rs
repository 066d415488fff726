//! What can be wrong with a definition.

use crate::native::{lossy, native_quoted, HostPath, NativeText};
use crate::text::{concat2, concat3, concat4};
use vstd::prelude::*;

verus! {

/// Why a definition could not be found, read, accepted or run. Texts of the
/// system and of the YAML parser are carried as they were reported.
#[derive(Debug, PartialEq, Eq)]
pub enum DefinitionError {
    NotFound { start: HostPath },
    JustfileNotFound { start: HostPath },
    NotAFile(HostPath),
    UnsupportedFilename(String),
    Io { path: HostPath, source: String },
    Yaml { path: HostPath, source: String },
    Invalid(String),
    NonUnicodeTarget(NativeText),
    NonUnicodeExecutable(HostPath),
    Execute { program: HostPath, source: String },
}

/// The message of an error.
pub open spec fn definition_message(error: DefinitionError) -> Seq<char> {
    match error {
        DefinitionError::NotFound { start } => {
            "no Pipelinefile, pipeline.yml, or .pipeline.yml found from "@ + lossy(start@)
        },
        DefinitionError::JustfileNotFound { start } => {
            "no justfile, Justfile, or .justfile found from "@ + lossy(start@)
        },
        DefinitionError::NotAFile(path) => {
            "definition path is not a regular file: "@ + lossy(path@)
        },
        DefinitionError::UnsupportedFilename(name) => {
            "unsupported definition filename `"@ + name@ + "`"@
        },
        DefinitionError::Io { path, source } => lossy(path@) + ": "@ + source@,
        DefinitionError::Yaml { path, source } => {
            "invalid YAML in "@ + lossy(path@) + ": "@ + source@
        },
        DefinitionError::Invalid(reason) => "invalid pipeline definition: "@ + reason@,
        DefinitionError::NonUnicodeTarget(target) => {
            "definition target is not valid UTF-8: "@ + native_quoted(target@)
        },
        DefinitionError::NonUnicodeExecutable(path) => {
            "Just executable path is not valid UTF-8: "@ + native_quoted(path@)
        },
        DefinitionError::Execute { program, source } => {
            "cannot execute `"@ + lossy(program@) + "`: "@ + source@
        },
    }
}

impl DefinitionError {
    /// The message for the user.
    pub fn message(&self) -> (message: String)
        ensures
            message@ == definition_message(*self),
    {
        match self {
            DefinitionError::NotFound { start } => concat2(
                "no Pipelinefile, pipeline.yml, or .pipeline.yml found from ",
                start.shown().as_str(),
            ),
            DefinitionError::JustfileNotFound { start } => concat2(
                "no justfile, Justfile, or .justfile found from ",
                start.shown().as_str(),
            ),
            DefinitionError::NotAFile(path) => concat2(
                "definition path is not a regular file: ",
                path.shown().as_str(),
            ),
            DefinitionError::UnsupportedFilename(name) => concat3(
                "unsupported definition filename `",
                name.as_str(),
                "`",
            ),
            DefinitionError::Io { path, source } => concat3(
                path.shown().as_str(),
                ": ",
                source.as_str(),
            ),
            DefinitionError::Yaml { path, source } => concat4(
                "invalid YAML in ",
                path.shown().as_str(),
                ": ",
                source.as_str(),
            ),
            DefinitionError::Invalid(reason) => concat2(
                "invalid pipeline definition: ",
                reason.as_str(),
            ),
            DefinitionError::NonUnicodeTarget(target) => concat2(
                "definition target is not valid UTF-8: ",
                target.quoted().as_str(),
            ),
            DefinitionError::NonUnicodeExecutable(path) => concat2(
                "Just executable path is not valid UTF-8: ",
                path.quoted().as_str(),
            ),
            DefinitionError::Execute { program, source } => concat4(
                "cannot execute `",
                program.shown().as_str(),
                "`: ",
                source.as_str(),
            ),
        }
    }
}

/// The result says exactly whether there is a problem, and which.
pub open spec fn reports(result: Result<(), DefinitionError>, problem: Option<Seq<char>>) -> bool {
    match problem {
        None => result is Ok,
        Some(text) => result matches Err(DefinitionError::Invalid(reason)) && reason@ == text,
    }
}

/// Of two problems, the one that is met first.
pub open spec fn earlier(first: Option<Seq<char>>, second: Option<Seq<char>>) -> Option<Seq<char>> {
    if first is Some {
        first
    } else {
        second
    }
}

/// The problem with the smallest number below `n`.
pub open spec fn first_problem(n: int, problem: spec_fn(int) -> Option<Seq<char>>) -> Option<
    Seq<char>,
>
    decreases n,
{
    if n <= 0 {
        None
    } else {
        earlier(first_problem(n - 1, problem), problem(n - 1))
    }
}

pub proof fn lemma_problem_stays(n: int, m: int, problem: spec_fn(int) -> Option<Seq<char>>)
    requires
        0 <= n <= m,
        first_problem(n, problem) is Some,
    ensures
        first_problem(m, problem) == first_problem(n, problem),
    decreases m,
{
    if n < m {
        lemma_problem_stays(n, m - 1, problem);
    }
}

pub proof fn lemma_no_problem(n: int, problem: spec_fn(int) -> Option<Seq<char>>)
    requires
        0 <= n,
    ensures
        first_problem(n, problem) is None <==> forall|i: int|
            0 <= i < n ==> #[trigger] problem(i) is None,
    decreases n,
{
    if n > 0 {
        lemma_no_problem(n - 1, problem);
    }
}

} // verus!
