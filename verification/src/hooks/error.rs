//! What can go wrong with Git and with hook installation.

use crate::native::{debug_quoted, debug_text, lossy, HostPath};
use crate::text::{concat2, concat3, concat4, concat5, signed_decimal, signed_text};
use vstd::prelude::*;

verus! {

/// Why Git could not be asked, or a hook not be installed, removed or run.
/// Texts of the system are carried as they were reported.
#[derive(Debug, PartialEq, Eq)]
pub enum HookError {
    GitStart { source: String },
    GitFailed { operation: String, status: Option<i32>, stderr: String },
    GitNonUtf8(String),
    NotRepository(HostPath),
    WorkTreeNotFound(HostPath),
    Canonicalize { path: HostPath, source: String },
    ConfiguredHooksPath(String),
    UnsupportedHook(String),
    ManagedWithExplicitHooks,
    UnmanagedHook(HostPath),
    LinkSourceNotInPath { command: String, path: HostPath },
    LinkTargetIsSource(HostPath),
    ExecutableSource { path: HostPath, source: String },
    NotExecutable(HostPath),
    InvalidInstallPath(HostPath),
    InstallTransaction(String),
    OutsideRepository { path: HostPath, root: HostPath },
    InvalidRevision(String),
    InvalidRefInput,
    Io(String),
}

/// An optional exit code as Rust shows it for diagnosis.
pub open spec fn shown_code(code: Option<i32>) -> Seq<char> {
    match code {
        Some(n) => "Some("@ + signed_decimal(n as int) + ")"@,
        None => "None"@,
    }
}

pub fn code_text(code: Option<i32>) -> (text: String)
    ensures
        text@ == shown_code(code),
{
    match code {
        Some(n) => concat3("Some(", signed_text(n).as_str(), ")"),
        None => String::from_str("None"),
    }
}

pub open spec fn hook_message(error: HookError) -> Seq<char> {
    match error {
        HookError::GitStart { source } => "could not run git: "@ + source@,
        HookError::GitFailed { operation, status, stderr } => operation@ + " failed (status "@
            + shown_code(status) + "): "@ + stderr@,
        HookError::GitNonUtf8(operation) => operation@ + " returned non-UTF-8 output"@,
        HookError::NotRepository(path) => "not a Git repository: "@ + lossy(path@),
        HookError::WorkTreeNotFound(
            path,
        ) => "could not locate the worktree belonging to Git directory "@ + lossy(path@),
        HookError::Canonicalize { path, source } => "could not canonicalize "@ + lossy(path@)
            + ": "@ + source@,
        HookError::ConfiguredHooksPath(path) => "core.hooksPath is configured as "@
            + debug_quoted(path@)
            + "; Pipeline only installs into Git's standard hooks directory"@,
        HookError::UnsupportedHook(hook) => "unsupported Git hook "@ + debug_quoted(hook@),
        HookError::ManagedWithExplicitHooks =>
            "--managed cannot be combined with explicit hook names"@,
        HookError::UnmanagedHook(path) => "refusing to replace or remove unmanaged hook "@ + lossy(
            path@,
        ),
        HookError::LinkSourceNotInPath { command, path } => "cannot link "@ + command@ + " from "@
            + lossy(path@) + ": the same executable is not available from PATH"@,
        HookError::LinkTargetIsSource(path) => "cannot replace "@ + lossy(path@)
            + " with a symlink to itself; run Pipeline from another PATH location"@,
        HookError::ExecutableSource { path, source } => "could not use executable source "@
            + lossy(path@) + ": "@ + source@,
        HookError::NotExecutable(path) => "file is not executable: "@ + lossy(path@),
        HookError::InvalidInstallPath(path) => "invalid installation path: "@ + lossy(path@),
        HookError::InstallTransaction(reason) => "hook installation transaction failed: "@
            + reason@,
        HookError::OutsideRepository { path, root } => "path "@ + lossy(path@)
            + " is outside repository worktree "@ + lossy(root@),
        HookError::InvalidRevision(revision) => "revision does not resolve to a commit: "@
            + debug_quoted(revision@),
        HookError::InvalidRefInput => "invalid Git reference update input"@,
        HookError::Io(text) => text@,
    }
}

impl HookError {
    /// The message for the user.
    pub fn message(&self) -> (message: String)
        ensures
            message@ == hook_message(*self),
    {
        match self {
            HookError::GitStart { source } => concat2("could not run git: ", source.as_str()),
            HookError::GitFailed { operation, status, stderr } => concat5(
                operation.as_str(),
                " failed (status ",
                code_text(*status).as_str(),
                "): ",
                stderr.as_str(),
            ),
            HookError::GitNonUtf8(operation) => concat2(
                operation.as_str(),
                " returned non-UTF-8 output",
            ),
            HookError::NotRepository(path) => concat2(
                "not a Git repository: ",
                path.shown().as_str(),
            ),
            HookError::WorkTreeNotFound(path) => concat2(
                "could not locate the worktree belonging to Git directory ",
                path.shown().as_str(),
            ),
            HookError::Canonicalize { path, source } => concat4(
                "could not canonicalize ",
                path.shown().as_str(),
                ": ",
                source.as_str(),
            ),
            HookError::ConfiguredHooksPath(path) => concat3(
                "core.hooksPath is configured as ",
                debug_text(path.as_str()).as_str(),
                "; Pipeline only installs into Git's standard hooks directory",
            ),
            HookError::UnsupportedHook(hook) => concat2(
                "unsupported Git hook ",
                debug_text(hook.as_str()).as_str(),
            ),
            HookError::ManagedWithExplicitHooks => String::from_str(
                "--managed cannot be combined with explicit hook names",
            ),
            HookError::UnmanagedHook(path) => concat2(
                "refusing to replace or remove unmanaged hook ",
                path.shown().as_str(),
            ),
            HookError::LinkSourceNotInPath { command, path } => concat5(
                "cannot link ",
                command.as_str(),
                " from ",
                path.shown().as_str(),
                ": the same executable is not available from PATH",
            ),
            HookError::LinkTargetIsSource(path) => concat3(
                "cannot replace ",
                path.shown().as_str(),
                " with a symlink to itself; run Pipeline from another PATH location",
            ),
            HookError::ExecutableSource { path, source } => concat4(
                "could not use executable source ",
                path.shown().as_str(),
                ": ",
                source.as_str(),
            ),
            HookError::NotExecutable(path) => concat2(
                "file is not executable: ",
                path.shown().as_str(),
            ),
            HookError::InvalidInstallPath(path) => concat2(
                "invalid installation path: ",
                path.shown().as_str(),
            ),
            HookError::InstallTransaction(reason) => concat2(
                "hook installation transaction failed: ",
                reason.as_str(),
            ),
            HookError::OutsideRepository { path, root } => concat4(
                "path ",
                path.shown().as_str(),
                " is outside repository worktree ",
                root.shown().as_str(),
            ),
            HookError::InvalidRevision(revision) => concat2(
                "revision does not resolve to a commit: ",
                debug_text(revision.as_str()).as_str(),
            ),
            HookError::InvalidRefInput => String::from_str("invalid Git reference update input"),
            HookError::Io(text) => String::from_str(text.as_str()),
        }
    }
}

} // verus!
