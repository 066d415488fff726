//! What Git answers.

use crate::hooks::error::HookError;
use crate::native::{
    copy_bytes, from_utf8, lossy, lossy_text, path_names, rooted, spelled, HostPath,
};
use crate::text::{chars_of, concat2, join, joined, trim, trimmed, views};
use vstd::prelude::*;
use vstd::utf8::{decode_utf8, valid_utf8};

verus! {

/// What a finished Git command left. The code is missing if a signal ended it.
#[derive(Debug)]
pub struct GitOutput {
    pub code: Option<i32>,
    pub stdout: Vec<u8>,
    pub stderr: Vec<u8>,
}

/// The error that reports a Git command that failed.
pub open spec fn reports_failure(error: HookError, operation: Seq<char>, output: GitOutput) -> bool {
    error matches HookError::GitFailed { operation: name, status, stderr } && name@ == operation
        && status == output.code && stderr@ == trimmed(lossy(output.stderr@))
}

/// What the output of a Git command gives: its trimmed text.
pub open spec fn gives_text(
    operation: Seq<char>,
    output: GitOutput,
    result: Result<String, HookError>,
) -> bool {
    if output.code != Some(0i32) {
        result matches Err(error) && reports_failure(error, operation, output)
    } else if !valid_utf8(output.stdout@) {
        result matches Err(HookError::GitNonUtf8(name)) && name@ == operation
    } else {
        result matches Ok(text) && text@ == trimmed(decode_utf8(output.stdout@))
    }
}

/// What a Git command gives, if it could be started at all.
pub open spec fn answers_text(
    operation: Seq<char>,
    reply: Result<GitOutput, String>,
    result: Result<String, HookError>,
) -> bool {
    match reply {
        Err(text) => result matches Err(HookError::GitStart { source }) && source@ == text@,
        Ok(output) => gives_text(operation, output, result),
    }
}

/// The name of a Git command in messages.
pub open spec fn operation_name(arguments: Seq<Seq<char>>) -> Seq<char> {
    "git "@ + joined(arguments, " "@)
}

/// Reports a failed Git command.
pub fn git_failure(operation: &str, output: &GitOutput) -> (error: HookError)
    ensures
        reports_failure(error, operation@, *output),
{
    HookError::GitFailed {
        operation: String::from_str(operation),
        status: output.code,
        stderr: trim(lossy_text(output.stderr.as_slice()).as_str()),
    }
}

/// Whether a command ended with success.
pub fn succeeded(output: &GitOutput) -> (success: bool)
    ensures
        success == (output.code == Some(0i32)),
{
    match output.code {
        Some(code) => code == 0,
        None => false,
    }
}

/// The trimmed text that a successful Git command printed.
pub fn output_text(operation: &str, output: &GitOutput) -> (result: Result<String, HookError>)
    ensures
        gives_text(operation@, *output, result),
{
    if !succeeded(output) {
        return Err(git_failure(operation, output));
    }
    match from_utf8(copy_bytes(output.stdout.as_slice())) {
        Some(text) => Ok(trim(text.as_str())),
        None => Err(HookError::GitNonUtf8(String::from_str(operation))),
    }
}

/// The trimmed text that a Git command with these arguments gave.
pub fn git_text(arguments: &Vec<String>, reply: &Result<GitOutput, String>) -> (result: Result<
    String,
    HookError,
>)
    ensures
        answers_text(operation_name(views(arguments@)), *reply, result),
{
    match reply {
        Err(text) => Err(HookError::GitStart { source: String::from_str(text.as_str()) }),
        Ok(output) => {
            let operation = concat2("git ", join(arguments, " ").as_str());
            output_text(operation.as_str(), output)
        },
    }
}

/// Requires that a Git command succeeded.
pub fn ensure_git_success(operation: &str, reply: &Result<GitOutput, String>) -> (result: Result<
    (),
    HookError,
>)
    ensures
        match reply {
            Err(text) => result matches Err(HookError::GitStart { source }) && source@ == text@,
            Ok(output) => if output.code == Some(0i32) {
                result is Ok
            } else {
                result matches Err(error) && reports_failure(error, operation@, *output)
            },
        },
{
    match reply {
        Err(text) => Err(HookError::GitStart { source: String::from_str(text.as_str()) }),
        Ok(output) => if succeeded(output) {
            Ok(())
        } else {
            Err(git_failure(operation, output))
        },
    }
}

/// Refuses a repository whose hooks live elsewhere. The answer is that of
/// `git config --get core.hooksPath`: a code of one says that nothing is set.
pub fn reject_configured_hooks_path(reply: &Result<GitOutput, String>) -> (result: Result<
    (),
    HookError,
>)
    ensures
        hooks_path_outcome(*reply, result),
{
    match reply {
        Err(text) => Err(HookError::GitStart { source: String::from_str(text.as_str()) }),
        Ok(output) => match output.code {
            Some(0) => {
                let configured = trim(lossy_text(output.stdout.as_slice()).as_str());
                let chars = chars_of(configured.as_str());
                if chars.len() == 0 {
                    Err(HookError::ConfiguredHooksPath(String::from_str("<empty>")))
                } else {
                    Err(HookError::ConfiguredHooksPath(configured))
                }
            },
            Some(1) => Ok(()),
            _ => Err(git_failure("git config --get core.hooksPath", output)),
        },
    }
}

pub open spec fn hooks_path_outcome(
    reply: Result<GitOutput, String>,
    result: Result<(), HookError>,
) -> bool {
    match reply {
        Err(text) => result matches Err(HookError::GitStart { source }) && source@ == text@,
        Ok(output) => if output.code == Some(0i32) {
            result matches Err(HookError::ConfiguredHooksPath(path)) && path@ == (if trimmed(
                lossy(output.stdout@),
            ).len() == 0 {
                "<empty>"@
            } else {
                trimmed(lossy(output.stdout@))
            })
        } else if output.code == Some(1i32) {
            result is Ok
        } else {
            result matches Err(error) && reports_failure(
                error,
                "git config --get core.hooksPath"@,
                output,
            )
        },
    }
}

/// Carries a path that the system resolved, or says why it could not.
pub fn canonicalize_existing(path: &HostPath, resolved: Result<HostPath, String>) -> (result: Result<
    HostPath,
    HookError,
>)
    ensures
        resolves(path@, resolved, result),
{
    match resolved {
        Ok(target) => Ok(target),
        Err(source) => Err(HookError::Canonicalize { path: path.clone(), source }),
    }
}

pub open spec fn resolves(
    path: Seq<u8>,
    resolved: Result<HostPath, String>,
    result: Result<HostPath, HookError>,
) -> bool {
    match resolved {
        Ok(target) => result matches Ok(found) && found@ == target@,
        Err(text) => result matches Err(HookError::Canonicalize { path: on, source }) && on@ == path
            && source@ == text@,
    }
}

/// The directory that a repository is looked up from. `path` is absolute.
pub fn discovery_directory(path: &HostPath, is_directory: bool, exists: bool) -> (result: Result<
    HostPath,
    HookError,
>)
    ensures
        is_directory ==> (result matches Ok(directory) && directory@ == path@),
        !is_directory && exists && path_names(path@).len() > 0 ==> (result matches Ok(directory)
            && directory@ == spelled(rooted(path@), path_names(path@).drop_last())),
        !is_directory && !(exists && path_names(path@).len() > 0) ==> (result matches Err(
            HookError::NotRepository(at),
        ) && at@ == path@),
{
    if is_directory {
        Ok(path.clone())
    } else if exists {
        match path.parent() {
            Some(parent) => Ok(parent),
            None => Err(HookError::NotRepository(path.clone())),
        }
    } else {
        Err(HookError::NotRepository(path.clone()))
    }
}

} // verus!
