//! What the user is told when something goes wrong.

use crate::definition::error::DefinitionError;
use crate::error::PipelineError;
use crate::hooks::error::HookError;
use crate::just_runtime::config::RuntimeError;
use crate::native::HostPath;
use crate::policy::PolicyError;
use crate::promises::spelling::surrounds;
use vstd::prelude::*;
use vstd::utf8::encode_utf8;

verus! {

/// A message has these texts in it, one after the other.
pub open spec fn names(message: Seq<char>, texts: Seq<Seq<char>>) -> bool
    decreases texts.len(),
{
    if texts.len() == 0 {
        true
    } else {
        exists|before: Seq<char>, after: Seq<char>| #[trigger]
            surrounds(message, texts[0], before, after) && names(after, texts.drop_first())
    }
}

proof fn lemma_names_one(message: Seq<char>, before: Seq<char>, text: Seq<char>, after: Seq<char>)
    requires
        message == before + text + after,
    ensures
        names(message, seq![text]),
{
    let all = seq![text];
    assert(surrounds(message, all[0], before, after));
    assert(names(after, all.drop_first()));
}

proof fn lemma_names_two(
    message: Seq<char>,
    before: Seq<char>,
    first: Seq<char>,
    between: Seq<char>,
    second: Seq<char>,
    after: Seq<char>,
)
    requires
        message == before + first + between + second + after,
    ensures
        names(message, seq![first, second]),
{
    let all = seq![first, second];
    let rest = between + second + after;
    assert(message =~= before + first + rest);
    assert(surrounds(message, all[0], before, rest));
    lemma_names_one(rest, between, second, after);
    assert(all.drop_first() =~= seq![second]);
}

/// A path whose bytes spell a text.
pub open spec fn is_path(path: HostPath, text: Seq<char>) -> bool {
    path@ == encode_utf8(text)
}

/// An error of Git or of a hook names the path it is about, and the reason that
/// the system gave.
pub proof fn hook_errors_name_what_they_are_about(
    error: &HookError,
    message: String,
    path: Seq<char>,
    other: Seq<char>,
)
    requires
        call_ensures(HookError::message, (error,), message),
    ensures
        *error matches HookError::GitStart { source } ==> names(message@, seq!["git"@, source@]),
        *error matches HookError::GitFailed { operation, status, stderr } ==> names(
            message@,
            seq![operation@, stderr@],
        ),
        *error matches HookError::GitNonUtf8(operation) ==> names(
            message@,
            seq![operation@, "UTF-8"@],
        ),
        *error matches HookError::NotRepository(at) ==> (is_path(at, path) ==> message@
            == "not a Git repository: "@ + path),
        *error matches HookError::WorkTreeNotFound(at) ==> (is_path(at, path) ==> names(
            message@,
            seq!["worktree"@, path],
        )),
        *error matches HookError::Canonicalize { path: at, source } ==> (is_path(at, path)
            ==> message@ == "could not canonicalize "@ + path + ": "@ + source@),
        *error matches HookError::UnmanagedHook(at) ==> (is_path(at, path) ==> message@
            == "refusing to replace or remove unmanaged hook "@ + path),
        *error matches HookError::LinkSourceNotInPath { command, path: at } ==> (is_path(at, path)
            ==> names(message@, seq![command@, path])),
        *error matches HookError::LinkTargetIsSource(at) ==> (is_path(at, path) ==> names(
            message@,
            seq![path, "symlink to itself"@],
        )),
        *error matches HookError::ExecutableSource { path: at, source } ==> (is_path(at, path)
            ==> names(message@, seq![path, source@])),
        *error matches HookError::NotExecutable(at) ==> (is_path(at, path) ==> names(
            message@,
            seq!["not executable"@, path],
        )),
        *error matches HookError::InvalidInstallPath(at) ==> (is_path(at, path) ==> names(
            message@,
            seq!["installation path"@, path],
        )),
        *error matches HookError::InstallTransaction(reason) ==> message@
            == "hook installation transaction failed: "@ + reason@,
        *error matches HookError::OutsideRepository { path: at, root } ==> (is_path(at, path)
            && is_path(root, other) ==> names(message@, seq![path, other])),
        *error matches HookError::Io(text) ==> message@ == text@,
{
    crate::native::native_text_round_trip(path);
    crate::native::native_text_round_trip(other);
    let none: Seq<char> = seq![];
    match *error {
        HookError::GitStart { source } => {
            reveal_strlit("could not run git: ");
            reveal_strlit("git");
            let head = "could not run git: "@;
            assert(message@ =~= head.take(14) + "git"@ + head.skip(17) + source@ + none);
            lemma_names_two(message@, head.take(14), "git"@, head.skip(17), source@, none);
        },
        HookError::GitFailed { operation, status, stderr } => {
            let middle = " failed (status "@ + crate::hooks::error::shown_code(status) + "): "@;
            assert(message@ =~= none + operation@ + middle + stderr@ + none);
            lemma_names_two(message@, none, operation@, middle, stderr@, none);
        },
        HookError::GitNonUtf8(operation) => {
            reveal_strlit(" returned non-UTF-8 output");
            reveal_strlit("UTF-8");
            let tail = " returned non-UTF-8 output"@;
            assert(message@ =~= none + operation@ + tail.take(14) + "UTF-8"@ + tail.skip(19));
            lemma_names_two(
                message@,
                none,
                operation@,
                tail.take(14),
                "UTF-8"@,
                tail.skip(19),
            );
        },
        HookError::WorkTreeNotFound(at) => {
            if is_path(at, path) {
                reveal_strlit("could not locate the worktree belonging to Git directory ");
                reveal_strlit("worktree");
                let head = "could not locate the worktree belonging to Git directory "@;
                assert(message@ =~= head.take(21) + "worktree"@ + head.skip(29) + path + none);
                lemma_names_two(
                    message@,
                    head.take(21),
                    "worktree"@,
                    head.skip(29),
                    path,
                    none,
                );
            }
        },
        HookError::LinkSourceNotInPath { command, path: at } => {
            if is_path(at, path) {
                lemma_names_two(
                    message@,
                    "cannot link "@,
                    command@,
                    " from "@,
                    path,
                    ": the same executable is not available from PATH"@,
                );
            }
        },
        HookError::LinkTargetIsSource(at) => {
            if is_path(at, path) {
                reveal_strlit(" with a symlink to itself; run Pipeline from another PATH location");
                reveal_strlit("symlink to itself");
                let tail = " with a symlink to itself; run Pipeline from another PATH location"@;
                assert(message@ =~= "cannot replace "@ + path + tail.take(8)
                    + "symlink to itself"@ + tail.skip(25));
                lemma_names_two(
                    message@,
                    "cannot replace "@,
                    path,
                    tail.take(8),
                    "symlink to itself"@,
                    tail.skip(25),
                );
            }
        },
        HookError::ExecutableSource { path: at, source } => {
            if is_path(at, path) {
                let head = "could not use executable source "@;
                assert(message@ =~= head + path + ": "@ + source@ + none);
                lemma_names_two(message@, head, path, ": "@, source@, none);
            }
        },
        HookError::NotExecutable(at) => {
            if is_path(at, path) {
                reveal_strlit("file is not executable: ");
                reveal_strlit("not executable");
                let head = "file is not executable: "@;
                assert(message@ =~= head.take(8) + "not executable"@ + head.skip(22) + path
                    + none);
                lemma_names_two(
                    message@,
                    head.take(8),
                    "not executable"@,
                    head.skip(22),
                    path,
                    none,
                );
            }
        },
        HookError::InvalidInstallPath(at) => {
            if is_path(at, path) {
                reveal_strlit("invalid installation path: ");
                reveal_strlit("installation path");
                let head = "invalid installation path: "@;
                assert(message@ =~= head.take(8) + "installation path"@ + head.skip(25) + path
                    + none);
                lemma_names_two(
                    message@,
                    head.take(8),
                    "installation path"@,
                    head.skip(25),
                    path,
                    none,
                );
            }
        },
        HookError::OutsideRepository { path: at, root } => {
            if is_path(at, path) && is_path(root, other) {
                let middle = " is outside repository worktree "@;
                assert(message@ =~= "path "@ + path + middle + other + none);
                lemma_names_two(message@, "path "@, path, middle, other, none);
            }
        },
        _ => {},
    }
}

/// An error of a definition names the place it was looked for, the file it is
/// about, or the reason.
pub proof fn definition_errors_name_what_they_are_about(
    error: &DefinitionError,
    message: String,
    path: Seq<char>,
)
    requires
        call_ensures(DefinitionError::message, (error,), message),
    ensures
        *error matches DefinitionError::NotFound { start } ==> (is_path(start, path) ==> message@
            == "no Pipelinefile, pipeline.yml, or .pipeline.yml found from "@ + path),
        *error matches DefinitionError::JustfileNotFound { start } ==> (is_path(start, path)
            ==> message@ == "no justfile, Justfile, or .justfile found from "@ + path),
        *error matches DefinitionError::NotAFile(at) ==> (is_path(at, path) ==> message@
            == "definition path is not a regular file: "@ + path),
        *error matches DefinitionError::UnsupportedFilename(name) ==> message@
            == "unsupported definition filename `"@ + name@ + "`"@,
        *error matches DefinitionError::Io { path: at, source } ==> (is_path(at, path) ==> message@
            == path + ": "@ + source@),
        *error matches DefinitionError::Yaml { path: at, source } ==> (is_path(at, path)
            ==> message@ == "invalid YAML in "@ + path + ": "@ + source@),
        *error matches DefinitionError::Invalid(reason) ==> message@
            == "invalid pipeline definition: "@ + reason@,
        *error matches DefinitionError::Execute { program, source } ==> (is_path(program, path)
            ==> message@ == "cannot execute `"@ + path + "`: "@ + source@),
{
    crate::native::native_text_round_trip(path);
}

/// An error of a policy names the file and the reason.
pub proof fn policy_errors_name_what_they_are_about(
    error: &PolicyError,
    message: String,
    path: Seq<char>,
)
    requires
        call_ensures(PolicyError::message, (error,), message),
    ensures
        *error matches PolicyError::Read { path: at, source } ==> (is_path(at, path) ==> message@
            == "could not read policy "@ + path + ": "@ + source@),
        *error matches PolicyError::Parse { path: at, message: reason } ==> (is_path(at, path)
            ==> message@ == "invalid policy "@ + path + ": "@ + reason@),
        *error matches PolicyError::UnsupportedVersion { path: at, version } ==> (is_path(at, path)
            ==> message@ == "unsupported policy version "@ + crate::text::decimal(version as nat)
            + " in "@ + path + "; expected version 1"@),
        *error is TrustedRefRequired ==> message@
            == "hooks.incoming is `trusted`, but hooks.trusted-ref is not configured"@,
        *error is InvalidTrustedRef ==> message@ == "hooks.trusted-ref must not be empty"@,
{
    crate::native::native_text_round_trip(path);
}

/// Every error is told in the words of the part that it comes from.
pub proof fn errors_keep_their_words(
    error: &PipelineError,
    inner: String,
    message: String,
)
    requires
        call_ensures(PipelineError::message, (error,), message),
        match *error {
            PipelineError::Definition(e) => call_ensures(DefinitionError::message, (&e,), inner),
            PipelineError::Runtime(e) => call_ensures(RuntimeError::message, (&e,), inner),
            PipelineError::Hook(e) => call_ensures(HookError::message, (&e,), inner),
            PipelineError::Policy(e) => call_ensures(PolicyError::message, (&e,), inner),
            PipelineError::Io(text) => inner@ == text@,
            PipelineError::Message(text) => inner@ == text@,
        },
    ensures
        message@ == inner@,
{
}

} // verus!
