//! What a call of Pipeline comes to: small decisions, and the course of a hook.

pub mod candidates;
pub mod execute;
pub mod input;
pub mod manage;
pub mod receive;
pub mod single;

use crate::definition::check::hook_problem;
use crate::definition::error::DefinitionError;
use crate::definition::project::{
    copy_variables, file_options, variable_views, DefinitionKind, Project, ProjectModel,
};
use crate::definition::targets::{declared_hooks, hook_selection};
use crate::dispatch::single::{failure_view, RunFailure};
use crate::error::{says, PipelineError};
use crate::hooks::error::HookError;
use crate::hooks::repository::Repository;
use crate::hooks::request::{InstallMode, InstallModes};
use crate::just_runtime::command::{is_success, successful, CommandOutput};
use crate::native::{lossy, lossy_text, native_views, path_view, path_views, HostPath, NativeText};
use crate::policy::Policy;
use crate::text::{
    concat2, concat3, concat4, contains, contains_text, decimal, decimal_text, trim, trimmed, views,
};
use vstd::prelude::*;
use vstd::utf8::encode_utf8;

verus! {

/// The exit code of a process: its own, or 128 and the signal that ended it.
pub fn exit_code(code: Option<i32>, signal: Option<i32>) -> (result: i32)
    requires
        code is None ==> (signal matches Some(number) ==> number <= i32::MAX - 128),
    ensures
        result == (match code {
            Some(own) => own as int,
            None => 128 + (match signal {
                Some(number) => number as int,
                None => 1int,
            }),
        }),
{
    match code {
        Some(own) => own,
        None => match signal {
            Some(number) => 128 + number,
            None => 129,
        },
    }
}

/// What a hook without a trigger comes to.
pub open spec fn untriggered(
    allowed: bool,
    hook: Seq<char>,
    result: Result<i32, PipelineError>,
) -> bool {
    if allowed {
        result == Ok::<i32, PipelineError>(0i32)
    } else {
        result matches Err(error) && says(
            error,
            "no Pipeline trigger is declared for Git hook `"@ + hook + "`"@,
        )
    }
}

/// A hook without a trigger succeeds, unless the policy denies that.
pub fn missing_trigger(policy: &Policy, hook: &str) -> (result: Result<i32, PipelineError>)
    ensures
        untriggered(policy.hooks.missing_trigger is Allow, hook@, result),
{
    if policy.missing_trigger_is_success() {
        Ok(0)
    } else {
        Err(untriggered_error(hook))
    }
}

/// The error for a hook without a trigger where one is asked for.
pub fn untriggered_error(hook: &str) -> (error: PipelineError)
    ensures
        says(error, "no Pipeline trigger is declared for Git hook `"@ + hook@ + "`"@),
{
    PipelineError::Message(
        concat3("no Pipeline trigger is declared for Git hook `", hook, "`"),
    )
}

/// The first argument is this text.
pub open spec fn first_is(arguments: Seq<Seq<u8>>, text: Seq<char>) -> bool {
    arguments.len() > 0 && arguments[0] == encode_utf8(text)
}

/// The answer of a file-system monitor that knows nothing: everything may have
/// changed. Where the protocol leaves no room for that, a code of one makes Git
/// look for itself.
pub open spec fn monitor_answer(arguments: Seq<Seq<u8>>) -> (Seq<u8>, int) {
    if first_is(arguments, "1"@) {
        (seq![47u8, 0], 0)
    } else if first_is(arguments, "2"@) && arguments.len() > 1 {
        (arguments[1] + seq![0u8, 47, 0], 0)
    } else {
        (seq![], 1)
    }
}

/// What is written for a file-system monitor that knows nothing, and its code.
pub fn fsmonitor_fallback_io(arguments: &Vec<NativeText>) -> (result: (Vec<u8>, i32))
    ensures
        (result.0@, result.1 as int) == monitor_answer(native_views(arguments@)),
{
    let ghost views = native_views(arguments@);
    let mut output: Vec<u8> = Vec::new();
    proof {
        assert(output@ =~= seq![]);
        lemma_digits_differ();
    }
    if arguments.len() == 0 {
        return (output, 1);
    }
    proof {
        assert(views[0] == arguments@[0]@);
    }
    if arguments[0].is_text("1") {
        output.push(47);
        output.push(0);
        proof {
            assert(output@ =~= seq![47u8, 0]);
        }
        return (output, 0);
    }
    if arguments[0].is_text("2") && arguments.len() > 1 {
        let mut answer = arguments[1].clone().bytes;
        answer.push(0);
        answer.push(47);
        answer.push(0);
        proof {
            assert(views[1] == arguments@[1]@);
            assert(answer@ =~= views[1] + seq![0u8, 47, 0]);
        }
        return (answer, 0);
    }
    (output, 1)
}

proof fn lemma_digits_differ()
    ensures
        encode_utf8("1"@) != encode_utf8("2"@),
{
    reveal_strlit("1");
    reveal_strlit("2");
    vstd::utf8::is_ascii_chars_encode_utf8("1"@);
    vstd::utf8::is_ascii_chars_encode_utf8("2"@);
    assert("1"@[0] as u8 == encode_utf8("1"@)[0]);
    assert("2"@[0] as u8 == encode_utf8("2"@)[0]);
}

/// An answer with code zero names the whole tree as changed: it is never empty.
pub proof fn a_monitor_without_knowledge_reports_everything(arguments: Seq<Seq<u8>>)
    ensures
        monitor_answer(arguments).1 == 0 ==> monitor_answer(arguments).0.len() >= 2 && {
            let answer = monitor_answer(arguments).0;
            answer[answer.len() - 2] == 47 && answer.last() == 0
        },
        monitor_answer(arguments).1 != 0 ==> monitor_answer(arguments).0.len() == 0,
{
}

/// The variables that point Git at a tree.
pub open spec fn git_variables(
    repository: Repository,
    work_tree: Seq<u8>,
    index: Option<Seq<u8>>,
) -> Seq<(Seq<u8>, Seq<u8>)> {
    seq![
        (encode_utf8("GIT_DIR"@), repository.git_dir@),
        (encode_utf8("GIT_COMMON_DIR"@), repository.common_dir@),
        (encode_utf8("GIT_WORK_TREE"@), work_tree),
    ] + (match index {
        Some(path) => seq![
            (encode_utf8("GIT_INDEX_FILE"@), path),
            (encode_utf8("GIT_LFS_SKIP_SMUDGE"@), encode_utf8("1"@)),
        ],
        None => seq![],
    })
}

fn push_variable(
    environment: &mut Vec<(NativeText, NativeText)>,
    name: &str,
    value: NativeText,
)
    ensures
        variable_views(final(environment)@) == variable_views(old(environment)@).push(
            (encode_utf8(name@), value@),
        ),
{
    let ghost before = environment@;
    let item = (NativeText::from_text(name), value);
    environment.push(item);
    proof {
        assert(variable_views(environment@) =~= variable_views(before).push((item.0@, item.1@)));
    }
}

fn path_value(path: &HostPath) -> (value: NativeText)
    ensures
        value@ == path@,
{
    NativeText { bytes: path.clone().bytes }
}

/// Appends the variables that point Git at a tree.
pub fn add_git_environment(
    environment: &mut Vec<(NativeText, NativeText)>,
    repository: &Repository,
    work_tree: &HostPath,
    index: Option<&HostPath>,
)
    ensures
        variable_views(final(environment)@) == variable_views(old(environment)@) + git_variables(
            *repository,
            work_tree@,
            path_view(index),
        ),
{
    let ghost start = variable_views(environment@);
    push_variable(environment, "GIT_DIR", path_value(&repository.git_dir));
    push_variable(environment, "GIT_COMMON_DIR", path_value(&repository.common_dir));
    push_variable(environment, "GIT_WORK_TREE", path_value(work_tree));
    if let Some(path) = index {
        push_variable(environment, "GIT_INDEX_FILE", path_value(path));
        push_variable(environment, "GIT_LFS_SKIP_SMUDGE", NativeText::from_text("1"));
    }
    proof {
        assert(variable_views(environment@) =~= start + git_variables(
            *repository,
            work_tree@,
            path_view(index),
        ));
    }
}

/// The variables that tell a recipe which references are pushed.
pub open spec fn ref_variables(refs: Seq<Seq<char>>) -> Seq<(Seq<u8>, Seq<u8>)> {
    seq![(encode_utf8("PIPELINE_REF_COUNT"@), encode_utf8(decimal(refs.len())))] + Seq::new(
        refs.len(),
        |i: int| (encode_utf8("PIPELINE_REF_"@ + decimal(i as nat)), encode_utf8(refs[i])),
    )
}

/// Appends the variables that tell a recipe which references are pushed.
pub fn add_ref_environment(environment: &mut Vec<(NativeText, NativeText)>, refs: &Vec<String>)
    ensures
        variable_views(final(environment)@) == variable_views(old(environment)@) + ref_variables(
            views(refs@),
        ),
{
    let ghost start = variable_views(environment@);
    let ghost wanted = ref_variables(views(refs@));
    push_variable(
        environment,
        "PIPELINE_REF_COUNT",
        NativeText::from_text(decimal_text(refs.len() as u64).as_str()),
    );
    proof {
        assert(variable_views(environment@) =~= start + wanted.take(1));
    }
    let mut i: usize = 0;
    while i < refs.len()
        invariant
            i <= refs.len(),
            wanted == ref_variables(views(refs@)),
            variable_views(environment@) == start + wanted.take(i as int + 1),
        decreases refs.len() - i,
    {
        let name = concat2("PIPELINE_REF_", decimal_text(i as u64).as_str());
        push_variable(environment, name.as_str(), NativeText::from_text(refs[i].as_str()));
        proof {
            assert(views(refs@)[i as int] == refs@[i as int]@);
            assert(wanted.take(i as int + 2) =~= wanted.take(i as int + 1).push(
                wanted[i as int + 1],
            ));
            assert(variable_views(environment@) =~= start + wanted.take(i as int + 2));
        }
        i += 1;
    }
    proof {
        assert(wanted.take(i as int + 1) =~= wanted);
    }
}

/// Appends the variable that tells a recipe which commit it runs over.
pub fn add_commit_environment(environment: &mut Vec<(NativeText, NativeText)>, commit: &str)
    ensures
        variable_views(final(environment)@) == variable_views(old(environment)@).push(
            (encode_utf8("PIPELINE_COMMIT"@), encode_utf8(commit@)),
        ),
{
    push_variable(environment, "PIPELINE_COMMIT", NativeText::from_text(commit));
}

/// The environment of a recipe that runs over an incoming commit: that of the
/// hook, then what is pushed, then the tree of the commit.
pub fn incoming_environment(
    base: &Vec<(NativeText, NativeText)>,
    refs: &Vec<String>,
    commit: &str,
    repository: &Repository,
    work_tree: &HostPath,
    index: &HostPath,
) -> (environment: Vec<(NativeText, NativeText)>)
    ensures
        variable_views(environment@) == variable_views(base@) + ref_variables(views(refs@)) + seq![
            (encode_utf8("PIPELINE_COMMIT"@), encode_utf8(commit@)),
        ] + git_variables(*repository, work_tree@, Some(index@)),
{
    let mut environment = copy_variables(base);
    add_ref_environment(&mut environment, refs);
    let ghost before = variable_views(environment@);
    add_commit_environment(&mut environment, commit);
    proof {
        let item = (encode_utf8("PIPELINE_COMMIT"@), encode_utf8(commit@));
        assert(before.push(item) =~= before + seq![item]);
    }
    add_git_environment(&mut environment, repository, work_tree, Some(index));
    environment
}

/// How Just is asked whether a Pipelinefile has a `hook` recipe.
pub fn hook_query(project: &Project, working_directory: &HostPath) -> (arguments: Vec<NativeText>)
    ensures
        native_views(arguments@) == file_options(project@.path, working_directory@) + seq![
            encode_utf8("--show"@),
            encode_utf8("hook"@),
        ],
{
    let mut list: Vec<NativeText> = Vec::new();
    list.push(NativeText::from_text("--justfile"));
    list.push(path_value(project.path()));
    list.push(NativeText::from_text("--working-directory"));
    list.push(path_value(working_directory));
    list.push(NativeText::from_text("--show"));
    list.push(NativeText::from_text("hook"));
    proof {
        assert(native_views(list@) =~= file_options(project@.path, working_directory@) + seq![
            encode_utf8("--show"@),
            encode_utf8("hook"@),
        ]);
    }
    list
}

/// Just says that there is no `hook` recipe.
pub open spec fn denies_hook(text: Seq<char>) -> bool {
    contains_text(text, "does not contain recipe `hook`"@) || contains_text(
        text,
        "unknown recipe `hook`"@,
    ) || contains_text(text, "Unknown recipe `hook`"@)
}

/// Whether a Pipelinefile has a `hook` recipe, from what Just answered.
pub fn pipelinefile_has_hook(path: &HostPath, output: &CommandOutput) -> (result: Result<
    bool,
    PipelineError,
>)
    ensures
        if successful(*output) {
            result == Ok::<bool, PipelineError>(true)
        } else if denies_hook(lossy(output.stderr@)) {
            result == Ok::<bool, PipelineError>(false)
        } else {
            result matches Err(error) && says(
                error,
                "could not inspect "@ + lossy(path@) + ": "@ + trimmed(lossy(output.stderr@)),
            )
        },
{
    if is_success(output) {
        return Ok(true);
    }
    let errors = lossy_text(output.stderr.as_slice());
    if contains(errors.as_str(), "does not contain recipe `hook`") || contains(
        errors.as_str(),
        "unknown recipe `hook`",
    ) || contains(errors.as_str(), "Unknown recipe `hook`") {
        return Ok(false);
    }
    Err(
        PipelineError::Message(
            concat4(
                "could not inspect ",
                path.shown().as_str(),
                ": ",
                trim(errors.as_str()).as_str(),
            ),
        ),
    )
}

/// Which control files of a project matter.
#[derive(Clone, Copy, Debug, PartialEq, Eq, Structural)]
pub enum ControlScope {
    /// The definition alone.
    Definition,
    /// The definition and the Justfile of nested invocations.
    Everything,
}

/// Which control files matter for a hook: without a trigger, the definition
/// alone.
pub open spec fn hook_scope(
    project: ProjectModel,
    hook: Seq<char>,
    result: Result<ControlScope, PipelineError>,
) -> bool {
    match project.config {
        None => result == Ok::<ControlScope, PipelineError>(ControlScope::Everything),
        Some(config) => match hook_problem(hook) {
            Some(problem) => result matches Err(
                PipelineError::Definition(DefinitionError::Invalid(reason)),
            ) && reason@ == problem,
            None => result == Ok::<ControlScope, PipelineError>(
                if hook_selection(config, hook).len() == 0 {
                    ControlScope::Definition
                } else {
                    ControlScope::Everything
                },
            ),
        },
    }
}

/// Which control files matter for a hook.
pub fn hook_control_scope(project: &Project, hook: &str) -> (result: Result<
    ControlScope,
    PipelineError,
>)
    ensures
        hook_scope(project@, hook@, result),
{
    match project.kind() {
        DefinitionKind::Pipelinefile => Ok(ControlScope::Everything),
        DefinitionKind::Yaml => match project.selection_for_hook(hook) {
            Err(error) => Err(PipelineError::Definition(error)),
            Ok(selection) => if selection.is_empty() {
                Ok(ControlScope::Definition)
            } else {
                Ok(ControlScope::Everything)
            },
        },
    }
}

/// Which control files matter when the declared hooks of a project are asked
/// for: if a YAML definition declares none, the definition alone.
pub fn declared_control_scope(project: &Project) -> (scope: ControlScope)
    ensures
        scope == (match project@.config {
            None => ControlScope::Everything,
            Some(config) => if declared_hooks(config).len() == 0 {
                ControlScope::Definition
            } else {
                ControlScope::Everything
            },
        }),
{
    match project.kind() {
        DefinitionKind::Pipelinefile => ControlScope::Everything,
        DefinitionKind::Yaml => {
            let hooks = project.managed_hooks();
            proof {
                assert(views(hooks@).len() == hooks@.len());
            }
            if hooks.len() == 0 {
                ControlScope::Definition
            } else {
                ControlScope::Everything
            }
        },
    }
}

/// A definition that is not there is no error where one is optional.
pub open spec fn optional_project(
    found: Result<Project, DefinitionError>,
    result: Result<Option<Project>, PipelineError>,
) -> bool {
    match found {
        Ok(project) => result == Ok::<Option<Project>, PipelineError>(Some(project)),
        Err(error) => if error is NotFound {
            result == Ok::<Option<Project>, PipelineError>(None)
        } else {
            result == Err::<Option<Project>, PipelineError>(PipelineError::Definition(error))
        },
    }
}

/// What a search for an optional definition comes to.
pub fn discover_optional(found: Result<Project, DefinitionError>) -> (result: Result<
    Option<Project>,
    PipelineError,
>)
    ensures
        optional_project(found, result),
{
    match found {
        Ok(project) => Ok(Some(project)),
        Err(DefinitionError::NotFound { .. }) => Ok(None),
        Err(error) => Err(PipelineError::Definition(error)),
    }
}

/// What is known of whether a control file is tracked.
pub open spec fn path_tracked(reply: Result<bool, HookError>) -> bool {
    reply == Ok::<bool, HookError>(true)
}

pub open spec fn all_tracked(replies: Seq<Result<bool, HookError>>, n: int) -> bool {
    forall|i: int| 0 <= i < n ==> path_tracked(#[trigger] replies[i])
}

/// The verdict on a list of control files: the first that is not tracked is
/// reported.
pub open spec fn checks_tracked(
    paths: Seq<Seq<u8>>,
    replies: Seq<Result<bool, HookError>>,
    result: Result<(), PipelineError>,
) -> bool {
    if all_tracked(replies, replies.len() as int) {
        result is Ok
    } else {
        &&& result matches Err(error)
        &&& exists|i: int|
            0 <= i < replies.len() && !path_tracked(#[trigger] replies[i]) && all_tracked(
                replies,
                i,
            ) && match replies[i] {
                Err(inner) => error == PipelineError::Hook(inner),
                Ok(_) => says(
                    error,
                    "hook control file is not tracked by Git: "@ + lossy(paths[i]),
                ),
            }
    }
}

/// The first control file that is not tracked.
pub open spec fn first_untracked(replies: Seq<Result<bool, HookError>>) -> int {
    choose|i: int|
        0 <= i < replies.len() && !path_tracked(#[trigger] replies[i]) && all_tracked(replies, i)
}

/// What is reported where a control file is not tracked.
pub open spec fn untracked_failure(
    paths: Seq<Seq<u8>>,
    replies: Seq<Result<bool, HookError>>,
) -> RunFailure {
    let i = first_untracked(replies);
    match replies[i] {
        Err(inner) => RunFailure::Given(PipelineError::Hook(inner)),
        Ok(_) => RunFailure::Text("hook control file is not tracked by Git: "@ + lossy(paths[i])),
    }
}

/// A list of control files has one verdict.
pub proof fn the_first_untracked_file_is_reported(
    paths: Seq<Seq<u8>>,
    replies: Seq<Result<bool, HookError>>,
    error: PipelineError,
)
    requires
        checks_tracked(paths, replies, Err(error)),
    ensures
        !all_tracked(replies, replies.len() as int),
        failure_view(error) == untracked_failure(paths, replies),
{
    let i = choose|i: int|
        0 <= i < replies.len() && !path_tracked(#[trigger] replies[i]) && all_tracked(replies, i)
            && match replies[i] {
            Err(inner) => error == PipelineError::Hook(inner),
            Ok(_) => says(error, "hook control file is not tracked by Git: "@ + lossy(paths[i])),
        };
    let k = first_untracked(replies);
    assert(0 <= k < replies.len() && !path_tracked(replies[k]) && all_tracked(replies, k));
    if i < k {
        assert(path_tracked(replies[i]));
    } else if k < i {
        assert(path_tracked(replies[k]));
    }
}

/// Checks that every control file is tracked. `replies` says so for each.
pub fn verify_tracked_paths(paths: &Vec<HostPath>, replies: Vec<Result<bool, HookError>>) -> (result:
    Result<(), PipelineError>)
    requires
        replies@.len() == paths@.len(),
    ensures
        checks_tracked(path_views(paths@), replies@, result),
{
    let ghost all = replies@;
    let mut left = replies;
    proof {
        assert(all.skip(0) =~= all);
    }
    let mut i: usize = 0;
    while i < paths.len()
        invariant
            i <= paths.len(),
            all.len() == paths@.len(),
            all == replies@,
            left@ =~= all.skip(i as int),
            all_tracked(all, i as int),
        decreases paths.len() - i,
    {
        let reply = left.remove(0);
        proof {
            assert(reply == all[i as int]);
            assert(left@ =~= all.skip(i as int + 1));
        }
        match reply {
            Ok(known) => {
                if !known {
                    proof {
                        assert(!path_tracked(all[i as int]));
                        assert(path_views(paths@)[i as int] == paths@[i as int]@);
                    }
                    return Err(
                        PipelineError::Message(
                            concat2(
                                "hook control file is not tracked by Git: ",
                                paths[i].shown().as_str(),
                            ),
                        ),
                    );
                }
            },
            Err(error) => {
                proof {
                    assert(!path_tracked(all[i as int]));
                }
                return Err(PipelineError::Hook(error));
            },
        }
        i += 1;
    }
    Ok(())
}

/// Whether an image may be used for an installation: an explicit link must
/// lead to the user's own executable, so nothing is fetched for one.
pub fn install_fallback(policy: &Policy, modes: InstallModes) -> (allowed: bool)
    ensures
        allowed == (policy.runtime.container_fallback && !(modes.just is Link)),
{
    match modes.just {
        InstallMode::Link => false,
        _ => policy.runtime.container_fallback,
    }
}

pub open spec fn count_text(verb: Seq<char>, count: nat) -> Seq<char> {
    verb + " "@ + decimal(count) + " Pipeline-managed Git hook"@ + (if count == 1 {
        "."@
    } else {
        "s."@
    })
}

fn count_message(verb: &str, count: usize) -> (text: String)
    ensures
        text@ == count_text(verb@, count as nat),
{
    let mut text = concat4(
        verb,
        " ",
        decimal_text(count as u64).as_str(),
        " Pipeline-managed Git hook",
    );
    if count == 1 {
        text.push_str(".");
    } else {
        text.push_str("s.");
    }
    text
}

/// What is told about an installation.
pub fn added_message(count: usize) -> (text: String)
    ensures
        text@ == count_text("Added"@, count as nat),
{
    count_message("Added", count)
}

/// What is told about a removal.
pub fn removed_message(count: usize) -> (text: String)
    ensures
        text@ == count_text("Removed"@, count as nat),
{
    count_message("Removed", count)
}

/// The first code that is not zero.
pub open spec fn first_failure(codes: Seq<i32>) -> int
    decreases codes.len(),
{
    if codes.len() == 0 {
        0
    } else if codes[0] != 0 {
        codes[0] as int
    } else {
        first_failure(codes.drop_first())
    }
}

/// The code of several runs: that of the first one that failed.
pub fn combined_code(codes: &Vec<i32>) -> (code: i32)
    ensures
        code == first_failure(codes@),
{
    let ghost all = codes@;
    proof {
        assert(all.skip(0) =~= all);
    }
    let mut i: usize = 0;
    while i < codes.len()
        invariant
            i <= codes.len(),
            all == codes@,
            first_failure(all) == first_failure(all.skip(i as int)),
        decreases codes.len() - i,
    {
        proof {
            assert(all.skip(i as int)[0] == codes@[i as int]);
            assert(all.skip(i as int).drop_first() =~= all.skip(i as int + 1));
        }
        if codes[i] != 0 {
            return codes[i];
        }
        i += 1;
    }
    0
}

/// Several runs succeed together only if each of them does.
pub proof fn one_failure_fails_all(codes: Seq<i32>, i: int)
    requires
        0 <= i < codes.len(),
        codes[i] != 0,
    ensures
        first_failure(codes) != 0,
    decreases codes.len(),
{
    if codes[0] == 0 {
        assert(codes.drop_first()[i - 1] == codes[i]);
        one_failure_fails_all(codes.drop_first(), i - 1);
    }
}

/// Whether prepared runs are started together.
pub fn runs_together(parallel: bool, count: usize) -> (yes: bool)
    ensures
        yes == (parallel && count >= 2),
{
    parallel && count >= 2
}

} // verus!
