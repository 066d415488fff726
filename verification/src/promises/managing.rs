//! How hooks are added, and what Git and the user are told.

use crate::definition::error::DefinitionError;
use crate::definition::project::{Project, RunOptions, StdinSource};
use crate::dispatch::candidates::candidate_options;
use crate::dispatch::manage::{
    needs_declared, AddReply, AddStep, Addition, Declaration, DeclareReply, DeclareStep,
};
use crate::dispatch::{
    added_message, discover_optional, fsmonitor_fallback_io, hook_query, install_fallback,
    missing_trigger, pipelinefile_has_hook, removed_message, verify_tracked_paths,
};
use crate::error::PipelineError;
use crate::hooks::error::HookError;
use crate::hooks::request::{HookSelection, InstallMode, InstallModes};
use crate::just_runtime::command::CommandOutput;
use crate::names::NameSet;
use crate::native::{lossy, native_text_round_trip, HostPath, NativeText};
use crate::policy::Policy;
use crate::promises::asking::has_words;
use crate::promises::finding::{bare, spells};
use crate::text::{contains_text, decimal, occurs_at};
use vstd::prelude::*;
use vstd::utf8::encode_utf8;

verus! {

/// Every file is tracked.
pub open spec fn tracked_all(answers: Seq<Result<bool, HookError>>) -> bool {
    forall|i: int| 0 <= i < answers.len() ==> (#[trigger] answers[i]) == Ok::<bool, HookError>(true)
}

proof fn lemma_tracked_all(answers: Seq<Result<bool, HookError>>)
    ensures
        tracked_all(answers) <==> crate::dispatch::all_tracked(answers, answers.len() as int),
{
    if crate::dispatch::all_tracked(answers, answers.len() as int) {
        assert forall|i: int| 0 <= i < answers.len() implies (#[trigger] answers[i]) == Ok::<
            bool,
            HookError,
        >(true) by {
            assert(crate::dispatch::path_tracked(answers[i]));
        }
    }
}

/// Files pass if all of them are tracked; otherwise the first that is not is
/// named.
pub proof fn the_first_untracked_file_is_named(
    paths: &Vec<HostPath>,
    answers: Vec<Result<bool, HookError>>,
    result: Result<(), PipelineError>,
    k: int,
)
    requires
        paths@.len() == answers@.len(),
        call_ensures(verify_tracked_paths, (paths, answers), result),
    ensures
        result is Ok <==> tracked_all(answers@),
        0 <= k < answers@.len() && tracked_all(answers@.take(k)) && answers@[k] == Ok::<
            bool,
            HookError,
        >(false) ==> (result matches Err(PipelineError::Message(text)) && text@
            == "hook control file is not tracked by Git: "@ + lossy(paths@[k]@)),
{
    lemma_tracked_all(answers@);
    if 0 <= k < answers@.len() && tracked_all(answers@.take(k)) && answers@[k] == Ok::<
        bool,
        HookError,
    >(false) {
        let error = result->Err_0;
        let all = crate::native::path_views(paths@);
        assert(!crate::dispatch::path_tracked(answers@[k]));
        let i = choose|i: int|
            0 <= i < answers@.len() && !crate::dispatch::path_tracked(#[trigger] answers@[i])
                && crate::dispatch::all_tracked(answers@, i) && match answers@[i] {
                Err(inner) => error == PipelineError::Hook(inner),
                Ok(_) => crate::error::says(
                    error,
                    "hook control file is not tracked by Git: "@ + lossy(all[i]),
                ),
            };
        if i < k {
            assert(answers@.take(k)[i] == answers@[i]);
        }
        if k < i {
            assert(crate::dispatch::path_tracked(answers@[k]));
        }
        assert(all[k] == paths@[k]@);
    }
}

/// A search that was advanced from one state to the next by the replies to its
/// steps.
pub open spec fn searches(
    states: Seq<Declaration>,
    steps: Seq<DeclareStep>,
    replies: Seq<DeclareReply>,
) -> bool {
    &&& states.len() == replies.len() + 1
    &&& steps.len() == states.len()
    &&& forall|i: int| #![trigger states[i]]
        0 <= i < states.len() ==> call_ensures(Declaration::step, (&states[i],), steps[i])
    &&& forall|i: int| #![trigger replies[i]]
        0 <= i < replies.len() ==> call_ensures(
            Declaration::advance,
            (states[i], replies[i]),
            states[i + 1],
        )
}

/// A set holds the names of a list.
pub open spec fn holds(set: NameSet, list: Seq<String>) -> bool {
    forall|name: Seq<char>| #[trigger]
        set@.contains(name) <==> exists|i: int|
            0 <= i < list.len() && (#[trigger] list[i])@ == name
}

proof fn lemma_holds(set: NameSet, list: Seq<String>)
    requires
        forall|name: Seq<char>| #[trigger]
            set@.contains(name) <==> crate::text::views(list).contains(name),
    ensures
        holds(set, list),
{
    let all = crate::text::views(list);
    assert forall|name: Seq<char>| #[trigger] set@.contains(name) <==> exists|i: int|
        0 <= i < list.len() && (#[trigger] list[i])@ == name by {
        if set@.contains(name) {
            let i = choose|i: int| 0 <= i < all.len() && all[i] == name;
            assert(list[i]@ == name);
        }
        if exists|i: int| 0 <= i < list.len() && (#[trigger] list[i])@ == name {
            let i = choose|i: int| 0 <= i < list.len() && (#[trigger] list[i])@ == name;
            assert(all[i] == name);
        }
    }
}

/// In a worktree, hooks are declared by a definition whose control files are all
/// tracked. Without a definition none are.
pub proof fn worktrees_declare_hooks_by_tracked_files(
    states: Seq<Declaration>,
    steps: Seq<DeclareStep>,
    replies: Seq<DeclareReply>,
    found: bool,
    hooks: Vec<String>,
    paths: Vec<HostPath>,
    answers: Vec<Result<bool, HookError>>,
    result: Result<NameSet, PipelineError>,
)
    requires
        call_ensures(Declaration::new, (true,), states[0]),
        searches(states, steps, replies),
        paths@.len() == answers@.len(),
        replies.len() == (if found {
            2int
        } else {
            1
        }),
        replies[0] == DeclareReply::Answer(found),
        found ==> replies[1] == (DeclareReply::Listed { hooks, paths, answers }),
        call_ensures(Declaration::finish, (states.last(),), result),
    ensures
        steps[0] is Discover,
        found ==> steps[1] == (DeclareStep::Control { tracking: true }),
        steps.last() is End,
        !found ==> (result matches Ok(set) && set@.len() == 0),
        found && tracked_all(answers@) ==> (result matches Ok(set) && holds(set, hooks@)),
        found && !tracked_all(answers@) ==> result is Err,
{
    lemma_tracked_all(answers@);
    let s0 = states[0];
    let s1 = states[1];
    let r0 = replies[0];
    if found {
        let s2 = states[2];
        let r1 = replies[1];
        if let Ok(set) = result {
            lemma_holds(set, hooks@);
        }
    } else {
        let set = result->Ok_0;
        if set@.len() > 0 {
            assert(set@.contains(set@[0]));
        }
    }
}

/// Without a worktree, hooks are declared by the definition of the current
/// commit. Where there is no commit, none are.
pub proof fn bare_repositories_declare_hooks_by_their_commit(
    states: Seq<Declaration>,
    steps: Seq<DeclareStep>,
    replies: Seq<DeclareReply>,
    hooks: Vec<String>,
    error: HookError,
    result: Result<NameSet, PipelineError>,
)
    requires
        call_ensures(Declaration::new, (false,), states[0]),
        searches(states, steps, replies),
        (replies.len() == 3 && replies[0] is Done && replies[1] == DeclareReply::Answer(true)
            && replies[2] == DeclareReply::Hooks(hooks)) || (replies.len() == 1 && replies[0]
            == DeclareReply::NotMaterialized(error)),
        call_ensures(Declaration::finish, (states.last(),), result),
    ensures
        steps[0] is Materialize,
        steps.last() is End,
        replies.len() == 3 ==> steps[1] is Discover && steps[2] == (DeclareStep::Control {
            tracking: false,
        }) && (result matches Ok(set) && holds(set, hooks@)),
        replies.len() == 1 && error is InvalidRevision ==> (result matches Ok(set) && set@.len()
            == 0),
        replies.len() == 1 && !(error is InvalidRevision) ==> result is Err,
{
    let s0 = states[0];
    let s1 = states[1];
    let r0 = replies[0];
    if replies.len() == 3 {
        let s2 = states[2];
        let s3 = states[3];
        let r1 = replies[1];
        let r2 = replies[2];
        lemma_holds(result->Ok_0, hooks@);
    } else if error is InvalidRevision {
        let set = result->Ok_0;
        if set@.len() > 0 {
            assert(set@.contains(set@[0]));
        }
    }
}

/// An addition that was advanced from one state to the next by the replies to its
/// steps.
pub open spec fn proceeds(
    states: Seq<Addition>,
    steps: Seq<AddStep>,
    replies: Seq<AddReply>,
) -> bool {
    &&& states.len() == replies.len() + 1
    &&& steps.len() == states.len()
    &&& forall|i: int| #![trigger states[i]]
        0 <= i < states.len() ==> call_ensures(Addition::step, (&states[i],), steps[i])
    &&& forall|i: int| #![trigger replies[i]]
        0 <= i < replies.len() ==> call_ensures(
            Addition::advance,
            (states[i], replies[i]),
            states[i + 1],
        )
}

/// The sentence for a number of hooks.
pub open spec fn sentence(verb: Seq<char>, count: nat) -> Seq<char> {
    if count == 1 {
        verb + " 1 Pipeline-managed Git hook."@
    } else {
        verb + " "@ + decimal(count) + " Pipeline-managed Git hooks."@
    }
}

proof fn lemma_sentence(verb: Seq<char>, count: nat)
    ensures
        crate::dispatch::count_text(verb, count) == sentence(verb, count),
{
    reveal_strlit(" 1 Pipeline-managed Git hook.");
    reveal_strlit(" ");
    reveal_strlit(" Pipeline-managed Git hook");
    reveal_strlit(" Pipeline-managed Git hooks.");
    reveal_strlit(".");
    reveal_strlit("s.");
    if count == 1 {
        reveal_with_fuel(decimal, 2);
        assert(decimal(1) =~= seq!['1']);
        assert(crate::dispatch::count_text(verb, count) =~= sentence(verb, count));
    } else {
        assert(crate::dispatch::count_text(verb, count) =~= sentence(verb, count));
    }
}

/// The user is told how many hooks were added or removed.
pub proof fn the_user_is_told_how_many(count: usize, added: String, removed: String)
    requires
        call_ensures(added_message, (count,), added),
        call_ensures(removed_message, (count,), removed),
    ensures
        added@ == sentence("Added"@, count as nat),
        removed@ == sentence("Removed"@, count as nat),
{
    lemma_sentence("Added"@, count as nat);
    lemma_sentence("Removed"@, count as nat);
}

/// Hooks are added after all that can be checked was, and after a Just was found:
/// from an image only if the policy allows it, and no link is asked for.
pub proof fn hooks_are_added_in_order(
    selected: &NameSet,
    modes: InstallModes,
    policy: Policy,
    count: usize,
    states: Seq<Addition>,
    steps: Seq<AddStep>,
    replies: Seq<AddReply>,
    result: Result<String, PipelineError>,
)
    requires
        call_ensures(Addition::new, (selected, modes), states[0]),
        proceeds(states, steps, replies),
        selected@.len() == 0 ==> replies.len() == 0,
        selected@.len() > 0 ==> replies.len() == 4 && replies[0] is Done && replies[1]
            == AddReply::Policy(policy) && replies[2] is Done && replies[3] == AddReply::Added(
            count,
        ),
        call_ensures(Addition::finish, (states.last(),), result),
    ensures
        steps.last() is End,
        selected@.len() == 0 ==> (result matches Ok(text) && text@ == "No hooks selected."@),
        selected@.len() > 0 ==> {
            &&& steps[0] is Preflight
            &&& steps[1] is LoadPolicy
            &&& steps[2] matches AddStep::ResolveJust { container_fallback }
                && (container_fallback <==> policy.runtime.container_fallback && modes.just
                != InstallMode::Link)
            &&& steps[3] is Install
            &&& result matches Ok(text) && text@ == sentence("Added"@, count as nat)
        },
{
    lemma_sentence("Added"@, count as nat);
    let s0 = states[0];
    if selected@.len() > 0 {
        let s1 = states[1];
        let s2 = states[2];
        let s3 = states[3];
        let s4 = states[4];
        let r0 = replies[0];
        let r1 = replies[1];
        let r2 = replies[2];
        let r3 = replies[3];
    }
}

/// What fails on the way adds nothing.
pub proof fn failed_additions_stop(
    state: Addition,
    step: AddStep,
    error: PipelineError,
    next: Addition,
    after: AddStep,
    result: Result<String, PipelineError>,
)
    requires
        call_ensures(Addition::step, (&state,), step),
        !(step is End),
        call_ensures(Addition::advance, (state, AddReply::Error(error)), next),
        call_ensures(Addition::step, (&next,), after),
        call_ensures(Addition::finish, (next,), result),
    ensures
        after is End,
        result is Err,
{
}

/// A Just comes from an image only if the policy allows it and no link is asked
/// for.
pub proof fn links_and_policies_forbid_images(policy: &Policy, modes: InstallModes, allowed: bool)
    requires
        call_ensures(install_fallback, (policy, modes), allowed),
    ensures
        modes.just is Link ==> !allowed,
        !policy.runtime.container_fallback ==> !allowed,
        policy.runtime.container_fallback && !(modes.just is Link) ==> allowed,
{
}

/// Only a selection of the managed hooks asks what the definition declares.
pub proof fn only_managed_selections_need_declarations(selection: &HookSelection, yes: bool)
    requires
        call_ensures(needs_declared, (selection,), yes),
    ensures
        yes <==> *selection == HookSelection::Managed,
{
}

/// A monitor that knows nothing names the root as changed, by the version of the
/// protocol that Git asks for; any other version it refuses.
pub proof fn the_monitor_names_the_root(arguments: &Vec<NativeText>, result: (Vec<u8>, i32))
    requires
        call_ensures(fsmonitor_fallback_io, (arguments,), result),
    ensures
        ({
            let asked_for = |version: Seq<char>|
                arguments@.len() > 0 && arguments@[0]@ == encode_utf8(version);
            &&& asked_for("1"@) ==> result.0@ == seq![47u8, 0u8] && result.1 == 0
            &&& asked_for("2"@) && arguments@.len() > 1 ==> result.0@ == arguments@[1]@.push(
                0u8,
            ).push(47u8).push(0u8) && result.1 == 0
            &&& !asked_for("1"@) && !(asked_for("2"@) && arguments@.len() > 1)
                ==> result.0@.len() == 0 && result.1 == 1
        }),
{
    reveal_strlit("1");
    reveal_strlit("2");
    vstd::utf8::is_ascii_chars_encode_utf8("1"@);
    vstd::utf8::is_ascii_chars_encode_utf8("2"@);
    assert("1"@[0] as u8 == encode_utf8("1"@)[0]);
    assert("2"@[0] as u8 == encode_utf8("2"@)[0]);
    let all = crate::native::native_views(arguments@);
    assert(all.len() == arguments@.len());
    if all.len() > 0 {
        assert(all[0] == arguments@[0]@);
    }
    if all.len() > 1 {
        assert(all[1] == arguments@[1]@);
        assert(all[1] + seq![0u8, 47, 0] =~= all[1].push(0u8).push(47u8).push(0u8));
    }
}

/// Just is asked for the recipe `hook` of the Pipelinefile, in the directory where
/// it would run.
pub proof fn just_is_asked_for_the_hook_recipe(
    project: &Project,
    directory: &HostPath,
    arguments: Vec<NativeText>,
)
    requires
        call_ensures(hook_query, (project, directory), arguments),
    ensures
        has_words(
            arguments@,
            seq![
                encode_utf8("--justfile"@),
                project@.path,
                encode_utf8("--working-directory"@),
                directory@,
                encode_utf8("--show"@),
                encode_utf8("hook"@),
            ],
        ),
{
    let words = seq![
        encode_utf8("--justfile"@),
        project@.path,
        encode_utf8("--working-directory"@),
        directory@,
        encode_utf8("--show"@),
        encode_utf8("hook"@),
    ];
    let all = crate::native::native_views(arguments@);
    assert(all =~= words);
    assert forall|i: int| 0 <= i < words.len() implies (#[trigger] arguments@[i])@ == words[i] by {
        assert(all[i] == arguments@[i]@);
    }
}

/// The words by which Just says that it does not know the recipe.
pub open spec fn words_of_denial(phrase: Seq<char>) -> bool {
    phrase == "does not contain recipe `hook`"@ || phrase == "unknown recipe `hook`"@ || phrase
        == "Unknown recipe `hook`"@
}

/// A Pipelinefile has the recipe if Just shows it, and has it not if Just says
/// so. Every other failure is reported with what Just said.
pub proof fn just_knows_the_hook_recipe(
    path: &HostPath,
    output: &CommandOutput,
    said: Seq<char>,
    before: Seq<char>,
    phrase: Seq<char>,
    after: Seq<char>,
    result: Result<bool, PipelineError>,
)
    requires
        call_ensures(pipelinefile_has_hook, (path, output), result),
    ensures
        result == Ok::<bool, PipelineError>(true) <==> output.code == Some(0i32),
        output.code != Some(0i32) && words_of_denial(phrase) && spells(
            output.stderr@,
            before + phrase + after,
        ) ==> result == Ok::<bool, PipelineError>(false),
        output.code != Some(0i32) && spells(output.stderr@, said) && bare(said) && !contains_text(
            said,
            "recipe `hook`"@,
        ) ==> (result matches Err(PipelineError::Message(text)) && text@ == "could not inspect "@
            + lossy(path@) + ": "@ + said),
{
    if words_of_denial(phrase) && spells(output.stderr@, before + phrase + after) {
        let text = before + phrase + after;
        native_text_round_trip(text);
        let at = before.len() as int;
        assert(text.subrange(at, at + phrase.len()) =~= phrase);
        assert(occurs_at(text, phrase, at));
    }
    if spells(output.stderr@, said) && bare(said) && !contains_text(said, "recipe `hook`"@) {
        native_text_round_trip(said);
        crate::promises::finding::lemma_bare(said);
        reveal_strlit("recipe `hook`");
        reveal_strlit("does not contain recipe `hook`");
        reveal_strlit("unknown recipe `hook`");
        reveal_strlit("Unknown recipe `hook`");
        lemma_part(said, "does not contain recipe `hook`"@, "recipe `hook`"@, 17);
        lemma_part(said, "unknown recipe `hook`"@, "recipe `hook`"@, 8);
        lemma_part(said, "Unknown recipe `hook`"@, "recipe `hook`"@, 8);
    }
}

proof fn lemma_part(text: Seq<char>, whole: Seq<char>, part: Seq<char>, n: int)
    requires
        0 <= n <= whole.len(),
        whole.skip(n) =~= part,
        !contains_text(text, part),
    ensures
        !contains_text(text, whole),
{
    if contains_text(text, whole) {
        let at = choose|at: int| occurs_at(text, whole, at);
        assert(text.subrange(at + n, at + n + part.len()) =~= text.subrange(
            at,
            at + whole.len(),
        ).skip(n));
        assert(occurs_at(text, part, at + n));
    }
}

/// No definition is none; every other failure to find one is an error.
pub proof fn only_a_missing_definition_is_none(
    found: Result<Project, DefinitionError>,
    result: Result<Option<Project>, PipelineError>,
)
    requires
        call_ensures(discover_optional, (found,), result),
    ensures
        found matches Ok(project) ==> result == Ok::<Option<Project>, PipelineError>(Some(project)),
        found matches Err(DefinitionError::NotFound { .. }) ==> result == Ok::<
            Option<Project>,
            PipelineError,
        >(None),
        found is Err && !(found->Err_0 is NotFound) ==> result == Err::<
            Option<Project>,
            PipelineError,
        >(PipelineError::Definition(found->Err_0)),
{
}

/// A hook without a trigger succeeds, or fails with its name.
pub proof fn hooks_without_a_trigger_are_allowed_or_named(
    policy: &Policy,
    hook: &str,
    result: Result<i32, PipelineError>,
)
    requires
        call_ensures(missing_trigger, (policy, hook), result),
    ensures
        policy.hooks.missing_trigger is Allow ==> result == Ok::<i32, PipelineError>(0),
        policy.hooks.missing_trigger is Deny ==> (result matches Err(PipelineError::Message(text))
            && text@ == "no Pipeline trigger is declared for Git hook `"@ + hook@ + "`"@),
{
}

/// A Pipelinefile is run by its recipe `hook`, and a YAML definition by what it
/// selects; both with the environment, the input and the directory that they are
/// given.
pub proof fn candidates_run_as_they_are_told(
    recipe: bool,
    environment: Vec<(NativeText, NativeText)>,
    stdin: StdinSource,
    directory: HostPath,
    options: RunOptions,
    i: int,
)
    requires
        call_ensures(candidate_options, (recipe, environment, stdin, directory), options),
    ensures
        recipe ==> has_words(options.arguments@, seq![encode_utf8("hook"@)]),
        !recipe ==> options.arguments@.len() == 0,
        !options.no_deps,
        options.environment@.len() == environment@.len(),
        0 <= i < environment@.len() ==> options.environment@[i].0@ == environment@[i].0@
            && options.environment@[i].1@ == environment@[i].1@,
        options.working_directory matches Some(path) && path@ == directory@,
        options.stdin@ == stdin@,
{
    let all = crate::native::native_views(options.arguments@);
    assert(all.len() == options.arguments@.len());
    if recipe {
        assert(all[0] == options.arguments@[0]@);
    }
    let left = crate::definition::project::variable_views(options.environment@);
    let right = crate::definition::project::variable_views(environment@);
    assert(left.len() == options.environment@.len());
    assert(right.len() == environment@.len());
    if 0 <= i < environment@.len() {
        assert(left[i] == (options.environment@[i].0@, options.environment@[i].1@));
        assert(right[i] == (environment@[i].0@, environment@[i].1@));
    }
}

} // verus!
