//! How hooks are removed.

use crate::hooks::error::HookError;
use crate::hooks::ownership::{hook_path, HookFile};
use crate::hooks::removal::{Removal, RemovalPhaseModel, RemovalReply, RemovalReport, RemovalStep};
use crate::hooks::repository::Repository;
use crate::names::NameSet;
use crate::native::HostPath;
use crate::promises::installing::{in_the_way, lemma_owns, pipeline_owns};
use crate::promises::selecting::git_hooks;
use vstd::prelude::*;

verus! {

/// One step of a removal.
pub open spec fn goes_on(
    state: Removal,
    step: RemovalStep,
    reply: RemovalReply,
    next: Removal,
    after: RemovalStep,
) -> bool {
    &&& call_ensures(Removal::step, (&state,), step)
    &&& call_ensures(Removal::advance, (state, reply), next)
    &&& call_ensures(Removal::step, (&next,), after)
}

/// A step looks at the path of a hook.
pub open spec fn looks_at(step: RemovalStep, path: HostPath) -> bool {
    step matches RemovalStep::Inspect(at) && at@ == path@
}

/// Only hooks of Git can be removed, and the first is looked at first. Without a
/// hook, what is left is looked at.
pub proof fn removals_are_about_hooks(
    repository: Repository,
    hooks: NameSet,
    result: Result<Removal, HookError>,
    hook: &str,
    path: HostPath,
    step: RemovalStep,
)
    requires
        call_ensures(Removal::new, (repository, hooks), result),
        result matches Ok(state) ==> call_ensures(Removal::step, (&state,), step),
        hooks@.len() > 0 ==> hook@ == hooks@[0] && call_ensures(
            hook_path,
            (&repository, hook),
            path,
        ),
    ensures
        result is Ok <==> forall|i: int|
            0 <= i < hooks@.len() ==> git_hooks().contains(#[trigger] hooks@[i]),
        result matches Ok(state) ==> {
            &&& state@.repository == repository
            &&& state@.hooks == hooks@
            &&& state@.removed.len() == 0
            &&& !state@.removed_binaries
            &&& hooks@.len() == 0 ==> step is Survey
            &&& hooks@.len() > 0 ==> looks_at(step, path) && state@.phase
                == RemovalPhaseModel::Checking(0)
        },
{
    crate::promises::selecting::lemma_git_hooks();
    if forall|i: int| 0 <= i < hooks@.len() ==> git_hooks().contains(#[trigger] hooks@[i]) {
        assert(crate::hooks::all_supported(hooks@));
    }
    if crate::hooks::all_supported(hooks@) {
        assert forall|i: int| 0 <= i < hooks@.len() implies git_hooks().contains(
            #[trigger] hooks@[i],
        ) by {
            assert(crate::hooks::supported(hooks@[i]));
        }
    }
}

/// Every hook is checked before the first is removed. One that is not Pipeline's
/// ends the removal, and is named.
pub proof fn foreign_hooks_stop_a_removal(
    state: Removal,
    step: RemovalStep,
    file: HookFile,
    next: Removal,
    after: RemovalStep,
    i: int,
    hook: &str,
    path: HostPath,
    following: &str,
    next_path: HostPath,
    result: Result<RemovalReport, HookError>,
)
    requires
        state@.phase == RemovalPhaseModel::Checking(i),
        0 <= i < state@.hooks.len(),
        goes_on(state, step, RemovalReply::Found(file), next, after),
        hook@ == state@.hooks[i],
        call_ensures(hook_path, (&state@.repository, hook), path),
        following@ == state@.hooks[if i + 1 < state@.hooks.len() {
            i + 1
        } else {
            0
        }],
        call_ensures(hook_path, (&state@.repository, following), next_path),
        after is End ==> call_ensures(Removal::finish, (next,), result),
    ensures
        looks_at(step, path),
        next@.removed == state@.removed,
        in_the_way(file) ==> after is End && result is Err,
        in_the_way(file) && (file.probe is File ==> file.contents is Ok) ==> (result matches Err(
            HookError::UnmanagedHook(at),
        ) && at@ == path@),
        !in_the_way(file) ==> looks_at(after, next_path) && next@.phase == (if i + 1
            < state@.hooks.len() {
            RemovalPhaseModel::Checking(i + 1)
        } else {
            RemovalPhaseModel::Inspecting(0)
        }),
{
    lemma_owns(file);
}

/// A hook that is Pipeline's is deleted and counted; one that is gone is passed
/// over. Then the next is looked at, or what is left.
pub proof fn owned_hooks_are_deleted(
    states: Seq<Removal>,
    steps: Seq<RemovalStep>,
    file: HookFile,
    i: int,
    hook: &str,
    path: HostPath,
)
    requires
        states.len() == 3,
        steps.len() == 3,
        states[0]@.phase == RemovalPhaseModel::Inspecting(i),
        0 <= i < states[0]@.hooks.len(),
        goes_on(states[0], steps[0], RemovalReply::Found(file), states[1], steps[1]),
        pipeline_owns(file) ==> goes_on(
            states[1],
            steps[1],
            RemovalReply::Done,
            states[2],
            steps[2],
        ),
        hook@ == states[0]@.hooks[i],
        call_ensures(hook_path, (&states[0]@.repository, hook), path),
        pipeline_owns(file) || file.probe is Missing,
    ensures
        looks_at(steps[0], path),
        pipeline_owns(file) ==> (steps[1] matches RemovalStep::Delete(at) && at@ == path@)
            && states[2]@.removed == states[0]@.removed.push(hook@) && passes_on(
            states[2],
            steps[2],
            i,
        ),
        file.probe is Missing ==> states[1]@.removed == states[0]@.removed && passes_on(
            states[1],
            steps[1],
            i,
        ),
{
    lemma_owns(file);
}

/// A removal goes on after a hook.
pub open spec fn passes_on(state: Removal, step: RemovalStep, i: int) -> bool {
    if i + 1 < state@.hooks.len() {
        state@.phase == RemovalPhaseModel::Inspecting(i + 1) && step is Inspect
    } else {
        step is Survey
    }
}

/// The executables go with the last hook that Pipeline owns, and their directory
/// after them. What was removed is told.
pub proof fn executables_go_last(
    states: Seq<Removal>,
    steps: Seq<RemovalStep>,
    files: Vec<HookFile>,
    reply: RemovalReply,
    pipeline_dir: HostPath,
    pipeline: HostPath,
    just: HostPath,
    result: Result<RemovalReport, HookError>,
    k: int,
    name: Seq<char>,
)
    requires
        states.len() == 5,
        steps.len() == 5,
        steps[0] is Survey,
        states[0]@.phase is Surveying,
        !states[0]@.removed_binaries,
        files@.len() == git_hooks().len(),
        forall|i: int|
            0 <= i < files@.len() ==> (#[trigger] files@[i]).probe is Missing || pipeline_owns(
                files@[i],
            ),
        goes_on(states[0], steps[0], RemovalReply::Surveyed(files), states[1], steps[1]),
        !(steps[1] is End) ==> {
            &&& goes_on(states[1], steps[1], RemovalReply::Done, states[2], steps[2])
            &&& goes_on(states[2], steps[2], RemovalReply::Done, states[3], steps[3])
            &&& goes_on(states[3], steps[3], reply, states[4], steps[4])
            &&& reply is Done || reply is Refused
        },
        steps[1] is End ==> states[4] == states[1] && steps[4] == steps[1],
        call_ensures(Removal::finish, (states[4],), result),
        call_ensures(Repository::pipeline_dir, (&states[0]@.repository,), pipeline_dir),
        call_ensures(Repository::installed_pipeline, (&states[0]@.repository,), pipeline),
        call_ensures(Repository::installed_just, (&states[0]@.repository,), just),
    ensures
        steps[4] is End,
        result matches Ok(report) && (report.hooks@.contains(name)
            <==> states[0]@.removed.contains(name)),
        0 <= k < files@.len() && pipeline_owns(files@[k]) ==> steps[1] is End
            && !result->Ok_0.removed_binaries,
        (forall|i: int| 0 <= i < files@.len() ==> (#[trigger] files@[i]).probe is Missing) ==> {
            &&& steps[1] matches RemovalStep::DeleteIfPresent(path) && path@ == pipeline@
            &&& steps[2] matches RemovalStep::DeleteIfPresent(path) && path@ == just@
            &&& steps[3] matches RemovalStep::RemoveDirectory(path) && path@ == pipeline_dir@
            &&& result->Ok_0.removed_binaries
        },
{
    crate::promises::selecting::lemma_git_hooks();
    assert forall|i: int| 0 <= i < files@.len() implies crate::hooks::ownership::readable(
        #[trigger] files@[i],
    ) && (crate::hooks::ownership::managed(files@[i]) <==> pipeline_owns(files@[i])) by {
        lemma_owns(files@[i]);
    }
    lemma_readable(files@);
    if 0 <= k < files@.len() && pipeline_owns(files@[k]) {
        assert(crate::hooks::ownership::managed(files@[k]));
        assert(crate::hooks::removal::any_installed(files@));
    }
    if forall|i: int| 0 <= i < files@.len() ==> (#[trigger] files@[i]).probe is Missing {
        assert(!crate::hooks::removal::any_installed(files@)) by {
            if crate::hooks::removal::any_installed(files@) {
                let i = choose|i: int|
                    0 <= i < files@.len() && crate::hooks::ownership::managed(
                        #[trigger] files@[i],
                    );
                assert(files@[i].probe is Missing);
                assert(pipeline_owns(files@[i]));
            }
        }
    }
}

proof fn lemma_readable(files: Seq<HookFile>)
    requires
        forall|i: int|
            0 <= i < files.len() ==> crate::hooks::ownership::readable(#[trigger] files[i]),
    ensures
        crate::hooks::removal::first_unreadable(files) == files.len(),
    decreases files.len(),
{
    if files.len() > 0 {
        let rest = files.drop_first();
        assert forall|i: int| 0 <= i < rest.len() implies crate::hooks::ownership::readable(
            #[trigger] rest[i],
        ) by {
            assert(rest[i] == files[i + 1]);
        }
        lemma_readable(rest);
    }
}

/// What the system refuses ends the removal, but for the directory.
pub proof fn refusals_end_a_removal(
    state: Removal,
    step: RemovalStep,
    reason: String,
    next: Removal,
    after: RemovalStep,
    result: Result<RemovalReport, HookError>,
)
    requires
        step is Delete || step is DeleteIfPresent,
        goes_on(state, step, RemovalReply::Refused(reason), next, after),
        call_ensures(Removal::finish, (next,), result),
    ensures
        after is End,
        result matches Err(HookError::Io(text)) && text@ == reason@,
{
}

} // verus!
