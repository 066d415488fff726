//! What a hook of Git leads to.

use crate::dispatch::single::{hook_route, is_receive_hook, HookRoute, HookRun, RunReply, RunStep};
use crate::error::PipelineError;
use crate::hooks::error::HookError;
use crate::policy::Policy;
use vstd::prelude::*;

verus! {

/// The hooks that Git calls for what is pushed to it.
pub open spec fn hooks_for_a_push() -> Seq<Seq<char>> {
    seq!["pre-receive"@, "update"@, "post-receive"@, "post-update"@, "push-to-checkout"@]
}

pub open spec fn is_about_a_push(hook: Seq<char>) -> bool {
    hooks_for_a_push().contains(hook)
}

proof fn lemma_about_a_push(hook: Seq<char>)
    ensures
        is_about_a_push(hook) <==> crate::dispatch::single::receives(hook),
{
    let all = hooks_for_a_push();
    assert(all[0] == "pre-receive"@);
    assert(all[1] == "update"@);
    assert(all[2] == "post-receive"@);
    assert(all[3] == "post-update"@);
    assert(all[4] == "push-to-checkout"@);
}

/// Hooks for a push go over the incoming commits, and so do the transactions of
/// a bare repository. The two hooks that Git waits for go their own way. Every
/// other hook goes over the worktree, or over a checked out tree if there is
/// none.
pub proof fn hooks_go_their_way(
    hook: &str,
    bare: bool,
    has_work_tree: bool,
    route: HookRoute,
    pushed: bool,
)
    requires
        call_ensures(hook_route, (hook, bare, has_work_tree), route),
        call_ensures(is_receive_hook, (hook,), pushed),
    ensures
        pushed <==> is_about_a_push(hook@),
        route is Receive <==> is_about_a_push(hook@) || (hook@ == "reference-transaction"@ && bare),
        route is Protocol <==> hook@ == "proc-receive"@,
        route is Monitor <==> hook@ == "fsmonitor-watchman"@,
        route is WorkTree ==> has_work_tree,
        route is Bare ==> !has_work_tree,
{
    lemma_about_a_push(hook@);
    reveal_strlit("pre-receive");
    reveal_strlit("update");
    reveal_strlit("post-receive");
    reveal_strlit("post-update");
    reveal_strlit("push-to-checkout");
    reveal_strlit("reference-transaction");
    reveal_strlit("proc-receive");
    reveal_strlit("fsmonitor-watchman");
    assert("proc-receive"@.len() == 12 && "proc-receive"@[1] == 'r');
    assert("post-receive"@.len() == 12 && "post-receive"@[1] == 'o');
    assert("pre-receive"@.len() == 11);
    assert("update"@.len() == 6);
    assert("post-update"@.len() == 11);
    assert("push-to-checkout"@.len() == 16);
    assert("reference-transaction"@.len() == 21);
    assert("fsmonitor-watchman"@.len() == 18);
}

/// A run that was advanced from one state to the next by the replies to its
/// steps.
pub open spec fn follows(states: Seq<HookRun>, steps: Seq<RunStep>, replies: Seq<RunReply>) -> bool {
    &&& states.len() == replies.len() + 1
    &&& steps.len() == states.len()
    &&& forall|i: int| #![trigger states[i]]
        0 <= i < states.len() ==> call_ensures(HookRun::step, (&states[i],), steps[i])
    &&& forall|i: int| #![trigger replies[i]]
        0 <= i < replies.len() ==> call_ensures(
            HookRun::advance,
            (states[i], replies[i]),
            states[i + 1],
        )
}

/// The policy lets a hook run.
pub open spec fn lets_run(policy: Policy, hook: Seq<char>) -> bool {
    policy.hooks.enabled && !policy.hooks.disabled@.contains(hook)
}

/// Every control file is tracked.
pub open spec fn all_are_tracked(reply: RunReply) -> bool {
    reply matches RunReply::Listed { paths, answers } && paths@.len() == answers@.len() && forall|
        i: int,
    |
        0 <= i < answers@.len() ==> (#[trigger] answers@[i]) == Ok::<bool, HookError>(true)
}

/// Some control file is not tracked.
pub open spec fn one_is_untracked(reply: RunReply) -> bool {
    reply matches RunReply::Listed { paths, answers } && paths@.len() == answers@.len() && exists|
        i: int,
    |
        0 <= i < answers@.len() && (#[trigger] answers@[i]) != Ok::<bool, HookError>(true)
}

proof fn lemma_untracked(reply: RunReply)
    ensures
        one_is_untracked(reply) ==> !crate::dispatch::all_tracked(
            reply->answers@,
            reply->answers@.len() as int,
        ),
        all_are_tracked(reply) ==> crate::dispatch::all_tracked(
            reply->answers@,
            reply->answers@.len() as int,
        ),
{
    if one_is_untracked(reply) {
        let list = reply->answers@;
        let i = choose|i: int|
            0 <= i < list.len() && (#[trigger] list[i]) != Ok::<bool, HookError>(true);
        assert(!crate::dispatch::path_tracked(list[i]));
    }
}

/// A hook that is not let run runs nothing: it succeeds, or Git is answered as if
/// there were no hook.
pub proof fn hooks_that_are_not_let_run_do_nothing(
    route: HookRoute,
    hook: &str,
    policy: &Policy,
    has_work_tree: bool,
    state: HookRun,
    step: RunStep,
    result: Result<i32, PipelineError>,
)
    requires
        call_ensures(HookRun::new, (route, hook, policy, has_work_tree), state),
        call_ensures(HookRun::step, (&state,), step),
        step is End ==> call_ensures(HookRun::finish, (state,), result),
        !lets_run(*policy, hook@),
    ensures
        route is WorkTree || route is Bare ==> step is End && result == Ok::<i32, PipelineError>(0),
        route is Protocol ==> step is PassThrough,
        route is Monitor ==> step is ReportEverything,
{
}

/// A hook over the worktree runs what the definition there has for it, if all
/// that controls it is tracked.
pub proof fn worktree_hooks_run_tracked_definitions(
    hook: &str,
    policy: &Policy,
    has_work_tree: bool,
    states: Seq<HookRun>,
    steps: Seq<RunStep>,
    replies: Seq<RunReply>,
    code: i32,
    result: Result<i32, PipelineError>,
)
    requires
        call_ensures(
            HookRun::new,
            (HookRoute::WorkTree, hook, policy, has_work_tree),
            states[0],
        ),
        lets_run(*policy, hook@),
        follows(states, steps, replies),
        replies.len() == 3,
        replies[0] == RunReply::Answer(true),
        all_are_tracked(replies[1]),
        replies[2] == RunReply::Code(code),
        steps[3] is End ==> call_ensures(HookRun::finish, (states[3],), result),
    ensures
        steps[0] is Discover,
        steps[1] == (RunStep::Control { tracking: true }),
        steps[2] is Run,
        steps[3] is End,
        result == Ok::<i32, PipelineError>(code),
{
    lemma_untracked(replies[1]);
    let s0 = states[0];
    let s1 = states[1];
    let s2 = states[2];
    let s3 = states[3];
    let r0 = replies[0];
    let r2 = replies[2];
}

/// What is not tracked runs nothing in the worktree.
pub proof fn untracked_files_control_nothing(
    route: HookRoute,
    hook: &str,
    policy: &Policy,
    states: Seq<HookRun>,
    steps: Seq<RunStep>,
    replies: Seq<RunReply>,
    result: Result<i32, PipelineError>,
)
    requires
        route is WorkTree || route is Monitor,
        call_ensures(HookRun::new, (route, hook, policy, true), states[0]),
        lets_run(*policy, hook@),
        follows(states, steps, replies),
        replies.len() == 2,
        replies[0] == RunReply::Answer(true),
        one_is_untracked(replies[1]),
        steps[2] is End ==> call_ensures(HookRun::finish, (states[2],), result),
    ensures
        steps[0] is Discover,
        steps[1] == (RunStep::Control { tracking: true }),
        steps[2] is End,
        result is Err,
{
    lemma_untracked(replies[1]);
    let s0 = states[0];
    let s1 = states[1];
    let s2 = states[2];
    let r0 = replies[0];
    let r1 = replies[1];
}

/// The answer to a hook for which there is nothing to run: where that is allowed
/// it succeeds, or Git is answered as if there were no hook; otherwise it fails
/// and names the hook.
pub open spec fn answers_for_nothing(
    route: HookRoute,
    hook: Seq<char>,
    policy: Policy,
    step: RunStep,
    result: Result<i32, PipelineError>,
) -> bool {
    if policy.hooks.missing_trigger is Allow {
        &&& route is WorkTree || route is Bare ==> step is End && result == Ok::<
            i32,
            PipelineError,
        >(0)
        &&& route is Protocol ==> step is PassThrough
        &&& route is Monitor ==> step is ReportEverything
    } else {
        step is End && (result matches Err(PipelineError::Message(text)) && text@
            == "no Pipeline trigger is declared for Git hook `"@ + hook + "`"@)
    }
}

/// A worktree without a definition has nothing to run.
pub proof fn worktrees_without_a_definition_have_nothing(
    route: HookRoute,
    hook: &str,
    policy: &Policy,
    states: Seq<HookRun>,
    steps: Seq<RunStep>,
    replies: Seq<RunReply>,
    result: Result<i32, PipelineError>,
)
    requires
        route is WorkTree || route is Monitor,
        call_ensures(HookRun::new, (route, hook, policy, true), states[0]),
        lets_run(*policy, hook@),
        follows(states, steps, replies),
        replies.len() == 1,
        replies[0] == RunReply::Answer(false),
        steps[1] is End ==> call_ensures(HookRun::finish, (states[1],), result),
    ensures
        steps[0] is Discover,
        answers_for_nothing(route, hook@, *policy, steps[1], result),
{
    let s0 = states[0];
    let s1 = states[1];
    let r0 = replies[0];
}

/// The revision that is checked out: the trusted one where the policy asks for
/// it, or else the current one.
pub open spec fn checked_out(policy: Policy, revision: Seq<char>) -> bool {
    if policy.hooks.incoming is Trusted && policy.hooks.trusted_ref is Some {
        revision == policy.hooks.trusted_ref->Some_0@
    } else {
        revision == "HEAD"@
    }
}

/// A hook of a bare repository runs what the checked out tree has for it.
pub proof fn bare_hooks_run_a_checked_out_tree(
    hook: &str,
    policy: &Policy,
    states: Seq<HookRun>,
    steps: Seq<RunStep>,
    replies: Seq<RunReply>,
    code: i32,
    result: Result<i32, PipelineError>,
)
    requires
        call_ensures(HookRun::new, (HookRoute::Bare, hook, policy, false), states[0]),
        lets_run(*policy, hook@),
        follows(states, steps, replies),
        replies.len() == 4,
        replies[0] is Done,
        replies[1] == RunReply::Answer(true),
        replies[2] is Done,
        replies[3] == RunReply::Code(code),
        steps[4] is End ==> call_ensures(HookRun::finish, (states[4],), result),
    ensures
        steps[0] matches RunStep::Materialize(revision) && checked_out(*policy, revision@),
        steps[1] is Discover,
        steps[2] == (RunStep::Control { tracking: false }),
        steps[3] is Run,
        steps[4] is End,
        result == Ok::<i32, PipelineError>(code),
{
    let s0 = states[0];
    let s1 = states[1];
    let s2 = states[2];
    let s3 = states[3];
    let s4 = states[4];
    let r0 = replies[0];
    let r1 = replies[1];
    let r2 = replies[2];
    let r3 = replies[3];
}

/// `proc-receive` is passed through where the policy skips what comes in.
/// Otherwise it runs over a checked out tree, if there is a trigger for it.
pub proof fn proc_receive_needs_a_trigger(
    hook: &str,
    policy: &Policy,
    has_work_tree: bool,
    states: Seq<HookRun>,
    steps: Seq<RunStep>,
    replies: Seq<RunReply>,
    triggered: bool,
    code: i32,
    result: Result<i32, PipelineError>,
)
    requires
        call_ensures(
            HookRun::new,
            (HookRoute::Protocol, hook, policy, has_work_tree),
            states[0],
        ),
        lets_run(*policy, hook@),
        follows(states, steps, replies),
        policy.hooks.incoming is Skip ==> replies.len() == 0,
        !(policy.hooks.incoming is Skip) ==> {
            &&& replies.len() == (if triggered {
                5int
            } else {
                4
            })
            &&& replies[0] is Done
            &&& replies[1] == RunReply::Answer(true)
            &&& replies[2] is Done
            &&& replies[3] == RunReply::Answer(triggered)
            &&& triggered ==> replies[4] == RunReply::Code(code)
            &&& steps.last() is End ==> call_ensures(HookRun::finish, (states.last(),), result)
        },
    ensures
        policy.hooks.incoming is Skip ==> steps[0] is PassThrough,
        !(policy.hooks.incoming is Skip) ==> {
            &&& steps[0] matches RunStep::Materialize(revision) && checked_out(*policy, revision@)
            &&& steps[1] is Discover
            &&& steps[2] == (RunStep::Control { tracking: false })
            &&& steps[3] is Trigger
            &&& triggered ==> steps[4] is Run && steps[5] is End && result == Ok::<
                i32,
                PipelineError,
            >(code)
            &&& !triggered ==> answers_for_nothing(
                HookRoute::Protocol,
                hook@,
                *policy,
                steps[4],
                result,
            )
        },
{
    let s0 = states[0];
    if !(policy.hooks.incoming is Skip) {
        let s1 = states[1];
        let s2 = states[2];
        let s3 = states[3];
        let s4 = states[4];
        let r0 = replies[0];
        let r1 = replies[1];
        let r2 = replies[2];
        let r3 = replies[3];
        if triggered {
            let s5 = states[5];
            let r4 = replies[4];
        }
    }
}

/// The monitor runs over the worktree, if there is one and a trigger for it.
pub proof fn the_monitor_needs_a_worktree_and_a_trigger(
    hook: &str,
    policy: &Policy,
    has_work_tree: bool,
    states: Seq<HookRun>,
    steps: Seq<RunStep>,
    replies: Seq<RunReply>,
    triggered: bool,
    code: i32,
    result: Result<i32, PipelineError>,
)
    requires
        call_ensures(
            HookRun::new,
            (HookRoute::Monitor, hook, policy, has_work_tree),
            states[0],
        ),
        lets_run(*policy, hook@),
        follows(states, steps, replies),
        !has_work_tree ==> replies.len() == 0,
        has_work_tree ==> {
            &&& replies.len() == (if triggered {
                4int
            } else {
                3
            })
            &&& replies[0] == RunReply::Answer(true)
            &&& all_are_tracked(replies[1])
            &&& replies[2] == RunReply::Answer(triggered)
            &&& triggered ==> replies[3] == RunReply::Code(code)
            &&& steps.last() is End ==> call_ensures(HookRun::finish, (states.last(),), result)
        },
    ensures
        !has_work_tree ==> steps[0] is ReportEverything,
        has_work_tree ==> {
            &&& steps[0] is Discover
            &&& steps[1] == (RunStep::Control { tracking: true })
            &&& steps[2] is Trigger
            &&& triggered ==> steps[3] is Run && steps[4] is End && result == Ok::<
                i32,
                PipelineError,
            >(code)
            &&& !triggered ==> answers_for_nothing(
                HookRoute::Monitor,
                hook@,
                *policy,
                steps[3],
                result,
            )
        },
{
    let s0 = states[0];
    if has_work_tree {
        lemma_untracked(replies[1]);
        let s1 = states[1];
        let s2 = states[2];
        let s3 = states[3];
        let r0 = replies[0];
        let r1 = replies[1];
        let r2 = replies[2];
        if triggered {
            let s4 = states[4];
            let r3 = replies[3];
        }
    }
}

/// A revision that is not there counts as nothing to run where a missing trigger
/// is allowed and the policy asks for no trusted revision; `proc-receive`
/// succeeds so only under the definition of the project. Everything else that
/// keeps a revision from being checked out is an error.
pub proof fn missing_revisions_have_nothing_to_run(
    route: HookRoute,
    hook: &str,
    policy: &Policy,
    states: Seq<HookRun>,
    steps: Seq<RunStep>,
    replies: Seq<RunReply>,
    error: HookError,
    result: Result<i32, PipelineError>,
)
    requires
        route is Bare || route is Protocol,
        call_ensures(HookRun::new, (route, hook, policy, false), states[0]),
        lets_run(*policy, hook@),
        !(route is Protocol && policy.hooks.incoming is Skip),
        follows(states, steps, replies),
        replies.len() == 1,
        replies[0] == RunReply::NotMaterialized(error),
        steps[1] is End ==> call_ensures(HookRun::finish, (states[1],), result),
    ensures
        ({
            let excused = error is InvalidRevision && policy.hooks.missing_trigger is Allow && !(
            policy.hooks.incoming is Trusted);
            &&& excused && route is Bare ==> steps[1] is End && result == Ok::<
                i32,
                PipelineError,
            >(0)
            &&& excused && route is Protocol ==> steps[1] is PassThrough
            &&& !excused ==> steps[1] is End && result is Err
        }),
{
    let s0 = states[0];
    let s1 = states[1];
    let r0 = replies[0];
    assert(policy.hooks.incoming is Trusted || policy.hooks.incoming is Skip
        || policy.hooks.incoming is Project);
}

/// Whatever goes wrong on the way is what the run fails with.
pub proof fn errors_end_a_run(
    state: HookRun,
    step: RunStep,
    error: PipelineError,
    next: HookRun,
    after: RunStep,
    result: Result<i32, PipelineError>,
)
    requires
        call_ensures(HookRun::step, (&state,), step),
        !(step is End),
        !(step is Materialize),
        call_ensures(HookRun::advance, (state, RunReply::Error(error)), next),
        call_ensures(HookRun::step, (&next,), after),
        call_ensures(HookRun::finish, (next,), result),
    ensures
        after is End,
        result is Err,
{
}

} // verus!
