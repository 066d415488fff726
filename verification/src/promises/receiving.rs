//! What becomes of commits that come in.

use crate::definition::project::Project;
use crate::dispatch::candidates::{
    hook_targets, hook_trigger, CandidatePhaseView, CandidateReply, CandidateRun, CandidateStep,
    HookTargets, Trigger,
};
use crate::dispatch::execute::{ExecutePhaseView, ExecuteReply, ExecuteStep, Execution};
use crate::dispatch::receive::{
    receive_success, Acceptance, ReceivePhaseView, ReceiveReply, ReceiveRun, ReceiveStep,
};
use crate::dispatch::{combined_code, exit_code, runs_together};
use crate::error::PipelineError;
use crate::hooks::repository::Repository;
use crate::native::{native_text_round_trip, NativeText};
use crate::policy::Policy;
use crate::promises::dispatching::lets_run;
use vstd::prelude::*;
use vstd::utf8::encode_utf8;

verus! {

/// One step of a run over what comes in.
pub open spec fn goes_on(
    state: ReceiveRun,
    step: ReceiveStep,
    reply: ReceiveReply,
    next: ReceiveRun,
    after: ReceiveStep,
) -> bool {
    &&& call_ensures(ReceiveRun::step, (&state,), step)
    &&& call_ensures(ReceiveRun::advance, (state, reply), next)
    &&& call_ensures(ReceiveRun::step, (&next,), after)
}

/// Hooks that are not let run, and those of a policy that skips what comes in,
/// accept at once. All others read what comes in.
pub proof fn pushes_are_read_unless_skipped(
    hook: &str,
    policy: &Policy,
    state: ReceiveRun,
    step: ReceiveStep,
)
    requires
        call_ensures(ReceiveRun::new, (hook, policy), state),
        call_ensures(ReceiveRun::step, (&state,), step),
    ensures
        step is Accept <==> !lets_run(*policy, hook@) || policy.hooks.incoming is Skip,
        step is Read <==> lets_run(*policy, hook@) && !(policy.hooks.incoming is Skip),
{
}

/// Nothing new is accepted. Under a trusted policy the trusted revision is looked
/// at first, otherwise the first commit is.
pub proof fn commits_are_looked_at_in_order(
    hook: &str,
    policy: &Policy,
    state: ReceiveRun,
    step: ReceiveStep,
    commits: Vec<String>,
    next: ReceiveRun,
    after: ReceiveStep,
)
    requires
        call_ensures(ReceiveRun::new, (hook, policy), state),
        lets_run(*policy, hook@),
        policy.hooks.incoming is Trusted ==> policy.hooks.trusted_ref is Some,
        step is Read,
        goes_on(state, step, ReceiveReply::Commits(commits), next, after),
    ensures
        commits@.len() == 0 ==> after is Accept,
        commits@.len() > 0 && policy.hooks.incoming is Trusted ==> (
        after matches ReceiveStep::TrustedTree(revision) && revision@
            == policy.hooks.trusted_ref->Some_0@),
        commits@.len() > 0 && !(policy.hooks.incoming is Trusted) ==> (
        after matches ReceiveStep::Tree(commit) && commit@ == commits@[0]@),
        works_on(next, hook@, *policy, commits@),
        next@.candidates.len() == 0,
{
    if commits@.len() > 0 {
        assert(crate::text::views(commits@)[0] == commits@[0]@);
    }
    assert forall|i: int| 0 <= i < commits@.len() implies next@.commits[i]
        == (#[trigger] commits@[i])@ by {
        assert(crate::text::views(commits@)[i] == commits@[i]@);
    }
}

/// A run is about this hook and these commits, under this policy.
pub open spec fn works_on(
    state: ReceiveRun,
    hook: Seq<char>,
    policy: Policy,
    commits: Seq<String>,
) -> bool {
    let m = state@;
    &&& m.hook == hook
    &&& m.missing_allowed <==> policy.hooks.missing_trigger is Allow
    &&& m.parallel == policy.hooks.parallel_refs
    &&& m.trusted is Some <==> policy.hooks.incoming is Trusted
    &&& m.commits.len() == commits.len()
    &&& forall|i: int| 0 <= i < commits.len() ==> m.commits[i] == (#[trigger] commits[i])@
}

/// Nothing that a run is about changes on the way, and nothing that was found is
/// lost.
pub proof fn runs_stay_with_their_commits(
    state: ReceiveRun,
    reply: ReceiveReply,
    next: ReceiveRun,
    hook: Seq<char>,
    policy: Policy,
    commits: Seq<String>,
)
    requires
        works_on(state, hook, policy, commits),
        !(reply is Commits),
        call_ensures(ReceiveRun::advance, (state, reply), next),
    ensures
        works_on(next, hook, policy, commits),
        next@.candidates == state@.candidates || exists|i: int|
            next@.candidates == state@.candidates.push(i),
{
}

/// A commit is checked out. Without a trusted revision its own definition is
/// looked for and controlled, and it becomes a candidate. Where it has none, that
/// is let pass or ends the run with a message that names hook and commit.
pub proof fn commits_bring_their_own_definition(
    states: Seq<ReceiveRun>,
    steps: Seq<ReceiveStep>,
    found: bool,
    i: int,
    result: Result<i32, PipelineError>,
)
    requires
        states.len() == 4,
        steps.len() == 4,
        states[0]@.phase == ReceivePhaseView::Tree(i),
        0 <= i < states[0]@.commits.len(),
        states[0]@.trusted is None,
        goes_on(states[0], steps[0], ReceiveReply::Done, states[1], steps[1]),
        goes_on(states[1], steps[1], ReceiveReply::Answer(found), states[2], steps[2]),
        found ==> goes_on(states[2], steps[2], ReceiveReply::Done, states[3], steps[3]),
        steps[2] is End ==> call_ensures(ReceiveRun::finish, (states[2],), result),
    ensures
        steps[0] matches ReceiveStep::Tree(commit) && commit@ == states[0]@.commits[i],
        steps[1] is Discover,
        found ==> steps[2] is Control && states[3]@.candidates == states[0]@.candidates.push(i)
            && goes_to(states[3], steps[3], i + 1),
        !found && states[0]@.missing_allowed ==> states[2]@.candidates == states[0]@.candidates
            && goes_to(states[2], steps[2], i + 1),
        !found && !states[0]@.missing_allowed ==> steps[2] is End && (result matches Err(
            PipelineError::Message(text),
        ) && text@ == "no Pipeline definition found for "@ + states[0]@.hook + " at commit "@
            + states[0]@.commits[i]),
{
}

/// A run goes on with a commit, or runs what it found if that was the last.
pub open spec fn goes_to(state: ReceiveRun, step: ReceiveStep, i: int) -> bool {
    if i < state@.commits.len() {
        state@.phase == ReceivePhaseView::Tree(i) && (step matches ReceiveStep::Tree(commit)
            && commit@ == state@.commits[i])
    } else {
        step is Run
    }
}

/// With a trusted revision, its definition is looked for and controlled once, and
/// then counts for every commit that is checked out.
pub proof fn trusted_definitions_count_for_every_commit(
    states: Seq<ReceiveRun>,
    steps: Seq<ReceiveStep>,
    found: bool,
)
    requires
        states.len() == 5,
        steps.len() == 5,
        steps[0] is TrustedTree,
        states[0]@.commits.len() > 0,
        states[0]@.trusted is Some,
        goes_on(states[0], steps[0], ReceiveReply::Done, states[1], steps[1]),
        goes_on(states[1], steps[1], ReceiveReply::Answer(found), states[2], steps[2]),
        found ==> goes_on(states[2], steps[2], ReceiveReply::Done, states[3], steps[3]),
        !found ==> states[3] == states[2] && steps[3] == steps[2],
        goes_on(states[3], steps[3], ReceiveReply::Done, states[4], steps[4]),
    ensures
        Some(steps[0]->TrustedTree_0@) == states[0]@.trusted,
        steps[1] is TrustedDiscover,
        found ==> steps[2] is TrustedControl,
        goes_to(states[3], steps[3], 0),
        found ==> states[4]@.candidates == states[0]@.candidates.push(0) && goes_to(
            states[4],
            steps[4],
            1,
        ),
        !found && states[0]@.missing_allowed ==> states[4]@.candidates == states[0]@.candidates
            && goes_to(states[4], steps[4], 1),
        !found && !states[0]@.missing_allowed ==> steps[4] is End,
{
}

/// What runs are the candidates, in the order of their commits, side by side if
/// the policy says so. A run that fails decides; one that succeeds is accepted.
pub proof fn candidates_decide(
    state: ReceiveRun,
    step: ReceiveStep,
    code: i32,
    next: ReceiveRun,
    after: ReceiveStep,
    accepted: i32,
    last: ReceiveRun,
    end: ReceiveStep,
    result: Result<i32, PipelineError>,
)
    requires
        step is Run,
        goes_on(state, step, ReceiveReply::Code(code), next, after),
        code == 0 ==> goes_on(next, after, ReceiveReply::Code(accepted), last, end),
        code != 0 ==> last == next && end == after,
        end is End ==> call_ensures(ReceiveRun::finish, (last,), result),
    ensures
        step->candidates@.len() == state@.candidates.len(),
        forall|k: int|
            0 <= k < step->candidates@.len() ==> (#[trigger] step->candidates@[k]).commit
                == state@.candidates[k] && (step->candidates@[k].trusted <==> state@.trusted
                is Some),
        step->parallel == state@.parallel,
        code == 0 ==> after is Accept,
        end is End,
        result == Ok::<i32, PipelineError>(
            if code != 0 {
                code
            } else {
                accepted
            },
        ),
{
    let list = step->candidates@;
    let views = crate::dispatch::receive::chosen_views(list);
    let wanted = crate::dispatch::receive::chosen(state@);
    assert(views == wanted);
    assert(views.len() == list.len());
    assert(wanted.len() == state@.candidates.len());
    assert forall|k: int| 0 <= k < list.len() implies (#[trigger] list[k]).commit
        == state@.candidates[k] && (list[k].trusted <==> state@.trusted is Some) by {
        assert(views[k] == (list[k].commit as int, list[k].trusted));
        assert(wanted[k] == (state@.candidates[k], state@.trusted is Some));
    }
}

/// What goes wrong ends the run.
pub proof fn errors_end_what_comes_in(
    state: ReceiveRun,
    reply: ReceiveReply,
    next: ReceiveRun,
    after: ReceiveStep,
    result: Result<i32, PipelineError>,
)
    requires
        reply is Error || reply is NotMaterialized,
        !(state@.phase is Done) && !(state@.phase is Failed),
        call_ensures(ReceiveRun::advance, (state, reply), next),
        call_ensures(ReceiveRun::step, (&next,), after),
        call_ensures(ReceiveRun::finish, (next,), result),
    ensures
        after is End,
        result is Err,
{
}

/// Only `push-to-checkout` leaves something to do: Git brings the worktree from
/// the current commit to the one that is pushed.
pub proof fn accepted_checkouts_update_the_worktree(
    repository: &Repository,
    hook: &str,
    arguments: &Vec<NativeText>,
    git_dir: Seq<char>,
    work_tree: Seq<char>,
    result: Result<Acceptance, PipelineError>,
)
    requires
        call_ensures(receive_success, (repository, hook, arguments), result),
        repository.git_dir@ == encode_utf8(git_dir),
        repository.work_tree matches Some(tree) ==> tree@ == encode_utf8(work_tree),
    ensures
        hook@ != "push-to-checkout"@ ==> (result matches Ok(Acceptance::Nothing)),
        hook@ == "push-to-checkout"@ ==> (result is Ok <==> repository.work_tree is Some
            && arguments@.len() > 0),
        hook@ == "push-to-checkout"@ && result is Ok ==> (result matches Ok(
            Acceptance::Update(list),
        ) && list@.len() == 7 && list@[0]@ == encode_utf8("--git-dir="@ + git_dir) && list@[1]@
            == encode_utf8("--work-tree="@ + work_tree) && list@[2]@ == encode_utf8("read-tree"@)
            && list@[3]@ == encode_utf8("-u"@) && list@[4]@ == encode_utf8("-m"@) && list@[5]@
            == encode_utf8("HEAD"@) && list@[6]@ == arguments@[0]@),
{
    native_text_round_trip(git_dir);
    native_text_round_trip(work_tree);
    if let Ok(Acceptance::Update(list)) = result {
        let all = crate::native::native_views(list@);
        assert(all.len() == list@.len());
        if hook@ == "push-to-checkout"@ {
            assert(crate::native::native_views(arguments@)[0] == arguments@[0]@);
            assert(all[0] == list@[0]@);
            assert(all[1] == list@[1]@);
            assert(all[2] == list@[2]@);
            assert(all[3] == list@[3]@);
            assert(all[4] == list@[4]@);
            assert(all[5] == list@[5]@);
            assert(all[6] == list@[6]@);
        }
    }
}

/// One step of an execution.
pub open spec fn executes(
    state: Execution,
    step: ExecuteStep,
    reply: ExecuteReply,
    next: Execution,
    after: ExecuteStep,
) -> bool {
    &&& call_ensures(Execution::step, (&state,), step)
    &&& call_ensures(Execution::advance, (state, reply), next)
    &&& call_ensures(Execution::step, (&next,), after)
}

/// Nothing succeeds. One run goes alone; several go side by side only if that is
/// wanted, and each way starts with the first.
pub proof fn executions_start_with_the_first(
    parallel: bool,
    count: usize,
    state: Execution,
    step: ExecuteStep,
    together: bool,
    result: Result<i32, PipelineError>,
)
    requires
        call_ensures(Execution::new, (parallel, count), state),
        call_ensures(Execution::step, (&state,), step),
        call_ensures(runs_together, (parallel, count), together),
        step is End ==> call_ensures(Execution::finish, (state,), result),
    ensures
        count == 0 ==> step is End && result == Ok::<i32, PipelineError>(0),
        count == 1 ==> step == ExecuteStep::Run(0),
        count > 1 && !parallel ==> step == ExecuteStep::Run(0),
        count > 1 && parallel ==> step == ExecuteStep::Start(0),
        together <==> parallel && count > 1,
        state@.count == count && state@.codes.len() == 0,
{
}

/// One after the other: the first that fails is the last, and its code counts.
pub proof fn one_after_the_other_stops_at_a_failure(
    state: Execution,
    step: ExecuteStep,
    code: i32,
    next: Execution,
    after: ExecuteStep,
    result: Result<i32, PipelineError>,
)
    requires
        step is Run,
        executes(state, step, ExecuteReply::Code(code), next, after),
        after is End ==> call_ensures(Execution::finish, (next,), result),
    ensures
        next@.count == state@.count,
        code != 0 ==> after is End && result == Ok::<i32, PipelineError>(code),
        code == 0 && step->Run_0 + 1 < state@.count ==> (after matches ExecuteStep::Run(i) && i
            == step->Run_0 + 1),
        code == 0 && step->Run_0 + 1 >= state@.count ==> after is End && result == Ok::<
            i32,
            PipelineError,
        >(0),
{
}

/// Side by side: all are started in order, and then all are waited for in order.
pub proof fn side_by_side_all_are_started_first(
    state: Execution,
    step: ExecuteStep,
    next: Execution,
    after: ExecuteStep,
)
    requires
        step is Start,
        executes(state, step, ExecuteReply::Started, next, after),
    ensures
        next@.count == state@.count,
        next@.codes == state@.codes,
        step->Start_0 + 1 < state@.count ==> (after matches ExecuteStep::Start(i) && i
            == step->Start_0 + 1),
        step->Start_0 + 1 >= state@.count ==> (after matches ExecuteStep::Wait(i) && i
            == state@.codes.len()),
{
}

/// The code of runs side by side is that of the first in order that failed.
pub proof fn the_first_failure_counts(
    state: Execution,
    step: ExecuteStep,
    code: i32,
    next: Execution,
    after: ExecuteStep,
    result: Result<i32, PipelineError>,
    k: int,
)
    requires
        step is Wait,
        executes(state, step, ExecuteReply::Code(code), next, after),
        after is End ==> call_ensures(Execution::finish, (next,), result),
    ensures
        next@.count == state@.count,
        next@.codes == state@.codes.push(code),
        next@.codes.len() < state@.count ==> (after matches ExecuteStep::Wait(i) && i
            == next@.codes.len()),
        next@.codes.len() >= state@.count ==> after is End && (result matches Ok(total) && {
            &&& (forall|i: int| 0 <= i < next@.codes.len() ==> #[trigger] next@.codes[i] == 0)
                ==> total == 0
            &&& 0 <= k < next@.codes.len() && next@.codes[k] != 0 && (forall|i: int|
                0 <= i < k ==> #[trigger] next@.codes[i] == 0) ==> total == next@.codes[k]
        }),
{
    lemma_first_failure(next@.codes, k);
}

/// Of several codes the first that is not zero counts.
pub proof fn codes_are_combined(codes: &Vec<i32>, code: i32, k: int)
    requires
        call_ensures(combined_code, (codes,), code),
    ensures
        (forall|i: int| 0 <= i < codes@.len() ==> #[trigger] codes@[i] == 0) ==> code == 0,
        0 <= k < codes@.len() && codes@[k] != 0 && (forall|i: int|
            0 <= i < k ==> #[trigger] codes@[i] == 0) ==> code == codes@[k],
{
    lemma_first_failure(codes@, k);
}

proof fn lemma_first_failure(codes: Seq<i32>, k: int)
    ensures
        (forall|i: int| 0 <= i < codes.len() ==> #[trigger] codes[i] == 0)
            ==> crate::dispatch::first_failure(codes) == 0,
        0 <= k < codes.len() && codes[k] != 0 && (forall|i: int|
            0 <= i < k ==> #[trigger] codes[i] == 0) ==> crate::dispatch::first_failure(codes)
            == codes[k],
    decreases codes.len(),
{
    if codes.len() > 0 {
        let rest = codes.drop_first();
        lemma_first_failure(rest, k - 1);
        if forall|i: int| 0 <= i < codes.len() ==> #[trigger] codes[i] == 0 {
            assert(codes[0] == 0);
            assert forall|i: int| 0 <= i < rest.len() implies #[trigger] rest[i] == 0 by {
                assert(codes[i + 1] == 0);
            }
        }
        if 0 < k < codes.len() && codes[k] != 0 && (forall|i: int|
            0 <= i < k ==> #[trigger] codes[i] == 0) {
            assert(codes[0] == 0);
            assert(rest[k - 1] == codes[k]);
            assert forall|i: int| 0 <= i < k - 1 implies #[trigger] rest[i] == 0 by {
                assert(codes[i + 1] == 0);
            }
        }
    }
}

/// Where one cannot be started, those that were are waited for, and then that is
/// the error.
pub proof fn what_was_started_is_waited_for(
    state: Execution,
    step: ExecuteStep,
    error: PipelineError,
    next: Execution,
    after: ExecuteStep,
    result: Result<i32, PipelineError>,
)
    requires
        step is Start,
        executes(state, step, ExecuteReply::NotStarted(error), next, after),
        after is End ==> call_ensures(Execution::finish, (next,), result),
    ensures
        step->Start_0 == 0 ==> after is End && result is Err,
        step->Start_0 > 0 ==> after == ExecuteStep::Reap(0) && (
        next@.phase matches ExecutePhaseView::Reap { index, started, failure } && started
            == step->Start_0),
{
}

/// Those that were started are waited for in order, and then the execution fails.
pub proof fn reaping_ends_with_the_error(
    state: Execution,
    step: ExecuteStep,
    next: Execution,
    after: ExecuteStep,
    result: Result<i32, PipelineError>,
)
    requires
        state@.phase is Reap,
        executes(state, step, ExecuteReply::Reaped, next, after),
        after is End ==> call_ensures(Execution::finish, (next,), result),
    ensures
        step matches ExecuteStep::Reap(i) && i == state@.phase->index,
        step->Reap_0 + 1 < state@.phase->started ==> (after matches ExecuteStep::Reap(i) && i
            == step->Reap_0 + 1) && (next@.phase matches ExecutePhaseView::Reap {
            index,
            started,
            failure,
        } && started == state@.phase->started),
        step->Reap_0 + 1 >= state@.phase->started ==> after is End && result is Err,
{
}

/// A process that a signal ended has the code of that signal after 128.
pub proof fn signals_have_codes_of_their_own(code: Option<i32>, signal: Option<i32>, result: i32)
    requires
        code is None ==> (signal matches Some(number) ==> number <= i32::MAX - 128),
        call_ensures(exit_code, (code, signal), result),
    ensures
        code matches Some(own) ==> result == own,
        code is None ==> (signal matches Some(number) ==> result - number == 128),
        code is None && signal is None ==> result == 129,
{
}

/// A Pipelinefile is asked for its recipe; a YAML definition has what it selects
/// for the hook. Having nothing is let pass or is an error that names the hook.
pub proof fn definitions_have_what_they_select(
    project: &Project,
    hook: &str,
    missing_allowed: bool,
    targets: Result<HookTargets, PipelineError>,
    trigger: Result<Trigger, PipelineError>,
    selection: Result<
        crate::definition::selection::Selection,
        crate::definition::error::DefinitionError,
    >,
)
    requires
        call_ensures(hook_targets, (project, hook, missing_allowed), targets),
        call_ensures(hook_trigger, (project, hook), trigger),
        project@.config is Some ==> call_ensures(
            Project::selection_for_hook,
            (project, hook),
            selection,
        ),
    ensures
        project@.config is None ==> (targets matches Ok(HookTargets::Recipe)) && (trigger matches Ok(
            Trigger::Recipe,
        )),
        project@.config is Some && selection is Err ==> targets is Err && trigger is Err,
        project@.config is Some && selection is Ok && selection->Ok_0@.len() > 0 ==> (
        targets matches Ok(HookTargets::Selected(list)) && list@ == selection->Ok_0@) && trigger
            == Ok::<Trigger, PipelineError>(Trigger::Known(true)),
        project@.config is Some && selection is Ok && selection->Ok_0@.len() == 0 ==> trigger
            == Ok::<Trigger, PipelineError>(Trigger::Known(false)) && if missing_allowed {
            targets matches Ok(HookTargets::Nothing)
        } else {
            targets matches Err(PipelineError::Message(text)) && text@
                == "no Pipeline trigger is declared for Git hook `"@ + hook@ + "`"@
        },
{
    let view = crate::dispatch::candidates::targets_view(targets);
    if let Err(error) = targets {
        assert(view is Err);
    }
}

/// One step of a run of candidates.
pub open spec fn tries(
    state: CandidateRun,
    step: CandidateStep,
    reply: CandidateReply,
    next: CandidateRun,
    after: CandidateStep,
) -> bool {
    &&& call_ensures(CandidateRun::step, (&state,), step)
    &&& call_ensures(CandidateRun::advance, (state, reply), next)
    &&& call_ensures(CandidateRun::step, (&next,), after)
}

/// A candidate is prepared and the next is looked at; after the last, what is
/// prepared is executed, and its code counts.
pub proof fn prepared_candidates_are_executed(
    state: CandidateRun,
    step: CandidateStep,
    next: CandidateRun,
    after: CandidateStep,
    code: i32,
    last: CandidateRun,
    end: CandidateStep,
    result: Result<i32, PipelineError>,
    k: int,
)
    requires
        state@.phase == CandidatePhaseView::Prepare(k),
        0 <= k < state@.picked.len(),
        state@.prepared >= 0,
        tries(state, step, CandidateReply::Done, next, after),
        after is Execute ==> tries(next, after, CandidateReply::Code(code), last, end)
            && call_ensures(CandidateRun::finish, (last,), result),
    ensures
        step matches CandidateStep::Prepare(n) && n == state@.picked[k].candidate,
        next@.prepared == state@.prepared + 1,
        next@.picked == state@.picked,
        k + 1 < state@.picked.len() ==> looks_at(next, after, k + 1),
        k + 1 >= state@.picked.len() ==> after is Execute && end is End && result == Ok::<
            i32,
            PipelineError,
        >(code),
{
}

/// A candidate is prepared if it has a selection; otherwise Just is asked whether
/// it has the recipe.
pub open spec fn looks_at(state: CandidateRun, step: CandidateStep, k: int) -> bool {
    if state@.picked[k].selection is None {
        step matches CandidateStep::Inspect(n) && n == state@.picked[k].candidate
    } else {
        step matches CandidateStep::Prepare(n) && n == state@.picked[k].candidate
    }
}

/// A candidate without the recipe is left out where that is allowed; otherwise
/// the run fails and names the hook.
pub proof fn candidates_without_the_recipe_are_left_out(
    state: CandidateRun,
    step: CandidateStep,
    known: bool,
    next: CandidateRun,
    after: CandidateStep,
    result: Result<i32, PipelineError>,
    k: int,
)
    requires
        state@.phase == CandidatePhaseView::Inspect(k),
        0 <= k < state@.picked.len(),
        tries(state, step, CandidateReply::Answer(known), next, after),
        after is End ==> call_ensures(CandidateRun::finish, (next,), result),
    ensures
        step matches CandidateStep::Inspect(n) && n == state@.picked[k].candidate,
        next@.prepared == state@.prepared,
        known ==> (after matches CandidateStep::Prepare(n) && n == state@.picked[k].candidate),
        !known && !state@.missing_allowed ==> after is End && (result matches Err(
            PipelineError::Message(text),
        ) && text@ == "no Pipeline trigger is declared for Git hook `"@ + state@.hook + "`"@),
        !known && state@.missing_allowed && k + 1 < state@.picked.len() ==> looks_at(
            next,
            after,
            k + 1,
        ),
        !known && state@.missing_allowed && k + 1 >= state@.picked.len() && state@.prepared > 0
            ==> after is Execute,
        !known && state@.missing_allowed && k + 1 >= state@.picked.len() && state@.prepared == 0
            ==> after is End && result == Ok::<i32, PipelineError>(0),
{
}

/// A Just executable is looked for only if some candidate has something to run.
pub proof fn just_is_looked_for_only_if_needed(
    hook: &str,
    missing_allowed: bool,
    projects: &Vec<&Project>,
    state: CandidateRun,
    step: CandidateStep,
    next: CandidateRun,
    after: CandidateStep,
    result: Result<i32, PipelineError>,
)
    requires
        call_ensures(CandidateRun::new, (hook, missing_allowed, projects), state),
        call_ensures(CandidateRun::step, (&state,), step),
        step is Resolve ==> tries(state, step, CandidateReply::Done, next, after),
        step is End ==> call_ensures(CandidateRun::finish, (state,), result),
    ensures
        step is Resolve || step is End,
        step is Resolve ==> state@.picked.len() > 0 && looks_at(next, after, 0),
        step is End && result is Ok ==> missing_allowed && result == Ok::<i32, PipelineError>(0),
        state@.hook == hook@,
        state@.missing_allowed == missing_allowed,
        projects@.len() == 0 ==> step is End,
{
}

} // verus!
