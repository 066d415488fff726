//! How files are put in place.

use crate::hooks::error::HookError;
use crate::hooks::install::{InstallJob, InstallReport};
use crate::hooks::installation::{InstallPhaseModel, InstallReply, InstallStep, Installation};
use crate::hooks::ownership::{hook_path, hook_wrapper};
use crate::hooks::repository::Repository;
use crate::hooks::request::InstallMode;
use crate::hooks::transaction::{PhaseModel, StagedEntry, StepReply, Transaction, TransactionStep};
use crate::native::{lossy, HostPath};
use crate::promises::installing::{can_be_installed, in_the_way, pipeline_owns};
use vstd::prelude::*;

verus! {

/// A transaction that was advanced from one state to the next by the replies to
/// its steps.
pub open spec fn follows(
    states: Seq<Transaction>,
    steps: Seq<TransactionStep>,
    replies: Seq<StepReply>,
) -> bool {
    &&& states.len() == replies.len() + 1
    &&& steps.len() == states.len()
    &&& forall|i: int| #![trigger states[i]]
        0 <= i < states.len() ==> call_ensures(Transaction::step, (&states[i],), steps[i])
    &&& forall|i: int| #![trigger replies[i]]
        0 <= i < replies.len() ==> call_ensures(
            Transaction::advance,
            (states[i], replies[i]),
            states[i + 1],
        )
}

/// A step moves a file.
pub open spec fn moves(step: TransactionStep, from: Seq<u8>, to: Seq<u8>) -> bool {
    step matches TransactionStep::Rename { from: a, to: b } && a@ == from && b@ == to
}

/// A step looks at a file.
pub open spec fn looks_at(step: TransactionStep, path: Seq<u8>) -> bool {
    step matches TransactionStep::Inspect(at) && at@ == path
}

/// Nothing to put in place is done; otherwise the first target is looked at.
pub proof fn transactions_start_with_the_first_entry(
    entries: Vec<StagedEntry>,
    state: Transaction,
    step: TransactionStep,
)
    requires
        call_ensures(Transaction::new, (entries,), state),
        call_ensures(Transaction::step, (&state,), step),
    ensures
        entries@.len() == 0 ==> step is Commit,
        entries@.len() > 0 ==> looks_at(step, entries@[0].target@),
        state@.applied.len() == 0,
        works_on(state, entries@),
{
    let all = crate::hooks::transaction::entry_views(entries@);
    assert(all.len() == entries@.len());
    assert forall|i: int| 0 <= i < entries@.len() implies state@.entries[i]
        == (#[trigger] entries@[i])@ by {
        assert(all[i] == entries@[i]@);
    }
}

/// A transaction is about these entries.
pub open spec fn works_on(state: Transaction, entries: Seq<StagedEntry>) -> bool {
    state@.entries.len() == entries.len() && forall|i: int|
        0 <= i < entries.len() ==> state@.entries[i] == (#[trigger] entries[i])@
}

/// After an entry is in place the next target is looked at; after the last,
/// everything is.
pub open spec fn goes_on(
    state: Transaction,
    step: TransactionStep,
    entries: Seq<StagedEntry>,
    k: int,
) -> bool {
    &&& works_on(state, entries)
    &&& state@.applied.len() == k
    &&& if k < entries.len() {
        state@.phase is Inspecting && looks_at(step, entries[k].target@)
    } else {
        step is Commit
    }
}

/// Where nothing stands, the staged file is moved to its target.
pub proof fn new_files_are_moved_to_their_target(
    entries: Seq<StagedEntry>,
    states: Seq<Transaction>,
    steps: Seq<TransactionStep>,
    replies: Seq<StepReply>,
    k: int,
)
    requires
        0 <= k < entries.len(),
        goes_on(states[0], steps[0], entries, k),
        follows(states, steps, replies),
        replies.len() == 2,
        replies[0] matches StepReply::Found(file) && file.probe is Missing,
        replies[1] is Done,
    ensures
        moves(steps[1], entries[k].temporary@, entries[k].target@),
        goes_on(states[2], steps[2], entries, k + 1),
        states[2]@.applied == states[0]@.applied.push(None),
{
    let s0 = states[0];
    let s1 = states[1];
    let s2 = states[2];
    let r0 = replies[0];
    let r1 = replies[1];
    assert(s0@.entries[k] == entries[k]@);
    if k + 1 < entries.len() {
        assert(s0@.entries[k + 1] == entries[k + 1]@);
    }
}

/// What stands at a target, and may be replaced, is moved aside first.
pub proof fn replaced_files_are_moved_aside(
    entries: Seq<StagedEntry>,
    states: Seq<Transaction>,
    steps: Seq<TransactionStep>,
    replies: Seq<StepReply>,
    backup: HostPath,
    k: int,
)
    requires
        0 <= k < entries.len(),
        goes_on(states[0], steps[0], entries, k),
        follows(states, steps, replies),
        replies.len() == 4,
        replies[0] matches StepReply::Found(file) && !(file.probe is Missing) && !(file.probe
            is Unknown) && (entries[k].require_managed ==> pipeline_owns(file)),
        replies[1] == StepReply::Vacant(backup),
        replies[2] is Done,
        replies[3] is Done,
    ensures
        steps[1] matches TransactionStep::Reserve(path) && path@ == entries[k].target@,
        moves(steps[2], entries[k].target@, backup@),
        moves(steps[3], entries[k].temporary@, entries[k].target@),
        goes_on(states[4], steps[4], entries, k + 1),
        states[4]@.applied == states[0]@.applied.push(Some(backup@)),
{
    let s0 = states[0];
    let s1 = states[1];
    let s2 = states[2];
    let s3 = states[3];
    let s4 = states[4];
    let r0 = replies[0];
    let r1 = replies[1];
    let r2 = replies[2];
    let r3 = replies[3];
    assert(s0@.entries[k] == entries[k]@);
    if k + 1 < entries.len() {
        assert(s0@.entries[k + 1] == entries[k + 1]@);
    }
    let file = replies[0]->Found_0;
    crate::promises::installing::lemma_owns(file);
    assert(s1@.phase is Reserving);
}

/// What is not Pipeline's is not replaced by a hook. The transaction gives up and
/// undoes what it did.
pub proof fn foreign_files_are_not_replaced(
    entries: Seq<StagedEntry>,
    states: Seq<Transaction>,
    steps: Seq<TransactionStep>,
    replies: Seq<StepReply>,
    k: int,
)
    requires
        0 <= k < entries.len(),
        goes_on(states[0], steps[0], entries, k),
        states[0]@.undo_failures.len() == 0,
        follows(states, steps, replies),
        replies.len() == 1,
        entries[k].require_managed,
        replies[0] matches StepReply::Found(file) && in_the_way(file) && (file.probe is File
            ==> file.contents is Ok),
    ensures
        gives_up(
            states[1],
            steps[1],
            "refusing to replace or remove unmanaged hook "@ + lossy(entries[k].target@),
        ),
        states[1]@.applied == states[0]@.applied,
{
    let s0 = states[0];
    let s1 = states[1];
    let r0 = replies[0];
    assert(s0@.entries[k] == entries[k]@);
    let file = replies[0]->Found_0;
    crate::promises::installing::lemma_owns(file);
    lemma_gives_up(s1, steps[1]);
}

/// A transaction gives up for a reason: it undoes the last thing that it did, or
/// ends if there is none.
pub open spec fn gives_up(state: Transaction, step: TransactionStep, reason: Seq<char>) -> bool {
    let m = state@;
    &&& m.failure == reason
    &&& if m.applied.len() == 0 {
        step matches TransactionStep::Abort(text) && (m.undo_failures.len() == 0 ==> text@
            == reason)
    } else {
        m.phase is Undoing && match m.applied.last() {
            Some(backup) => moves(step, backup, m.entries[m.applied.len() - 1].target),
            None => step matches TransactionStep::Remove(path) && path@
                == m.entries[m.applied.len() - 1].target,
        }
    }
}

proof fn lemma_gives_up(state: Transaction, step: TransactionStep)
    requires
        call_ensures(Transaction::step, (&state,), step),
        state@.applied.len() == 0 ==> state@.phase is Aborted,
        state@.applied.len() > 0 ==> state@.phase is Undoing,
    ensures
        gives_up(state, step, state@.failure),
{
    let m = state@;
    assert(m.failure + Seq::<char>::empty() =~= m.failure);
}

/// A file that cannot be placed leaves what was moved aside to be put back, and
/// then the transaction gives up.
pub proof fn what_was_moved_aside_is_put_back(
    state: Transaction,
    step: TransactionStep,
    reason: String,
    backup: Seq<u8>,
    next: Transaction,
    after: TransactionStep,
    last: Transaction,
    end: TransactionStep,
)
    requires
        call_ensures(Transaction::step, (&state,), step),
        state@.phase == PhaseModel::Placing(Some(backup)),
        call_ensures(Transaction::advance, (state, StepReply::Failed(reason)), next),
        call_ensures(Transaction::step, (&next,), after),
        call_ensures(Transaction::advance, (next, StepReply::Done), last),
        call_ensures(Transaction::step, (&last,), end),
    ensures
        moves(
            step,
            state@.entries[state@.applied.len() as int].temporary,
            state@.entries[state@.applied.len() as int].target,
        ),
        moves(after, backup, state@.entries[state@.applied.len() as int].target),
        gives_up(last, end, reason@),
        last@.applied == state@.applied,
        last@.entries == state@.entries,
        last@.damaged == state@.damaged,
{
    lemma_gives_up(last, end);
}

/// Whatever else fails on the way, the transaction gives up.
pub proof fn failures_make_a_transaction_give_up(
    state: Transaction,
    reason: String,
    next: Transaction,
    after: TransactionStep,
)
    requires
        state@.phase is Reserving || state@.phase is SettingAside || state@.phase
            == PhaseModel::Placing(None),
        call_ensures(Transaction::advance, (state, StepReply::Failed(reason)), next),
        call_ensures(Transaction::step, (&next,), after),
    ensures
        gives_up(next, after, reason@),
        next@.applied == state@.applied,
        next@.entries == state@.entries,
{
    lemma_gives_up(next, after);
}

/// What was done is undone from the last to the first; what cannot be undone is
/// noted.
pub proof fn undoing_goes_backwards(
    state: Transaction,
    reply: StepReply,
    next: Transaction,
    after: TransactionStep,
    restored: bool,
)
    requires
        state@.phase is Undoing,
        state@.applied.len() > 0,
        reply is Done || reply is Failed || reply is Stuck,
        call_ensures(Transaction::advance, (state, reply), next),
        call_ensures(Transaction::step, (&next,), after),
        call_ensures(Transaction::restored, (&next,), restored),
    ensures
        gives_up(next, after, state@.failure),
        next@.applied == state@.applied.drop_last(),
        next@.entries == state@.entries,
        reply is Done ==> next@.undo_failures == state@.undo_failures && (restored
            <==> !state@.damaged),
        !(reply is Done) ==> next@.undo_failures.len() == state@.undo_failures.len() + 1
            && !restored,
{
    lemma_gives_up(next, after);
}

/// An installation that was advanced from one state to the next by the replies to
/// its steps.
pub open spec fn installs(
    states: Seq<Installation>,
    steps: Seq<InstallStep>,
    replies: Seq<InstallReply>,
) -> bool {
    &&& states.len() == replies.len() + 1
    &&& steps.len() == states.len()
    &&& forall|i: int| #![trigger states[i]]
        0 <= i < states.len() ==> call_ensures(Installation::step, (&states[i],), steps[i])
    &&& forall|i: int| #![trigger replies[i]]
        0 <= i < replies.len() ==> call_ensures(
            Installation::advance,
            (states[i], replies[i]),
            states[i + 1],
        )
}

/// A step stages an executable: a link to it, or a copy that everyone may read
/// and execute and only the owner may write.
pub open spec fn stages(
    step: InstallStep,
    mode: InstallMode,
    source: Seq<u8>,
    target: Seq<u8>,
) -> bool {
    match mode {
        InstallMode::Link => step matches InstallStep::StageLink { source: from, target: to }
            && from@ == source && to@ == target,
        _ => step matches InstallStep::StageCopy { source: from, target: to, mode: bits }
            && from@ == source && to@ == target && bits == 0o755,
    }
}

/// An examined executable can be installed, and its target has nothing yet.
pub open spec fn is_new(reply: InstallReply, target: Seq<u8>) -> bool {
    reply matches InstallReply::Examined { source, link } && can_be_installed(source)
        && !link.exists && !crate::native::same_path(source.canonical->Ok_0@, target)
}

/// The directories are made, then both executables are staged, Pipeline first,
/// each from where it resolves to its own place. Then every hook gets its wrapper.
pub proof fn executables_are_staged_before_hooks(
    job: InstallJob,
    states: Seq<Installation>,
    steps: Seq<InstallStep>,
    replies: Seq<InstallReply>,
    pipeline_dir: HostPath,
    hooks_dir: HostPath,
    pipeline: HostPath,
    just: HostPath,
)
    requires
        !(job.pipeline_mode is Auto),
        !(job.just_mode is Auto),
        call_ensures(Installation::new, (job,), states[0]),
        installs(states, steps, replies),
        replies.len() == 6,
        replies[0] is Done,
        replies[1] is Done,
        is_new(replies[2], pipeline@),
        replies[3] is Staged,
        is_new(replies[4], just@),
        replies[5] is Staged,
        call_ensures(Repository::pipeline_dir, (&job.repository,), pipeline_dir),
        call_ensures(Repository::hooks_dir, (&job.repository,), hooks_dir),
        call_ensures(Repository::installed_pipeline, (&job.repository,), pipeline),
        call_ensures(Repository::installed_just, (&job.repository,), just),
        job.hooks@.len() > 0,
    ensures
        steps[0] matches InstallStep::MakeDirectory(path) && path@ == pipeline_dir@,
        steps[1] matches InstallStep::MakeDirectory(path) && path@ == hooks_dir@,
        steps[2] matches InstallStep::Examine { source, target } && source@
            == job.pipeline_source@ && target@ == pipeline@,
        stages(steps[3], job.pipeline_mode, replies[2]->source.canonical->Ok_0@, pipeline@),
        steps[4] matches InstallStep::Examine { source, target } && source@ == job.just_source@
            && target@ == just@,
        stages(steps[5], job.just_mode, replies[4]->source.canonical->Ok_0@, just@),
        states[6]@.phase == InstallPhaseModel::Wrap(0),
        states[6]@.job == job,
{
    let s0 = states[0];
    let s1 = states[1];
    let s2 = states[2];
    let s3 = states[3];
    let s4 = states[4];
    let s5 = states[5];
    let s6 = states[6];
    let r0 = replies[0];
    let r1 = replies[1];
    let r2 = replies[2];
    let r3 = replies[3];
    let r4 = replies[4];
    let r5 = replies[5];
    crate::promises::installing::lemma_installable(r2->source);
    crate::promises::installing::lemma_installable(r4->source);
    assert(s2@.phase == InstallPhaseModel::Examine(false));
    assert(s3@.phase is Place);
    assert(s4@.phase == InstallPhaseModel::Examine(true));
    assert(s5@.phase is Place);
}

/// The wrapper of a hook is staged beside the path of that hook, for everyone to
/// execute; then that of the next hook is.
pub proof fn every_hook_gets_its_wrapper(
    state: Installation,
    step: InstallStep,
    temporary: HostPath,
    next: Installation,
    hook: &str,
    path: HostPath,
    wrapper: String,
    k: int,
)
    requires
        state@.phase == InstallPhaseModel::Wrap(k),
        0 <= k < state@.job.hooks@.len(),
        hook@ == state@.job.hooks@[k],
        call_ensures(hook_path, (&state@.job.repository, hook), path),
        call_ensures(hook_wrapper, (hook,), wrapper),
        call_ensures(Installation::step, (&state,), step),
        call_ensures(Installation::advance, (state, InstallReply::Staged(temporary)), next),
    ensures
        step matches InstallStep::StageWrapper { target, contents, mode } && target@ == path@
            && contents@ == wrapper@ && mode == 0o755,
        next@.job == state@.job,
        k + 1 < state@.job.hooks@.len() ==> next@.phase == InstallPhaseModel::Wrap(k + 1)
            && next@.staged.len() == state@.staged.len() + 1 && next@.staged.last().target == path@
            && next@.staged.last().temporary == temporary@ && next@.staged.last().require_managed,
        k + 1 == state@.job.hooks@.len() ==> (
        next@.phase matches InstallPhaseModel::Committing(transaction)
            && transaction.entries.len() == state@.staged.len() + 1
            && transaction.entries.last().target == path@ && transaction.entries.last().temporary
            == temporary@ && transaction.entries.last().require_managed
            && transaction.entries.drop_last() == state@.staged && transaction.applied.len() == 0),
{
    if k + 1 == state@.job.hooks@.len() {
        let grown = state@.staged.push(
            crate::hooks::installation::wrapper_entry(state@.job, k, temporary@),
        );
        assert(grown.drop_last() =~= state@.staged);
    }
}

/// An installation is done when its transaction is, and tells what was installed.
pub proof fn finished_installations_tell_what_they_did(
    state: Installation,
    step: InstallStep,
    transaction: Transaction,
    reply: StepReply,
    further: Transaction,
    inner: TransactionStep,
    next: Installation,
    after: InstallStep,
    result: Result<InstallReport, HookError>,
)
    requires
        state@.phase == InstallPhaseModel::Committing(transaction@),
        call_ensures(Installation::step, (&state,), step),
        call_ensures(Transaction::advance, (transaction, reply), further),
        call_ensures(Transaction::step, (&further,), inner),
        call_ensures(Installation::advance, (state, InstallReply::Transacted(reply)), next),
        call_ensures(Installation::step, (&next,), after),
        after is End ==> call_ensures(Installation::finish, (next,), result),
    ensures
        !(inner is Commit) && !(inner is Abort) ==> next@.phase == InstallPhaseModel::Committing(
            further@,
        ) && (after matches InstallStep::Transact(asked) && same_step(asked, inner)),
        inner is Commit ==> after is End && (result matches Ok(report) && report.hooks@
            == state@.job.hooks@ && report.pipeline_mode == state@.job.pipeline_mode
            && report.just_mode == state@.job.just_mode),
        inner matches TransactionStep::Abort(text) ==> clears_up(next, after) && (
        state@.job.pipeline_dir_existed && state@.job.hooks_dir_existed ==> after is End && (
        result matches Err(HookError::InstallTransaction(told)) && told@ == text@)),
{
}

/// Two steps are the same.
pub open spec fn same_step(a: TransactionStep, b: TransactionStep) -> bool {
    match a {
        TransactionStep::Inspect(path) => b matches TransactionStep::Inspect(p) && p@ == path@,
        TransactionStep::Reserve(path) => b matches TransactionStep::Reserve(p) && p@ == path@,
        TransactionStep::Rename { from, to } => moves(b, from@, to@),
        TransactionStep::Remove(path) => b matches TransactionStep::Remove(p) && p@ == path@,
        TransactionStep::Commit => b is Commit,
        TransactionStep::Abort(text) => b matches TransactionStep::Abort(t) && t@ == text@,
    }
}

/// The directories that were made for an installation that failed go again.
pub open spec fn clears_up(state: Installation, step: InstallStep) -> bool {
    let job = state@.job;
    if !job.pipeline_dir_existed {
        step matches InstallStep::RemoveDirectory(path) && path@
            == crate::hooks::repository::pipeline_home(job.repository)
    } else if !job.hooks_dir_existed {
        step matches InstallStep::RemoveDirectory(path) && path@
            == crate::hooks::repository::hooks_home(job.repository)
    } else {
        step is End
    }
}

/// What cannot be staged makes the installation fail, and what it made go again.
pub proof fn what_cannot_be_staged_fails(
    state: Installation,
    error: HookError,
    next: Installation,
    after: InstallStep,
)
    requires
        state@.phase is Place || state@.phase is Wrap,
        call_ensures(Installation::advance, (state, InstallReply::NotStaged(error)), next),
        call_ensures(Installation::step, (&next,), after),
    ensures
        clears_up(next, after),
        next@.job == state@.job,
{
}

/// What was made is removed one after the other, and then the installation fails.
pub proof fn cleared_up_installations_fail(
    state: Installation,
    step: InstallStep,
    reply: InstallReply,
    next: Installation,
    after: InstallStep,
    result: Result<InstallReport, HookError>,
)
    requires
        call_ensures(Installation::step, (&state,), step),
        step is RemoveDirectory,
        reply is Done || reply is Refused,
        call_ensures(Installation::advance, (state, reply), next),
        call_ensures(Installation::step, (&next,), after),
        after is End ==> call_ensures(Installation::finish, (next,), result),
    ensures
        after is End ==> result is Err,
        after is End || (after matches InstallStep::RemoveDirectory(path) && path@
            == crate::hooks::repository::hooks_home(state@.job.repository)
            && !state@.job.hooks_dir_existed),
{
}

} // verus!
