//! What a transaction does to the files, whatever fails on the way.

use crate::hooks::ownership::{managed, present};
use crate::hooks::transaction::{
    after, consistent, failed, fits, next_step, started, EntryModel, PhaseModel, StepModel,
    StepReply, TransactionModel,
};
use vstd::prelude::*;

verus! {

/// The files of a system: each path with what stands there.
pub type Files = Map<Seq<u8>, int>;

/// Both have the same at a path: the same thing, or nothing.
pub open spec fn same_at(a: Files, b: Files, path: Seq<u8>) -> bool {
    &&& a.contains_key(path) == b.contains_key(path)
    &&& a.contains_key(path) ==> a[path] == b[path]
}

/// The files after a move.
pub open spec fn moved(files: Files, from: Seq<u8>, to: Seq<u8>) -> Files {
    files.remove(from).insert(to, files[from])
}

pub open spec fn is_target(entries: Seq<EntryModel>, path: Seq<u8>) -> bool {
    exists|k: int| 0 <= k < entries.len() && #[trigger] entries[k].target == path
}

pub open spec fn is_temporary(entries: Seq<EntryModel>, path: Seq<u8>) -> bool {
    exists|k: int| 0 <= k < entries.len() && #[trigger] entries[k].temporary == path
}

/// No target and no temporary file is used twice, and all that is staged is
/// there.
pub open spec fn well_staged(entries: Seq<EntryModel>, files: Files) -> bool {
    &&& forall|i: int, j: int|
        0 <= i < j < entries.len() ==> #[trigger] entries[i].target != #[trigger] entries[j].target
    &&& forall|i: int, j: int|
        0 <= i < j < entries.len() ==> #[trigger] entries[i].temporary
            != #[trigger] entries[j].temporary
    &&& forall|i: int, j: int|
        0 <= i < entries.len() && 0 <= j < entries.len() ==> #[trigger] entries[i].target
            != #[trigger] entries[j].temporary
    &&& forall|i: int|
        0 <= i < entries.len() ==> files.contains_key(#[trigger] entries[i].temporary)
}

/// The reply tells the truth about a step, and the step changed the files from
/// `before` to `now`: a step that failed changed nothing, and a vacant path is
/// one where nothing stands and nothing is to go.
pub open spec fn happens(
    m: TransactionModel,
    before: Files,
    reply: StepReply,
    now: Files,
) -> bool {
    &&& fits(m, reply)
    &&& match (next_step(m), reply) {
        (StepModel::Inspect(target), StepReply::Found(file)) => now == before && present(file.probe)
            == before.contains_key(target),
        (StepModel::Reserve(_), StepReply::Vacant(path)) => now == before
            && !before.contains_key(path@) && !is_target(m.entries, path@) && !is_temporary(
            m.entries,
            path@,
        ),
        (StepModel::Rename(from, to), StepReply::Done) => before.contains_key(from) && now == moved(
            before,
            from,
            to,
        ),
        (StepModel::Remove(target), StepReply::Done) => now == before.remove(target),
        _ => now == before,
    }
}

/// A backup holds what stood at a target at first.
pub open spec fn keeps(
    entries: Seq<EntryModel>,
    k: int,
    backup: Option<Seq<u8>>,
    first: Files,
    now: Files,
) -> bool {
    match backup {
        Some(path) => {
            &&& first.contains_key(entries[k].target)
            &&& now.contains_key(path)
            &&& now[path] == first[entries[k].target]
            &&& !first.contains_key(path)
            &&& !is_target(entries, path)
            &&& !is_temporary(entries, path)
        },
        None => !first.contains_key(entries[k].target),
    }
}

/// The backup that the current entry has, if it has one.
pub open spec fn current_backup(m: TransactionModel) -> Option<Seq<u8>> {
    match m.phase {
        PhaseModel::Placing(backup) => backup,
        PhaseModel::PuttingBack(path) => Some(path),
        _ => None,
    }
}

/// All that is known of the files while a transaction runs, against the files
/// at first.
pub open spec fn books(m: TransactionModel, first: Files, now: Files) -> bool {
    let i = m.applied.len() as int;
    let entries = m.entries;
    &&& consistent(m)
    &&& well_staged(entries, first)
    // What is applied stands at its target, and what it replaced is kept.
    &&& forall|k: int|
        0 <= k < i ==> now.contains_key(#[trigger] entries[k].target) && now[entries[k].target]
            == first[entries[k].temporary]
    &&& forall|k: int| 0 <= k < i ==> keeps(entries, k, #[trigger] m.applied[k], first, now)
    // No backup serves twice.
    &&& forall|k: int, l: int|
        0 <= k < l < i && m.applied[k] is Some ==> #[trigger] m.applied[k]
            != #[trigger] m.applied[l]
    &&& forall|k: int|
        0 <= k < i && current_backup(m) is Some ==> #[trigger] m.applied[k] != current_backup(m)
    // Unrelated files stay as they were.
    &&& forall|path: Seq<u8>|
        first.contains_key(path) && !is_target(entries, path) && !is_temporary(entries, path)
            ==> #[trigger] now.contains_key(path) && now[path] == first[path]
    &&& match m.phase {
        PhaseModel::Inspecting => untouched_from(m, i, first, now) && staged_from(m, i, first, now)
            && !m.damaged,
        PhaseModel::Reserving => untouched_from(m, i, first, now) && staged_from(m, i, first, now)
            && now.contains_key(entries[i].target) && !m.damaged,
        PhaseModel::SettingAside(path) => untouched_from(m, i, first, now) && staged_from(
            m,
            i,
            first,
            now,
        ) && now.contains_key(entries[i].target) && !now.contains_key(path) && !is_target(
            entries,
            path,
        ) && !is_temporary(entries, path) && !m.damaged,
        PhaseModel::Placing(backup) => untouched_from(m, i + 1, first, now) && staged_from(
            m,
            i,
            first,
            now,
        ) && !now.contains_key(entries[i].target) && keeps(entries, i, backup, first, now)
            && !m.damaged,
        PhaseModel::PuttingBack(path) => untouched_from(m, i + 1, first, now) && !now.contains_key(
            entries[i].target,
        ) && keeps(entries, i, Some(path), first, now) && !m.damaged,
        PhaseModel::Undoing => !m.damaged ==> untouched_from(m, i, first, now),
        PhaseModel::Committed => !m.damaged,
        PhaseModel::Aborted => !m.damaged ==> untouched_from(m, 0, first, now),
    }
}

/// The targets from `k` on are as they were.
pub open spec fn untouched_from(m: TransactionModel, k: int, first: Files, now: Files) -> bool {
    forall|j: int| k <= j < m.entries.len() ==> same_at(first, now, #[trigger] m.entries[j].target)
}

/// The staged files from `k` on wait where they were.
pub open spec fn staged_from(m: TransactionModel, k: int, first: Files, now: Files) -> bool {
    forall|j: int|
        k <= j < m.entries.len() ==> now.contains_key(#[trigger] m.entries[j].temporary)
            && now[m.entries[j].temporary] == first[m.entries[j].temporary]
}

/// A transaction starts with its books in order.
pub proof fn a_transaction_starts_clean(entries: Seq<EntryModel>, files: Files)
    requires
        well_staged(entries, files),
    ensures
        books(started(entries), files, files),
{
}

/// Every step keeps the books in order, whether it succeeds or fails.
#[verifier::rlimit(60)]
pub proof fn every_step_keeps_the_books(
    m: TransactionModel,
    first: Files,
    before: Files,
    reply: StepReply,
    now: Files,
)
    requires
        books(m, first, before),
        happens(m, before, reply, now),
    ensures
        books(after(m, reply), first, now),
{
    let i = m.applied.len() as int;
    let entries = m.entries;
    match m.phase {
        PhaseModel::Inspecting => {},
        PhaseModel::Reserving => {},
        PhaseModel::SettingAside(path) => {
            lemma_set_aside(m, first, before, reply, now, path);
        },
        PhaseModel::Placing(_) => {
            lemma_place(m, first, before, reply, now);
        },
        PhaseModel::PuttingBack(path) => {
            lemma_put_back(m, first, before, reply, now, path);
        },
        PhaseModel::Undoing => {
            lemma_undo(m, first, before, reply, now);
        },
        _ => {},
    }
}

proof fn lemma_set_aside(
    m: TransactionModel,
    first: Files,
    before: Files,
    reply: StepReply,
    now: Files,
    path: Seq<u8>,
)
    requires
        m.phase == PhaseModel::SettingAside(path),
        books(m, first, before),
        happens(m, before, reply, now),
    ensures
        books(after(m, reply), first, now),
{
    let i = m.applied.len() as int;
    let entries = m.entries;
    if reply is Done {
        let target = entries[i].target;
        assert(is_target(entries, target));
        assert(!first.contains_key(path));
        assert forall|k: int| 0 <= k < i implies #[trigger] m.applied[k] != Some(path) by {
            assert(keeps(entries, k, m.applied[k], first, before));
        }
        assert forall|k: int| 0 <= k < i implies keeps(
            entries,
            k,
            #[trigger] m.applied[k],
            first,
            now,
        ) by {
            assert(keeps(entries, k, m.applied[k], first, before));
        }
    }
}

proof fn lemma_place(
    m: TransactionModel,
    first: Files,
    before: Files,
    reply: StepReply,
    now: Files,
)
    requires
        m.phase is Placing,
        books(m, first, before),
        happens(m, before, reply, now),
    ensures
        books(after(m, reply), first, now),
{
    let i = m.applied.len() as int;
    let entries = m.entries;
    let backup = m.phase->Placing_0;
    let next = after(m, reply);
    assert(is_target(entries, entries[i].target));
    assert(is_temporary(entries, entries[i].temporary));
    if reply is Done {
        assert forall|k: int| 0 <= k < i + 1 implies keeps(
            entries,
            k,
            #[trigger] next.applied[k],
            first,
            now,
        ) by {
            if k < i {
                assert(keeps(entries, k, m.applied[k], first, before));
                assert(next.applied[k] == m.applied[k]);
            }
        }
        assert forall|k: int, l: int|
            0 <= k < l < i + 1 && next.applied[k] is Some implies #[trigger] next.applied[k]
            != #[trigger] next.applied[l] by {
            assert(next.applied[k] == m.applied[k]);
            if l < i {
                assert(next.applied[l] == m.applied[l]);
            }
        }
    } else if backup is None {
        assert(untouched_from(m, i, first, now)) by {
            assert forall|j: int| i <= j < entries.len() implies same_at(
                first,
                now,
                #[trigger] entries[j].target,
            ) by {}
        }
    }
}

proof fn lemma_put_back(
    m: TransactionModel,
    first: Files,
    before: Files,
    reply: StepReply,
    now: Files,
    path: Seq<u8>,
)
    requires
        m.phase == PhaseModel::PuttingBack(path),
        books(m, first, before),
        happens(m, before, reply, now),
    ensures
        books(after(m, reply), first, now),
{
    let i = m.applied.len() as int;
    let entries = m.entries;
    assert(is_target(entries, entries[i].target));
    if reply is Done {
        assert forall|k: int| 0 <= k < i implies keeps(
            entries,
            k,
            #[trigger] m.applied[k],
            first,
            now,
        ) by {
            assert(keeps(entries, k, m.applied[k], first, before));
            assert(m.applied[k] != Some(path));
        }
    }
}

proof fn lemma_undo(m: TransactionModel, first: Files, before: Files, reply: StepReply, now: Files)
    requires
        m.phase is Undoing,
        books(m, first, before),
        happens(m, before, reply, now),
    ensures
        books(after(m, reply), first, now),
{
    let i = m.applied.len() as int;
    let entries = m.entries;
    let next = after(m, reply);
    let target = entries[i - 1].target;
    let backup = m.applied[i - 1];
    assert(is_target(entries, target));
    assert(keeps(entries, i - 1, backup, first, before));
    assert forall|k: int| 0 <= k < i - 1 implies keeps(
        entries,
        k,
        #[trigger] next.applied[k],
        first,
        now,
    ) by {
        assert(keeps(entries, k, m.applied[k], first, before));
        assert(next.applied[k] == m.applied[k]);
        assert(m.applied[k] is Some ==> m.applied[k] != m.applied[i - 1]);
    }
    assert forall|k: int, l: int|
        0 <= k < l < i - 1 && next.applied[k] is Some implies #[trigger] next.applied[k]
        != #[trigger] next.applied[l] by {
        assert(next.applied[k] == m.applied[k]);
        assert(next.applied[l] == m.applied[l]);
    }
    if reply is Done && !m.damaged {
        assert forall|j: int| i - 1 <= j < entries.len() implies same_at(
            first,
            now,
            #[trigger] entries[j].target,
        ) by {
            if j > i - 1 {
                assert(same_at(first, before, entries[j].target));
                assert(entries[j].target != target);
                assert(is_target(entries, entries[j].target));
            }
        }
    }
}

/// A committed transaction has put every staged file in place and left
/// unrelated files alone.
pub proof fn committed_entries_are_in_place(
    m: TransactionModel,
    first: Files,
    now: Files,
    k: int,
    path: Seq<u8>,
)
    requires
        books(m, first, now),
        m.phase is Committed,
        0 <= k < m.entries.len(),
    ensures
        now.contains_key(m.entries[k].target),
        now[m.entries[k].target] == first[m.entries[k].temporary],
        first.contains_key(path) && !is_target(m.entries, path) && !is_temporary(m.entries, path)
            ==> same_at(first, now, path),
{
}

/// An aborted transaction that could put everything back has left every target
/// as it was at first, and unrelated files as well.
pub proof fn aborted_transactions_restore_every_target(
    m: TransactionModel,
    first: Files,
    now: Files,
    k: int,
    path: Seq<u8>,
)
    requires
        books(m, first, now),
        m.phase is Aborted,
        !m.damaged,
        0 <= k < m.entries.len(),
    ensures
        same_at(first, now, m.entries[k].target),
        first.contains_key(path) && !is_target(m.entries, path) && !is_temporary(m.entries, path)
            ==> same_at(first, now, path),
{
    assert(untouched_from(m, 0, first, now));
}

/// Every file that was moved aside and not yet put back is still kept, with
/// what stood at its target at first.
pub proof fn replaced_files_are_kept(m: TransactionModel, first: Files, now: Files, k: int)
    requires
        books(m, first, now),
        0 <= k < m.applied.len(),
    ensures
        m.applied[k] matches Some(backup) ==> now.contains_key(backup) && now[backup]
            == first[m.entries[k].target],
{
    assert(keeps(m.entries, k, m.applied[k], first, now));
}

/// A target that must be Pipeline's own is moved aside only right after it was
/// seen to be, and replaced without that only where nothing stood.
pub proof fn ownership_is_checked_before_replacing(m: TransactionModel, reply: StepReply)
    requires
        consistent(m),
        fits(m, reply),
        m.phase is Inspecting,
        m.entries[m.applied.len() as int].require_managed,
    ensures
        after(m, reply).phase is Reserving ==> managed(reply->Found_0),
        after(m, reply).phase is Placing ==> !present(reply->Found_0.probe),
        after(m, reply).phase is Reserving || after(m, reply).phase is Placing || after(
            m,
            reply,
        ).phase is Undoing || after(m, reply).phase is Aborted,
{
}

} // verus!
