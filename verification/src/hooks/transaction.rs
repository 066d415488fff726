//! Putting staged files in place, all or nothing.
//!
//! A transaction says which step comes next and learns how the step went. It
//! moves every target aside before it is replaced, and undoes what it did, last
//! step first, when a step fails.
use crate::hooks::ownership::{
    is_managed_hook, is_present, managed, present, read_failure, readable, HookFile,
};
use crate::native::{lossy, HostPath};
use crate::text::{concat2, concat3, concat5, join, joined, views};
use vstd::prelude::*;

verus! {

/// A finished file that waits to be moved to its target. A hook is only
/// replaced while Pipeline owns it.
#[derive(Debug)]
pub struct StagedEntry {
    pub temporary: HostPath,
    pub target: HostPath,
    pub require_managed: bool,
}

pub struct EntryModel {
    pub temporary: Seq<u8>,
    pub target: Seq<u8>,
    pub require_managed: bool,
}

impl View for StagedEntry {
    type V = EntryModel;

    open spec fn view(&self) -> EntryModel {
        EntryModel {
            temporary: self.temporary@,
            target: self.target@,
            require_managed: self.require_managed,
        }
    }
}

#[derive(Debug)]
enum Phase {
    Inspecting,
    Reserving,
    SettingAside(HostPath),
    Placing(Option<HostPath>),
    PuttingBack(HostPath),
    Undoing,
    Committed,
    Aborted,
}

pub enum PhaseModel {
    Inspecting,
    Reserving,
    SettingAside(Seq<u8>),
    Placing(Option<Seq<u8>>),
    PuttingBack(Seq<u8>),
    Undoing,
    Committed,
    Aborted,
}

/// A transaction that is under way.
#[derive(Debug)]
pub struct Transaction {
    entries: Vec<StagedEntry>,
    applied: Vec<Option<HostPath>>,
    phase: Phase,
    failure: String,
    undo_failures: Vec<String>,
    damaged: bool,
}

/// The model of a transaction: `applied` holds, for each entry in place, where
/// the former target was moved; `damaged` says that something could not be
/// put back.
pub struct TransactionModel {
    pub entries: Seq<EntryModel>,
    pub applied: Seq<Option<Seq<u8>>>,
    pub phase: PhaseModel,
    pub failure: Seq<char>,
    pub undo_failures: Seq<Seq<char>>,
    pub damaged: bool,
}

pub open spec fn backup_view(backup: Option<HostPath>) -> Option<Seq<u8>> {
    match backup {
        Some(path) => Some(path@),
        None => None,
    }
}

impl View for Transaction {
    type V = TransactionModel;

    closed spec fn view(&self) -> TransactionModel {
        TransactionModel {
            entries: Seq::new(self.entries@.len(), |i: int| self.entries@[i]@),
            applied: Seq::new(self.applied@.len(), |i: int| backup_view(self.applied@[i])),
            phase: match self.phase {
                Phase::Inspecting => PhaseModel::Inspecting,
                Phase::Reserving => PhaseModel::Reserving,
                Phase::SettingAside(path) => PhaseModel::SettingAside(path@),
                Phase::Placing(backup) => PhaseModel::Placing(backup_view(backup)),
                Phase::PuttingBack(path) => PhaseModel::PuttingBack(path@),
                Phase::Undoing => PhaseModel::Undoing,
                Phase::Committed => PhaseModel::Committed,
                Phase::Aborted => PhaseModel::Aborted,
            },
            failure: self.failure@,
            undo_failures: views(self.undo_failures@),
            damaged: self.damaged,
        }
    }
}

/// What is to be done next.
#[derive(Debug, PartialEq, Eq)]
pub enum TransactionStep {
    /// Look at a target.
    Inspect(HostPath),
    /// Find a vacant path beside a target.
    Reserve(HostPath),
    /// Move a file.
    Rename { from: HostPath, to: HostPath },
    /// Delete a file.
    Remove(HostPath),
    /// Everything is in place; what was moved aside can be dropped.
    Commit,
    /// The transaction failed, for this reason.
    Abort(String),
}

pub enum StepModel {
    Inspect(Seq<u8>),
    Reserve(Seq<u8>),
    Rename(Seq<u8>, Seq<u8>),
    Remove(Seq<u8>),
    Commit,
    Abort(Seq<char>),
}

/// How a step went.
#[derive(Debug)]
pub enum StepReply {
    Found(HookFile),
    Vacant(HostPath),
    Done,
    Failed(String),
    /// A file could not be moved back. It stays where it was put aside, unless
    /// keeping it there failed as well.
    Stuck { error: String, keep_error: Option<String> },
}

/// The phase is one that the entries and what is applied allow.
pub open spec fn consistent(m: TransactionModel) -> bool {
    &&& m.applied.len() <= m.entries.len()
    &&& match m.phase {
        PhaseModel::Undoing => m.applied.len() > 0,
        PhaseModel::Committed => m.applied.len() == m.entries.len(),
        PhaseModel::Aborted => m.applied.len() == 0,
        _ => m.applied.len() < m.entries.len(),
    }
}

/// The target of the entry that is being worked on.
pub open spec fn current_target(m: TransactionModel) -> Seq<u8> {
    m.entries[m.applied.len() as int].target
}

/// The target of the last entry that is in place.
pub open spec fn last_target(m: TransactionModel) -> Seq<u8> {
    m.entries[m.applied.len() - 1].target
}

pub open spec fn abort_text(m: TransactionModel) -> Seq<char> {
    m.failure + (if m.undo_failures.len() == 0 {
        seq![]
    } else {
        "; rollback also failed for "@ + joined(m.undo_failures, ", "@)
    })
}

/// The step that comes next.
pub open spec fn next_step(m: TransactionModel) -> StepModel {
    match m.phase {
        PhaseModel::Inspecting => StepModel::Inspect(current_target(m)),
        PhaseModel::Reserving => StepModel::Reserve(current_target(m)),
        PhaseModel::SettingAside(backup) => StepModel::Rename(current_target(m), backup),
        PhaseModel::Placing(_) => StepModel::Rename(
            m.entries[m.applied.len() as int].temporary,
            current_target(m),
        ),
        PhaseModel::PuttingBack(backup) => StepModel::Rename(backup, current_target(m)),
        PhaseModel::Undoing => match m.applied.last() {
            Some(backup) => StepModel::Rename(backup, last_target(m)),
            None => StepModel::Remove(last_target(m)),
        },
        PhaseModel::Committed => StepModel::Commit,
        PhaseModel::Aborted => StepModel::Abort(abort_text(m)),
    }
}

/// The reply is one that the step can have.
pub open spec fn fits(m: TransactionModel, reply: StepReply) -> bool {
    match m.phase {
        PhaseModel::Inspecting => reply is Found,
        PhaseModel::Reserving => reply is Vacant || reply is Failed,
        PhaseModel::SettingAside(_) => reply is Done || reply is Failed,
        PhaseModel::Placing(_) => reply is Done || reply is Failed,
        PhaseModel::PuttingBack(_) => reply is Done || reply is Stuck,
        PhaseModel::Undoing => if m.applied.last() is Some {
            reply is Done || reply is Stuck
        } else {
            reply is Done || reply is Failed
        },
        PhaseModel::Committed => false,
        PhaseModel::Aborted => false,
    }
}

/// Gives up: undoes what is applied, if anything is.
pub open spec fn failed(m: TransactionModel, text: Seq<char>) -> TransactionModel {
    TransactionModel {
        phase: if m.applied.len() == 0 {
            PhaseModel::Aborted
        } else {
            PhaseModel::Undoing
        },
        failure: text,
        ..m
    }
}

pub open spec fn in_phase(m: TransactionModel, phase: PhaseModel) -> TransactionModel {
    TransactionModel { phase, ..m }
}

/// Why a file could not be put back.
pub open spec fn stuck_text(error: Seq<char>, backup: Seq<u8>, keep_error: Option<Seq<char>>) -> Seq<
    char,
> {
    error + "; original retained at "@ + lossy(backup) + (match keep_error {
        Some(text) => "; could not preserve backup: "@ + text,
        None => seq![],
    })
}

pub open spec fn text_view(text: Option<String>) -> Option<Seq<char>> {
    match text {
        Some(t) => Some(t@),
        None => None,
    }
}

/// One entry fewer is in place, with a note if undoing it failed.
pub open spec fn undone(m: TransactionModel, problem: Option<Seq<char>>) -> TransactionModel {
    TransactionModel {
        applied: m.applied.drop_last(),
        phase: if m.applied.len() == 1 {
            PhaseModel::Aborted
        } else {
            PhaseModel::Undoing
        },
        undo_failures: match problem {
            Some(text) => m.undo_failures.push(lossy(last_target(m)) + ": "@ + text),
            None => m.undo_failures,
        },
        damaged: m.damaged || problem is Some,
        ..m
    }
}

/// The transaction after a step.
pub open spec fn after(m: TransactionModel, reply: StepReply) -> TransactionModel {
    match (m.phase, reply) {
        (PhaseModel::Inspecting, StepReply::Found(file)) => {
            let checked = m.entries[m.applied.len() as int].require_managed && present(file.probe);
            if checked && !readable(file) {
                failed(m, read_failure(file))
            } else if checked && !managed(file) {
                failed(m, "refusing to replace or remove unmanaged hook "@ + lossy(current_target(m)))
            } else if present(file.probe) {
                in_phase(m, PhaseModel::Reserving)
            } else {
                in_phase(m, PhaseModel::Placing(None))
            }
        },
        (PhaseModel::Reserving, StepReply::Vacant(path)) => in_phase(
            m,
            PhaseModel::SettingAside(path@),
        ),
        (PhaseModel::Reserving, StepReply::Failed(text)) => failed(m, text@),
        (PhaseModel::SettingAside(backup), StepReply::Done) => in_phase(
            m,
            PhaseModel::Placing(Some(backup)),
        ),
        (PhaseModel::SettingAside(_), StepReply::Failed(text)) => failed(m, text@),
        (PhaseModel::Placing(backup), StepReply::Done) => TransactionModel {
            applied: m.applied.push(backup),
            phase: if m.applied.len() + 1 == m.entries.len() {
                PhaseModel::Committed
            } else {
                PhaseModel::Inspecting
            },
            ..m
        },
        (PhaseModel::Placing(Some(backup)), StepReply::Failed(text)) => TransactionModel {
            phase: PhaseModel::PuttingBack(backup),
            failure: text@,
            ..m
        },
        (PhaseModel::Placing(None), StepReply::Failed(text)) => failed(m, text@),
        (PhaseModel::PuttingBack(_), StepReply::Done) => failed(m, m.failure),
        (PhaseModel::PuttingBack(backup), StepReply::Stuck { error, keep_error }) => failed(
            TransactionModel { damaged: true, ..m },
            "hook installation transaction failed: "@ + m.failure + "; restoring "@ + lossy(
                current_target(m),
            ) + " also failed: "@ + stuck_text(error@, backup, text_view(keep_error)),
        ),
        (PhaseModel::Undoing, StepReply::Done) => undone(m, None),
        (PhaseModel::Undoing, StepReply::Failed(text)) => undone(m, Some(text@)),
        (PhaseModel::Undoing, StepReply::Stuck { error, keep_error }) => undone(
            m,
            Some(stuck_text(error@, m.applied.last()->Some_0, text_view(keep_error))),
        ),
        _ => m,
    }
}

/// A transaction that has done nothing yet.
pub open spec fn started(entries: Seq<EntryModel>) -> TransactionModel {
    TransactionModel {
        entries,
        applied: seq![],
        phase: if entries.len() == 0 {
            PhaseModel::Committed
        } else {
            PhaseModel::Inspecting
        },
        failure: seq![],
        undo_failures: seq![],
        damaged: false,
    }
}

pub open spec fn entry_views(entries: Seq<StagedEntry>) -> Seq<EntryModel> {
    Seq::new(entries.len(), |i: int| entries[i]@)
}

pub open spec fn step_view(step: TransactionStep) -> StepModel {
    match step {
        TransactionStep::Inspect(path) => StepModel::Inspect(path@),
        TransactionStep::Reserve(path) => StepModel::Reserve(path@),
        TransactionStep::Rename { from, to } => StepModel::Rename(from@, to@),
        TransactionStep::Remove(path) => StepModel::Remove(path@),
        TransactionStep::Commit => StepModel::Commit,
        TransactionStep::Abort(text) => StepModel::Abort(text@),
    }
}

fn stuck_message(error: &str, backup: &HostPath, keep_error: &Option<String>) -> (text: String)
    ensures
        text@ == stuck_text(error@, backup@, text_view(*keep_error)),
{
    let mut text = concat3(error, "; original retained at ", backup.shown().as_str());
    if let Some(reason) = keep_error {
        text.push_str("; could not preserve backup: ");
        text.push_str(reason.as_str());
    }
    proof {
        assert(text@ =~= stuck_text(error@, backup@, text_view(*keep_error)));
    }
    text
}

impl Transaction {
    #[verifier::type_invariant]
    spec fn is_consistent(self) -> bool {
        consistent(self@)
    }

    /// Starts putting entries in place.
    pub fn new(entries: Vec<StagedEntry>) -> (transaction: Transaction)
        ensures
            transaction@ == started(entry_views(entries@)),
            consistent(transaction@),
    {
        let phase = if entries.len() == 0 {
            Phase::Committed
        } else {
            Phase::Inspecting
        };
        let transaction = Transaction {
            entries,
            applied: Vec::new(),
            phase,
            failure: String::new(),
            undo_failures: Vec::new(),
            damaged: false,
        };
        proof {
            assert(transaction@.entries =~= entry_views(entries@));
            assert(transaction@.applied =~= seq![]);
            assert(transaction@.undo_failures =~= seq![]);
            assert(transaction@.failure =~= seq![]);
        }
        transaction
    }

    /// The step that comes next.
    pub fn step(&self) -> (step: TransactionStep)
        ensures
            step_view(step) == next_step(self@),
            consistent(self@),
    {
        proof {
            use_type_invariant(self);
        }
        let done = self.applied.len();
        match &self.phase {
            Phase::Inspecting => TransactionStep::Inspect(self.entries[done].target.clone()),
            Phase::Reserving => TransactionStep::Reserve(self.entries[done].target.clone()),
            Phase::SettingAside(backup) => TransactionStep::Rename {
                from: self.entries[done].target.clone(),
                to: backup.clone(),
            },
            Phase::Placing(_) => TransactionStep::Rename {
                from: self.entries[done].temporary.clone(),
                to: self.entries[done].target.clone(),
            },
            Phase::PuttingBack(backup) => TransactionStep::Rename {
                from: backup.clone(),
                to: self.entries[done].target.clone(),
            },
            Phase::Undoing => match &self.applied[done - 1] {
                Some(backup) => TransactionStep::Rename {
                    from: backup.clone(),
                    to: self.entries[done - 1].target.clone(),
                },
                None => TransactionStep::Remove(self.entries[done - 1].target.clone()),
            },
            Phase::Committed => TransactionStep::Commit,
            Phase::Aborted => {
                let mut text = String::from_str(self.failure.as_str());
                if self.undo_failures.len() > 0 {
                    text.push_str("; rollback also failed for ");
                    text.push_str(join(&self.undo_failures, ", ").as_str());
                }
                proof {
                    assert(text@ =~= abort_text(self@));
                }
                TransactionStep::Abort(text)
            },
        }
    }

    /// Whether everything that was moved aside could be put back.
    pub fn restored(&self) -> (yes: bool)
        ensures
            yes == !self@.damaged,
    {
        !self.damaged
    }

    fn fail(self, text: String) -> (next: Transaction)
        ensures
            next@ == failed(self@, text@),
    {
        proof {
            use_type_invariant(&self);
        }
        let phase = if self.applied.len() == 0 {
            Phase::Aborted
        } else {
            Phase::Undoing
        };
        Transaction {
            entries: self.entries,
            applied: self.applied,
            phase,
            failure: text,
            undo_failures: self.undo_failures,
            damaged: self.damaged,
        }
    }

    fn enter(self, phase: Phase) -> (next: Transaction)
        requires
            self@.applied.len() < self@.entries.len(),
            !(phase is Undoing || phase is Committed || phase is Aborted),
        ensures
            next@ == in_phase(self@, next@.phase),
            phase is Reserving ==> next@.phase is Reserving,
            phase matches Phase::SettingAside(path) ==> next@.phase == PhaseModel::SettingAside(
                path@,
            ),
            phase matches Phase::Placing(backup) ==> next@.phase == PhaseModel::Placing(
                backup_view(backup),
            ),
    {
        Transaction {
            entries: self.entries,
            applied: self.applied,
            phase,
            failure: self.failure,
            undo_failures: self.undo_failures,
            damaged: self.damaged,
        }
    }

    fn undo(self, problem: Option<String>) -> (next: Transaction)
        requires
            self@.phase is Undoing,
        ensures
            next@ == undone(self@, text_view(problem)),
    {
        proof {
            use_type_invariant(&self);
        }
        let Transaction { entries, applied, phase: _, failure, undo_failures, damaged } = self;
        let mut applied = applied;
        let mut undo_failures = undo_failures;
        let mut damaged = damaged;
        let last = applied.len() - 1;
        if let Some(text) = problem {
            let note = concat3(entries[last].target.shown().as_str(), ": ", text.as_str());
            proof {
                assert(views(undo_failures@.push(note)) =~= views(undo_failures@).push(note@));
            }
            undo_failures.push(note);
            damaged = true;
        }
        applied.pop();
        let phase = if last == 0 {
            Phase::Aborted
        } else {
            Phase::Undoing
        };
        let next = Transaction { entries, applied, phase, failure, undo_failures, damaged };
        proof {
            assert(next@.applied =~= self@.applied.drop_last());
            assert(next@.entries =~= self@.entries);
        }
        next
    }

    fn inspected(self, file: HookFile) -> (next: Transaction)
        requires
            self@.phase is Inspecting,
        ensures
            next@ == after(self@, StepReply::Found(file)),
    {
        proof {
            use_type_invariant(&self);
        }
        let done = self.applied.len();
        let there = is_present(&file.probe);
        if self.entries[done].require_managed && there {
            match is_managed_hook(&file) {
                Ok(owned) => {
                    if !owned {
                        let text = concat2(
                            "refusing to replace or remove unmanaged hook ",
                            self.entries[done].target.shown().as_str(),
                        );
                        return self.fail(text);
                    }
                },
                Err(error) => {
                    let text = error.message();
                    return self.fail(text);
                },
            }
        }
        if there {
            self.enter(Phase::Reserving)
        } else {
            self.enter(Phase::Placing(None))
        }
    }

    fn placed(self, backup: Option<HostPath>) -> (next: Transaction)
        requires
            self@.phase == PhaseModel::Placing(backup_view(backup)),
        ensures
            next@ == after(self@, StepReply::Done),
    {
        proof {
            use_type_invariant(&self);
        }
        let Transaction { entries, applied, phase: _, failure, undo_failures, damaged } = self;
        let mut applied = applied;
        applied.push(backup);
        let phase = if applied.len() == entries.len() {
            Phase::Committed
        } else {
            Phase::Inspecting
        };
        let next = Transaction { entries, applied, phase, failure, undo_failures, damaged };
        proof {
            assert(next@.applied =~= self@.applied.push(backup_view(backup)));
            assert(next@.entries =~= self@.entries);
        }
        next
    }

    fn blocked(self, backup: Option<HostPath>, text: String) -> (next: Transaction)
        requires
            self@.phase == PhaseModel::Placing(backup_view(backup)),
        ensures
            next@ == after(self@, StepReply::Failed(text)),
    {
        proof {
            use_type_invariant(&self);
        }
        match backup {
            None => self.fail(text),
            Some(path) => Transaction {
                entries: self.entries,
                applied: self.applied,
                phase: Phase::PuttingBack(path),
                failure: text,
                undo_failures: self.undo_failures,
                damaged: self.damaged,
            },
        }
    }

    fn stranded(self, backup: HostPath, error: String, keep_error: Option<String>) -> (next:
        Transaction)
        requires
            self@.phase == PhaseModel::PuttingBack(backup@),
        ensures
            next@ == after(self@, (StepReply::Stuck { error, keep_error })),
    {
        proof {
            use_type_invariant(&self);
        }
        let done = self.applied.len();
        let restore = stuck_message(error.as_str(), &backup, &keep_error);
        let mut text = concat5(
            "hook installation transaction failed: ",
            self.failure.as_str(),
            "; restoring ",
            self.entries[done].target.shown().as_str(),
            " also failed: ",
        );
        text.push_str(restore.as_str());
        let marked = Transaction {
            entries: self.entries,
            applied: self.applied,
            phase: Phase::PuttingBack(backup),
            failure: self.failure,
            undo_failures: self.undo_failures,
            damaged: true,
        };
        marked.fail(text)
    }

    /// The transaction after the step that came next.
    pub fn advance(self, reply: StepReply) -> (next: Transaction)
        requires
            fits(self@, reply),
        ensures
            next@ == after(self@, reply),
            consistent(next@),
    {
        proof {
            use_type_invariant(&self);
        }
        let next = self.advance_inner(reply);
        proof {
            use_type_invariant(&next);
        }
        next
    }

    fn advance_inner(self, reply: StepReply) -> (next: Transaction)
        requires
            fits(self@, reply),
        ensures
            next@ == after(self@, reply),
    {
        proof {
            use_type_invariant(&self);
        }
        match reply {
            StepReply::Found(file) => self.inspected(file),
            StepReply::Vacant(path) => self.enter(Phase::SettingAside(path)),
            StepReply::Done => match &self.phase {
                Phase::SettingAside(path) => {
                    let backup = path.clone();
                    self.enter(Phase::Placing(Some(backup)))
                },
                Phase::Placing(backup) => {
                    let kept = match backup {
                        Some(path) => Some(path.clone()),
                        None => None,
                    };
                    self.placed(kept)
                },
                Phase::PuttingBack(_) => {
                    let text = String::from_str(self.failure.as_str());
                    self.fail(text)
                },
                _ => self.undo(None),
            },
            StepReply::Failed(text) => match &self.phase {
                Phase::Placing(backup) => {
                    let kept = match backup {
                        Some(path) => Some(path.clone()),
                        None => None,
                    };
                    self.blocked(kept, text)
                },
                Phase::Undoing => self.undo(Some(text)),
                _ => self.fail(text),
            },
            StepReply::Stuck { error, keep_error } => match &self.phase {
                Phase::PuttingBack(path) => {
                    let backup = path.clone();
                    self.stranded(backup, error, keep_error)
                },
                _ => {
                    let last = self.applied.len() - 1;
                    let text = match &self.applied[last] {
                        Some(path) => stuck_message(error.as_str(), path, &keep_error),
                        None => error,
                    };
                    self.undo(Some(text))
                },
            },
        }
    }
}

} // verus!
