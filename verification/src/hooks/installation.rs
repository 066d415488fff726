//! Carrying out an installation.
//!
//! An installation says which step comes next and learns how the step went.
//! Until everything is staged nothing that exists is touched; directories that
//! it made are removed again when it fails.

use crate::hooks::error::HookError;
use crate::hooks::install::{
    executable_source, just_place, may_execute, pipeline_place, staging_of, usable, FileMode,
    InstallJob, InstallReport, SourceFacts, Staging, TargetLink,
};
use crate::hooks::ownership::{hook_home, hook_path, hook_wrapper, wrapper_text};
use crate::hooks::repository::{hooks_home, pipeline_home};
use crate::hooks::request::InstallMode;
use crate::hooks::transaction::{
    after, consistent, entry_views, fits, next_step, started, step_view, EntryModel, PhaseModel,
    StagedEntry, StepModel, StepReply, Transaction, TransactionModel, TransactionStep,
};
use crate::native::{same_path, HostPath};
use crate::text::views;
use vstd::prelude::*;

verus! {

/// The mode of what is installed: everyone may read and execute it.
pub const INSTALLED_MODE: u32 = 0o755;

/// Why an installation failed: the system refused something, an executable
/// cannot be used or staged, or the transaction was aborted.
pub enum InstallFailure {
    System(Seq<char>),
    Source(Seq<u8>, Seq<char>),
    NotExecutable(Seq<u8>),
    Staging(HookError),
    Transaction(Seq<char>),
}

#[derive(Debug)]
enum InstallPhase {
    MakePipelineDir,
    MakeHooksDir,
    Examine(bool),
    Place { just: bool, source: HostPath, link: bool },
    Wrap(usize),
    Committing(Transaction),
    DropPipelineDir(HookError, bool),
    DropHooksDir(HookError),
    Finished,
    Failed(HookError),
}

pub enum InstallPhaseModel {
    MakePipelineDir,
    MakeHooksDir,
    /// The flag of an executable says that it is Just.
    Examine(bool),
    Place { just: bool, source: Seq<u8>, link: bool },
    Wrap(int),
    Committing(TransactionModel),
    /// The flag says that the hooks directory may have been made as well.
    DropPipelineDir(InstallFailure, bool),
    DropHooksDir(InstallFailure),
    Finished,
    Failed(InstallFailure),
}

/// An installation that is under way.
#[derive(Debug)]
pub struct Installation {
    job: InstallJob,
    staged: Vec<StagedEntry>,
    phase: InstallPhase,
}

pub struct InstallationModel {
    pub job: InstallJob,
    pub staged: Seq<EntryModel>,
    pub phase: InstallPhaseModel,
}

/// The failure that an error reports.
pub open spec fn failure_of(error: HookError) -> InstallFailure {
    match error {
        HookError::Io(text) => InstallFailure::System(text@),
        HookError::ExecutableSource { path, source } => InstallFailure::Source(path@, source@),
        HookError::NotExecutable(path) => InstallFailure::NotExecutable(path@),
        HookError::InstallTransaction(text) => InstallFailure::Transaction(text@),
        _ => InstallFailure::Staging(error),
    }
}

impl View for Installation {
    type V = InstallationModel;

    closed spec fn view(&self) -> InstallationModel {
        InstallationModel {
            job: self.job,
            staged: entry_views(self.staged@),
            phase: match self.phase {
                InstallPhase::MakePipelineDir => InstallPhaseModel::MakePipelineDir,
                InstallPhase::MakeHooksDir => InstallPhaseModel::MakeHooksDir,
                InstallPhase::Examine(just) => InstallPhaseModel::Examine(just),
                InstallPhase::Place { just, source, link } => InstallPhaseModel::Place {
                    just,
                    source: source@,
                    link,
                },
                InstallPhase::Wrap(k) => InstallPhaseModel::Wrap(k as int),
                InstallPhase::Committing(t) => InstallPhaseModel::Committing(t@),
                InstallPhase::DropPipelineDir(error, both) => InstallPhaseModel::DropPipelineDir(
                    failure_of(error),
                    both,
                ),
                InstallPhase::DropHooksDir(error) => InstallPhaseModel::DropHooksDir(
                    failure_of(error),
                ),
                InstallPhase::Finished => InstallPhaseModel::Finished,
                InstallPhase::Failed(error) => InstallPhaseModel::Failed(failure_of(error)),
            },
        }
    }
}

/// What is to be done next.
#[derive(Debug, PartialEq, Eq)]
pub enum InstallStep {
    MakeDirectory(HostPath),
    /// Look at an executable, and at what stands at its target.
    Examine { source: HostPath, target: HostPath },
    /// Copy an executable to a temporary file beside its target, and give the
    /// file this mode.
    StageCopy { source: HostPath, target: HostPath, mode: u32 },
    /// Make a link to an executable, with a temporary name beside its target.
    StageLink { source: HostPath, target: HostPath },
    /// Write a wrapper to a temporary file beside its target, and give the file
    /// this mode.
    StageWrapper { target: HostPath, contents: String, mode: u32 },
    Transact(TransactionStep),
    /// Remove a directory if it is empty; whether that works does not matter.
    RemoveDirectory(HostPath),
    /// There is nothing left to do.
    End,
}

pub enum InstallStepModel {
    MakeDirectory(Seq<u8>),
    Examine(Seq<u8>, Seq<u8>),
    StageCopy(Seq<u8>, Seq<u8>, u32),
    StageLink(Seq<u8>, Seq<u8>),
    StageWrapper(Seq<u8>, Seq<char>, u32),
    Transact(StepModel),
    RemoveDirectory(Seq<u8>),
    End,
}

pub open spec fn install_step_view(step: InstallStep) -> InstallStepModel {
    match step {
        InstallStep::MakeDirectory(path) => InstallStepModel::MakeDirectory(path@),
        InstallStep::Examine { source, target } => InstallStepModel::Examine(source@, target@),
        InstallStep::StageCopy { source, target, mode } => InstallStepModel::StageCopy(
            source@,
            target@,
            mode,
        ),
        InstallStep::StageLink { source, target } => InstallStepModel::StageLink(source@, target@),
        InstallStep::StageWrapper { target, contents, mode } => InstallStepModel::StageWrapper(
            target@,
            contents@,
            mode,
        ),
        InstallStep::Transact(inner) => InstallStepModel::Transact(step_view(inner)),
        InstallStep::RemoveDirectory(path) => InstallStepModel::RemoveDirectory(path@),
        InstallStep::End => InstallStepModel::End,
    }
}

/// How a step went.
#[derive(Debug)]
pub enum InstallReply {
    Done,
    Refused(String),
    /// What an executable is, and what stands at its target.
    Examined { source: SourceFacts, link: TargetLink },
    /// The temporary file that was made.
    Staged(HostPath),
    NotStaged(HookError),
    Transacted(StepReply),
}

/// The source of an executable.
pub open spec fn source_of(job: InstallJob, just: bool) -> Seq<u8> {
    if just {
        job.just_source@
    } else {
        job.pipeline_source@
    }
}

/// The target of an executable.
pub open spec fn place_of(job: InstallJob, just: bool) -> Seq<u8> {
    if just {
        just_place(job.repository)
    } else {
        pipeline_place(job.repository)
    }
}

/// The mode of an executable.
pub open spec fn mode_of(job: InstallJob, just: bool) -> InstallMode {
    if just {
        job.just_mode
    } else {
        job.pipeline_mode
    }
}

/// The entry of an executable may replace whatever it finds.
pub open spec fn executable_entry(job: InstallJob, just: bool, temporary: Seq<u8>) -> EntryModel {
    EntryModel { temporary, target: place_of(job, just), require_managed: false }
}

/// The entry of a wrapper goes to the path of its hook, and replaces nothing
/// that Pipeline does not own.
pub open spec fn wrapper_entry(job: InstallJob, k: int, temporary: Seq<u8>) -> EntryModel {
    EntryModel {
        temporary,
        target: hook_home(job.repository, job.hooks@[k]),
        require_managed: true,
    }
}

/// What is staged once `executables` of the executables are settled and
/// `wrappers` of the wrappers are staged: the executables that are not in place
/// already, then every wrapper so far, in order.
pub open spec fn staged_through(
    job: InstallJob,
    staged: Seq<EntryModel>,
    executables: int,
    wrappers: int,
) -> bool {
    let first = staged.len() - wrappers;
    &&& 0 <= first <= executables
    &&& 0 <= wrappers <= job.hooks@.len()
    &&& first == 1 ==> exists|just: bool|
        staged[0] == #[trigger] executable_entry(job, just, staged[0].temporary) && (just
            ==> executables == 2)
    &&& first == 2 ==> staged[0] == executable_entry(job, false, staged[0].temporary) && staged[1]
        == executable_entry(job, true, staged[1].temporary)
    &&& forall|k: int|
        0 <= k < wrappers ==> (#[trigger] staged[first + k]) == wrapper_entry(
            job,
            k,
            staged[first + k].temporary,
        )
}

pub open spec fn sound(m: InstallationModel) -> bool {
    &&& !(m.job.pipeline_mode is Auto)
    &&& !(m.job.just_mode is Auto)
    &&& match m.phase {
        InstallPhaseModel::MakePipelineDir => m.staged.len() == 0,
        InstallPhaseModel::MakeHooksDir => m.staged.len() == 0,
        InstallPhaseModel::Examine(just) => staged_through(m.job, m.staged, just as int, 0),
        InstallPhaseModel::Place { just, source, link } => staged_through(
            m.job,
            m.staged,
            just as int,
            0,
        ),
        InstallPhaseModel::Wrap(k) => 0 <= k < m.job.hooks@.len() && staged_through(
            m.job,
            m.staged,
            2,
            k,
        ),
        InstallPhaseModel::Committing(t) => consistent(t) && !(t.phase is Committed)
            && !(t.phase is Aborted) && staged_through(
            m.job,
            t.entries,
            2,
            m.job.hooks@.len() as int,
        ),
        _ => true,
    }
}

/// The step that comes next.
pub open spec fn next_install_step(m: InstallationModel) -> InstallStepModel {
    let repository = m.job.repository;
    match m.phase {
        InstallPhaseModel::MakePipelineDir => InstallStepModel::MakeDirectory(
            pipeline_home(repository),
        ),
        InstallPhaseModel::MakeHooksDir => InstallStepModel::MakeDirectory(hooks_home(repository)),
        InstallPhaseModel::Examine(just) => InstallStepModel::Examine(
            source_of(m.job, just),
            place_of(m.job, just),
        ),
        InstallPhaseModel::Place { just, source, link } => if link {
            InstallStepModel::StageLink(source, place_of(m.job, just))
        } else {
            InstallStepModel::StageCopy(source, place_of(m.job, just), INSTALLED_MODE)
        },
        InstallPhaseModel::Wrap(k) => InstallStepModel::StageWrapper(
            hook_home(repository, m.job.hooks@[k]),
            wrapper_text(m.job.hooks@[k]),
            INSTALLED_MODE,
        ),
        InstallPhaseModel::Committing(t) => InstallStepModel::Transact(next_step(t)),
        InstallPhaseModel::DropPipelineDir(_, _) => InstallStepModel::RemoveDirectory(
            pipeline_home(repository),
        ),
        InstallPhaseModel::DropHooksDir(_) => InstallStepModel::RemoveDirectory(
            hooks_home(repository),
        ),
        InstallPhaseModel::Finished => InstallStepModel::End,
        InstallPhaseModel::Failed(_) => InstallStepModel::End,
    }
}

/// The reply is one that the step can have.
pub open spec fn install_fits(m: InstallationModel, reply: InstallReply) -> bool {
    match m.phase {
        InstallPhaseModel::MakePipelineDir => reply is Done || reply is Refused,
        InstallPhaseModel::MakeHooksDir => reply is Done || reply is Refused,
        InstallPhaseModel::Examine(_) => reply is Examined,
        InstallPhaseModel::Place { just, source, link } => reply is Staged || reply is NotStaged,
        InstallPhaseModel::Wrap(_) => reply is Staged || reply is NotStaged,
        InstallPhaseModel::Committing(t) => reply matches InstallReply::Transacted(inner) && fits(
            t,
            inner,
        ),
        InstallPhaseModel::DropPipelineDir(_, _) => reply is Done || reply is Refused,
        InstallPhaseModel::DropHooksDir(_) => reply is Done || reply is Refused,
        _ => false,
    }
}

pub open spec fn with_phase(m: InstallationModel, phase: InstallPhaseModel) -> InstallationModel {
    InstallationModel { phase, ..m }
}

/// Removes the directories that were made, then fails.
pub open spec fn cleaned(m: InstallationModel, failure: InstallFailure) -> InstallationModel {
    with_phase(
        m,
        if !m.job.pipeline_dir_existed {
            InstallPhaseModel::DropPipelineDir(failure, true)
        } else if !m.job.hooks_dir_existed {
            InstallPhaseModel::DropHooksDir(failure)
        } else {
            InstallPhaseModel::Failed(failure)
        },
    )
}

/// Goes on with a transaction, unless it is over.
pub open spec fn transacting(m: InstallationModel, t: TransactionModel) -> InstallationModel {
    match t.phase {
        PhaseModel::Committed => with_phase(m, InstallPhaseModel::Finished),
        PhaseModel::Aborted => cleaned(
            m,
            InstallFailure::Transaction(crate::hooks::transaction::abort_text(t)),
        ),
        _ => with_phase(m, InstallPhaseModel::Committing(t)),
    }
}

/// Goes on with a wrapper, or commits.
pub open spec fn wrapping(m: InstallationModel, k: int) -> InstallationModel {
    if k < m.job.hooks@.len() {
        with_phase(m, InstallPhaseModel::Wrap(k))
    } else {
        transacting(InstallationModel { staged: seq![], ..m }, started(m.staged))
    }
}

/// Goes on after an executable is settled.
pub open spec fn after_executable(m: InstallationModel, just: bool) -> InstallationModel {
    if just {
        wrapping(m, 0)
    } else {
        with_phase(m, InstallPhaseModel::Examine(true))
    }
}

/// What an examination of an executable comes to: what is linked or copied,
/// nothing if the target is the wanted link or copy already, or why it fails.
pub open spec fn examined(
    job: InstallJob,
    just: bool,
    facts: SourceFacts,
    link: TargetLink,
) -> Result<Option<(Seq<u8>, bool)>, InstallFailure> {
    if !usable(facts) {
        Err(
            match facts.canonical {
                Err(text) => InstallFailure::Source(source_of(job, just), text@),
                Ok(canonical) => match facts.mode {
                    Err(reason) => InstallFailure::System(reason@),
                    Ok(_) => InstallFailure::NotExecutable(canonical@),
                },
            },
        )
    } else {
        let source = facts.canonical->Ok_0@;
        if mode_of(job, just) is Copy {
            Ok(
                if same_path(source, place_of(job, just)) {
                    None
                } else {
                    Some((source, false))
                },
            )
        } else if !link.exists {
            Ok(Some((source, true)))
        } else {
            match link.is_link {
                Err(reason) => Err(InstallFailure::System(reason@)),
                Ok(false) => Ok(Some((source, true))),
                Ok(true) => match link.leads_to {
                    Err(reason) => Err(InstallFailure::System(reason@)),
                    Ok(path) => Ok(
                        if same_path(path@, source) {
                            None
                        } else {
                            Some((source, true))
                        },
                    ),
                },
            }
        }
    }
}

/// The installation after a step.
pub open spec fn after_install(m: InstallationModel, reply: InstallReply) -> InstallationModel {
    match (m.phase, reply) {
        (InstallPhaseModel::MakePipelineDir, InstallReply::Done) => with_phase(
            m,
            InstallPhaseModel::MakeHooksDir,
        ),
        (InstallPhaseModel::MakePipelineDir, InstallReply::Refused(text)) => with_phase(
            m,
            InstallPhaseModel::Failed(InstallFailure::System(text@)),
        ),
        (InstallPhaseModel::MakeHooksDir, InstallReply::Done) => with_phase(
            m,
            InstallPhaseModel::Examine(false),
        ),
        (InstallPhaseModel::MakeHooksDir, InstallReply::Refused(text)) => with_phase(
            m,
            if m.job.pipeline_dir_existed {
                InstallPhaseModel::Failed(InstallFailure::System(text@))
            } else {
                InstallPhaseModel::DropPipelineDir(InstallFailure::System(text@), false)
            },
        ),
        (InstallPhaseModel::Examine(just), InstallReply::Examined { source, link }) => {
            match examined(m.job, just, source, link) {
                Err(failure) => cleaned(m, failure),
                Ok(None) => after_executable(m, just),
                Ok(Some((path, linked))) => with_phase(
                    m,
                    InstallPhaseModel::Place { just, source: path, link: linked },
                ),
            }
        },
        (
            InstallPhaseModel::Place { just, source, link },
            InstallReply::Staged(temporary),
        ) => after_executable(
            InstallationModel {
                staged: m.staged.push(executable_entry(m.job, just, temporary@)),
                ..m
            },
            just,
        ),
        (InstallPhaseModel::Wrap(k), InstallReply::Staged(temporary)) => wrapping(
            InstallationModel {
                staged: m.staged.push(wrapper_entry(m.job, k, temporary@)),
                ..m
            },
            k + 1,
        ),
        (_, InstallReply::NotStaged(error)) => cleaned(m, failure_of(error)),
        (InstallPhaseModel::Committing(t), InstallReply::Transacted(inner)) => transacting(
            m,
            after(t, inner),
        ),
        (InstallPhaseModel::DropPipelineDir(failure, both), _) => with_phase(
            m,
            if both && !m.job.hooks_dir_existed {
                InstallPhaseModel::DropHooksDir(failure)
            } else {
                InstallPhaseModel::Failed(failure)
            },
        ),
        (InstallPhaseModel::DropHooksDir(failure), _) => with_phase(
            m,
            InstallPhaseModel::Failed(failure),
        ),
        _ => m,
    }
}

fn source_path(job: &InstallJob, just: bool) -> (path: HostPath)
    ensures
        path@ == source_of(*job, just),
{
    if just {
        job.just_source.clone()
    } else {
        job.pipeline_source.clone()
    }
}

fn place_path(job: &InstallJob, just: bool) -> (path: HostPath)
    ensures
        path@ == place_of(*job, just),
{
    if just {
        job.repository.installed_just()
    } else {
        job.repository.installed_pipeline()
    }
}

fn collect(staged: Vec<StagedEntry>, entry: StagedEntry) -> (list: Vec<StagedEntry>)
    ensures
        entry_views(list@) == entry_views(staged@).push(entry@),
{
    let mut list = staged;
    proof {
        assert(entry_views(list@.push(entry)) =~= entry_views(list@).push(entry@));
    }
    list.push(entry);
    list
}

/// The modes of a job are settled.
spec fn settled(job: InstallJob) -> bool {
    !(job.pipeline_mode is Auto) && !(job.just_mode is Auto)
}

impl Installation {
    #[verifier::type_invariant]
    spec fn is_sound(self) -> bool {
        sound(self@)
    }

    /// Starts an installation.
    pub fn new(job: InstallJob) -> (installation: Installation)
        requires
            !(job.pipeline_mode is Auto),
            !(job.just_mode is Auto),
        ensures
            installation@ == (InstallationModel {
                job,
                staged: seq![],
                phase: InstallPhaseModel::MakePipelineDir,
            }),
    {
        let installation = Installation {
            job,
            staged: Vec::new(),
            phase: InstallPhase::MakePipelineDir,
        };
        proof {
            assert(installation@.staged =~= seq![]);
        }
        installation
    }

    /// The step that comes next.
    pub fn step(&self) -> (step: InstallStep)
        ensures
            install_step_view(step) == next_install_step(self@),
    {
        proof {
            use_type_invariant(self);
        }
        let repository = &self.job.repository;
        match &self.phase {
            InstallPhase::MakePipelineDir => InstallStep::MakeDirectory(repository.pipeline_dir()),
            InstallPhase::MakeHooksDir => InstallStep::MakeDirectory(repository.hooks_dir()),
            InstallPhase::Examine(just) => InstallStep::Examine {
                source: source_path(&self.job, *just),
                target: place_path(&self.job, *just),
            },
            InstallPhase::Place { just, source, link } => {
                let source = source.clone();
                let target = place_path(&self.job, *just);
                if *link {
                    InstallStep::StageLink { source, target }
                } else {
                    InstallStep::StageCopy { source, target, mode: INSTALLED_MODE }
                }
            },
            InstallPhase::Wrap(k) => {
                let k = *k;
                let list = self.job.hooks.as_list();
                proof {
                    assert(views(list@)[k as int] == list@[k as int]@);
                }
                let hook = list[k].as_str();
                InstallStep::StageWrapper {
                    target: hook_path(repository, hook),
                    contents: hook_wrapper(hook),
                    mode: INSTALLED_MODE,
                }
            },
            InstallPhase::Committing(transaction) => InstallStep::Transact(transaction.step()),
            InstallPhase::DropPipelineDir(_, _) => InstallStep::RemoveDirectory(
                repository.pipeline_dir(),
            ),
            InstallPhase::DropHooksDir(_) => InstallStep::RemoveDirectory(repository.hooks_dir()),
            InstallPhase::Finished => InstallStep::End,
            InstallPhase::Failed(_) => InstallStep::End,
        }
    }

    fn clean(job: InstallJob, staged: Vec<StagedEntry>, error: HookError) -> (next: Installation)
        requires
            settled(job),
        ensures
            next@ == cleaned(
                InstallationModel {
                    job,
                    staged: entry_views(staged@),
                    phase: InstallPhaseModel::Finished,
                },
                failure_of(error),
            ),
    {
        let phase = if !job.pipeline_dir_existed {
            InstallPhase::DropPipelineDir(error, true)
        } else if !job.hooks_dir_existed {
            InstallPhase::DropHooksDir(error)
        } else {
            InstallPhase::Failed(error)
        };
        Installation { job, staged, phase }
    }

    fn transact(job: InstallJob, staged: Vec<StagedEntry>, transaction: Transaction) -> (next:
        Installation)
        requires
            settled(job),
            staged_through(job, transaction@.entries, 2, job.hooks@.len() as int),
        ensures
            next@ == transacting(
                InstallationModel {
                    job,
                    staged: entry_views(staged@),
                    phase: InstallPhaseModel::Finished,
                },
                transaction@,
            ),
    {
        match transaction.step() {
            TransactionStep::Commit => Installation { job, staged, phase: InstallPhase::Finished },
            TransactionStep::Abort(text) => Installation::clean(
                job,
                staged,
                HookError::InstallTransaction(text),
            ),
            _ => Installation { job, staged, phase: InstallPhase::Committing(transaction) },
        }
    }

    fn wrap(job: InstallJob, staged: Vec<StagedEntry>, k: usize) -> (next: Installation)
        requires
            settled(job),
            k <= job.hooks@.len(),
            staged_through(job, entry_views(staged@), 2, k as int),
        ensures
            next@ == wrapping(
                InstallationModel {
                    job,
                    staged: entry_views(staged@),
                    phase: InstallPhaseModel::Finished,
                },
                k as int,
            ),
    {
        if k < job.hooks.len() {
            Installation { job, staged, phase: InstallPhase::Wrap(k) }
        } else {
            let none: Vec<StagedEntry> = Vec::new();
            proof {
                assert(entry_views(none@) =~= seq![]);
            }
            Installation::transact(job, none, Transaction::new(staged))
        }
    }

    fn after_executable(job: InstallJob, staged: Vec<StagedEntry>, just: bool) -> (next:
        Installation)
        requires
            settled(job),
            staged_through(job, entry_views(staged@), just as int + 1, 0),
        ensures
            next@ == after_executable(
                InstallationModel {
                    job,
                    staged: entry_views(staged@),
                    phase: InstallPhaseModel::Finished,
                },
                just,
            ),
    {
        if just {
            Installation::wrap(job, staged, 0)
        } else {
            Installation { job, staged, phase: InstallPhase::Examine(true) }
        }
    }

    fn examine(
        job: InstallJob,
        staged: Vec<StagedEntry>,
        just: bool,
        facts: SourceFacts,
        link: TargetLink,
    ) -> (next: Installation)
        requires
            settled(job),
            staged_through(job, entry_views(staged@), just as int, 0),
        ensures
            next@ == after_install(
                InstallationModel {
                    job,
                    staged: entry_views(staged@),
                    phase: InstallPhaseModel::Examine(just),
                },
                InstallReply::Examined { source: facts, link },
            ),
    {
        let mode = if just {
            job.just_mode
        } else {
            job.pipeline_mode
        };
        let source = match executable_source(&source_path(&job, just), &facts) {
            Ok(source) => source,
            Err(error) => {
                return Installation::clean(job, staged, error);
            },
        };
        match staging_of(&source, &place_path(&job, just), mode, &link) {
            Err(error) => Installation::clean(job, staged, error),
            Ok(Staging::Nothing) => Installation::after_executable(job, staged, just),
            Ok(Staging::Copy) => Installation {
                job,
                staged,
                phase: InstallPhase::Place { just, source, link: false },
            },
            Ok(Staging::Link) => Installation {
                job,
                staged,
                phase: InstallPhase::Place { just, source, link: true },
            },
        }
    }

    /// The installation after the step that came next.
    pub fn advance(self, reply: InstallReply) -> (next: Installation)
        requires
            install_fits(self@, reply),
        ensures
            next@ == after_install(self@, reply),
    {
        proof {
            use_type_invariant(&self);
        }
        let Installation { job, staged, phase } = self;
        match phase {
            InstallPhase::MakePipelineDir => match reply {
                InstallReply::Refused(text) => Installation {
                    job,
                    staged,
                    phase: InstallPhase::Failed(HookError::Io(text)),
                },
                _ => Installation { job, staged, phase: InstallPhase::MakeHooksDir },
            },
            InstallPhase::MakeHooksDir => match reply {
                InstallReply::Refused(text) => {
                    let phase = if job.pipeline_dir_existed {
                        InstallPhase::Failed(HookError::Io(text))
                    } else {
                        InstallPhase::DropPipelineDir(HookError::Io(text), false)
                    };
                    Installation { job, staged, phase }
                },
                _ => Installation { job, staged, phase: InstallPhase::Examine(false) },
            },
            InstallPhase::Examine(just) => match reply {
                InstallReply::Examined { source, link } => Installation::examine(
                    job,
                    staged,
                    just,
                    source,
                    link,
                ),
                _ => Installation { job, staged, phase: InstallPhase::Examine(just) },
            },
            InstallPhase::Place { just, source, link } => match reply {
                InstallReply::Staged(temporary) => {
                    let target = place_path(&job, just);
                    let entry = StagedEntry { temporary, target, require_managed: false };
                    proof {
                        lemma_one_more_executable(job, entry_views(staged@), just, entry@);
                    }
                    let staged = collect(staged, entry);
                    Installation::after_executable(job, staged, just)
                },
                InstallReply::NotStaged(error) => Installation::clean(job, staged, error),
                _ => Installation {
                    job,
                    staged,
                    phase: InstallPhase::Place { just, source, link },
                },
            },
            InstallPhase::Wrap(k) => match reply {
                InstallReply::Staged(temporary) => {
                    let names = job.hooks.as_list();
                    proof {
                        assert(views(names@)[k as int] == names@[k as int]@);
                    }
                    let count = names.len();
                    assert(k < count);
                    let target = hook_path(&job.repository, names[k].as_str());
                    let entry = StagedEntry { temporary, target, require_managed: true };
                    proof {
                        lemma_one_more_wrapper(job, entry_views(staged@), k as int, entry@);
                    }
                    let staged = collect(staged, entry);
                    Installation::wrap(job, staged, k + 1)
                },
                InstallReply::NotStaged(error) => Installation::clean(job, staged, error),
                _ => Installation { job, staged, phase: InstallPhase::Wrap(k) },
            },
            InstallPhase::Committing(transaction) => match reply {
                InstallReply::Transacted(inner) => Installation::transact(
                    job,
                    staged,
                    transaction.advance(inner),
                ),
                _ => Installation { job, staged, phase: InstallPhase::Committing(transaction) },
            },
            InstallPhase::DropPipelineDir(error, both) => {
                let phase = if both && !job.hooks_dir_existed {
                    InstallPhase::DropHooksDir(error)
                } else {
                    InstallPhase::Failed(error)
                };
                Installation { job, staged, phase }
            },
            InstallPhase::DropHooksDir(error) => Installation {
                job,
                staged,
                phase: InstallPhase::Failed(error),
            },
            other => Installation { job, staged, phase: other },
        }
    }

    /// What the installation did, once there is nothing left to do.
    pub fn finish(self) -> (result: Result<InstallReport, HookError>)
        requires
            next_install_step(self@) is End,
        ensures
            match self@.phase {
                InstallPhaseModel::Failed(failure) => result matches Err(error) && failure_of(error)
                    == failure,
                _ => result matches Ok(report) && report.hooks == self@.job.hooks
                    && report.pipeline_mode == self@.job.pipeline_mode && report.just_mode
                    == self@.job.just_mode,
            },
    {
        match self.phase {
            InstallPhase::Failed(error) => Err(error),
            _ => Ok(
                InstallReport {
                    hooks: self.job.hooks,
                    pipeline_mode: self.job.pipeline_mode,
                    just_mode: self.job.just_mode,
                },
            ),
        }
    }
}

/// An installation never removes a directory that existed before it.
pub proof fn existing_directories_are_never_removed(m: InstallationModel, reply: InstallReply)
    requires
        sound(m),
        install_fits(m, reply),
        m.phase matches InstallPhaseModel::DropPipelineDir(_, _) ==> !m.job.pipeline_dir_existed,
        m.phase matches InstallPhaseModel::DropHooksDir(_) ==> !m.job.hooks_dir_existed,
    ensures
        after_install(m, reply).job == m.job,
        after_install(m, reply).phase matches InstallPhaseModel::DropPipelineDir(_, _)
            ==> !m.job.pipeline_dir_existed,
        after_install(m, reply).phase matches InstallPhaseModel::DropHooksDir(_)
            ==> !m.job.hooks_dir_existed,
{
}

/// What is staged is what was asked for: the executables that are not in place
/// already, and after them a wrapper for every hook, at the path of its hook. A
/// wrapper replaces nothing that Pipeline does not own.
pub proof fn every_step_keeps_the_staged_list(m: InstallationModel, reply: InstallReply)
    requires
        sound(m),
        install_fits(m, reply),
    ensures
        sound(after_install(m, reply)),
        after_install(m, reply).job == m.job,
{
    match (m.phase, reply) {
        (InstallPhaseModel::Place { just, source, link }, InstallReply::Staged(temporary)) => {
            lemma_one_more_executable(
                m.job,
                m.staged,
                just,
                executable_entry(m.job, just, temporary@),
            );
        },
        (InstallPhaseModel::Wrap(k), InstallReply::Staged(temporary)) => {
            lemma_one_more_wrapper(m.job, m.staged, k, wrapper_entry(m.job, k, temporary@));
        },
        _ => {},
    }
}

proof fn lemma_one_more_executable(
    job: InstallJob,
    staged: Seq<EntryModel>,
    just: bool,
    entry: EntryModel,
)
    requires
        staged_through(job, staged, just as int, 0),
        entry == executable_entry(job, just, entry.temporary),
    ensures
        staged_through(job, staged.push(entry), just as int + 1, 0),
{
    let grown = staged.push(entry);
    if staged.len() == 0 {
        assert(grown[0] == executable_entry(job, just, grown[0].temporary));
    } else {
        let other = choose|other: bool|
            staged[0] == #[trigger] executable_entry(job, other, staged[0].temporary) && (other
                ==> just as int == 2);
        assert(!other);
        assert(grown[0] == staged[0]);
        assert(grown[1] == entry);
    }
}

proof fn lemma_one_more_wrapper(
    job: InstallJob,
    staged: Seq<EntryModel>,
    k: int,
    entry: EntryModel,
)
    requires
        staged_through(job, staged, 2, k),
        k < job.hooks@.len(),
        entry == wrapper_entry(job, k, entry.temporary),
    ensures
        staged_through(job, staged.push(entry), 2, k + 1),
{
    let grown = staged.push(entry);
    let first = staged.len() - k;
    assert forall|j: int| 0 <= j < k + 1 implies (#[trigger] grown[first + j]) == wrapper_entry(
        job,
        j,
        grown[first + j].temporary,
    ) by {
        if j < k {
            assert(grown[first + j] == staged[first + j]);
        }
    }
    if first == 1 {
        let just = choose|just: bool|
            staged[0] == #[trigger] executable_entry(job, just, staged[0].temporary);
        assert(grown[0] == staged[0]);
        assert(grown[0] == executable_entry(job, just, grown[0].temporary));
    }
}

/// The transaction that an installation starts has exactly what was staged:
/// whatever wrapper it places, it looks first who owns what stands there.
pub proof fn transactions_have_what_was_staged(m: InstallationModel, reply: InstallReply)
    requires
        sound(m),
        install_fits(m, reply),
        !(m.phase is Committing),
        after_install(m, reply).phase is Committing,
    ensures
        after_install(m, reply).phase matches InstallPhaseModel::Committing(t) && t == started(
            t.entries,
        ) && staged_through(m.job, t.entries, 2, m.job.hooks@.len() as int),
        m.phase is Examine || m.phase is Place || m.phase is Wrap,
{
    every_step_keeps_the_staged_list(m, reply);
}

/// What is staged can be executed: every wrapper, and every executable that is
/// copied.
pub proof fn staged_files_are_executable(m: InstallationModel, mode: u32)
    requires
        (next_install_step(m) matches InstallStepModel::StageCopy(_, _, given) && mode == given)
            || (next_install_step(m) matches InstallStepModel::StageWrapper(_, _, given) && mode
            == given),
    ensures
        may_execute(FileMode { is_file: true, mode }),
{
    assert(0o755u32 & 0o111 != 0) by (bit_vector);
}

/// Nothing is moved or deleted before everything is staged: the transaction
/// starts with the last entry, once both executables are settled.
pub proof fn nothing_is_replaced_before_everything_is_staged(
    m: InstallationModel,
    reply: InstallReply,
)
    requires
        sound(m),
        install_fits(m, reply),
        !(m.phase is Committing),
        after_install(m, reply).phase is Committing,
    ensures
        m.job.hooks@.len() > 0 ==> m.phase == InstallPhaseModel::Wrap(
            m.job.hooks@.len() - 1,
        ) && reply is Staged,
{
}

} // verus!
