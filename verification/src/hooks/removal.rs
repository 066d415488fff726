//! Carrying out a removal.
//!
//! A removal says which step comes next and learns how the step went. Every
//! hook is looked at before the first one is deleted.

use crate::hooks::error::HookError;
use crate::hooks::install::{just_place, pipeline_place, replaceable};
use crate::hooks::ownership::{
    all_readable, hook_home, hook_path, installed, installed_managed_hooks, is_managed_hook,
    is_present, managed, read_failure, readable, HookFile,
};
use crate::hooks::repository::{pipeline_home, Repository};
use crate::hooks::request::set_of;
use crate::hooks::{all_supported, checks_hooks, supported_hooks, validate_hooks, SUPPORTED_HOOKS};
use crate::names::NameSet;
use crate::native::HostPath;
use crate::text::views;
use vstd::prelude::*;

verus! {

/// What a removal did.
#[derive(Debug, PartialEq, Eq)]
pub struct RemovalReport {
    pub hooks: NameSet,
    pub removed_binaries: bool,
}

impl Clone for RemovalReport {
    fn clone(&self) -> (copy: RemovalReport)
        ensures
            copy.hooks@ == self.hooks@,
            copy.removed_binaries == self.removed_binaries,
    {
        RemovalReport { hooks: self.hooks.clone(), removed_binaries: self.removed_binaries }
    }
}

impl Default for RemovalReport {
    fn default() -> (report: RemovalReport)
        ensures
            report.hooks@ == Seq::<Seq<char>>::empty(),
            !report.removed_binaries,
    {
        RemovalReport { hooks: NameSet::new(), removed_binaries: false }
    }
}

#[derive(Debug)]
enum RemovalPhase {
    Checking(usize),
    Inspecting(usize),
    Deleting(usize),
    Surveying,
    DroppingPipeline,
    DroppingJust,
    DroppingDirectory,
    Finished,
    Failed(HookError),
}

/// Why a removal failed: a hook is not Pipeline's, or the system refused.
pub enum RemovalFailure {
    Unmanaged(Seq<u8>),
    System(Seq<char>),
    Other(HookError),
}

pub enum RemovalPhaseModel {
    Checking(int),
    Inspecting(int),
    Deleting(int),
    Surveying,
    DroppingPipeline,
    DroppingJust,
    DroppingDirectory,
    Finished,
    Failed(RemovalFailure),
}

/// A removal that is under way.
#[derive(Debug)]
pub struct Removal {
    repository: Repository,
    hooks: NameSet,
    removed: Vec<String>,
    removed_binaries: bool,
    phase: RemovalPhase,
}

pub struct RemovalModel {
    pub repository: Repository,
    pub hooks: Seq<Seq<char>>,
    pub removed: Seq<Seq<char>>,
    pub removed_binaries: bool,
    pub phase: RemovalPhaseModel,
}

pub open spec fn removal_failure(error: HookError) -> RemovalFailure {
    match error {
        HookError::UnmanagedHook(path) => RemovalFailure::Unmanaged(path@),
        HookError::Io(text) => RemovalFailure::System(text@),
        _ => RemovalFailure::Other(error),
    }
}

impl View for Removal {
    type V = RemovalModel;

    closed spec fn view(&self) -> RemovalModel {
        RemovalModel {
            repository: self.repository,
            hooks: self.hooks@,
            removed: views(self.removed@),
            removed_binaries: self.removed_binaries,
            phase: match self.phase {
                RemovalPhase::Checking(i) => RemovalPhaseModel::Checking(i as int),
                RemovalPhase::Inspecting(i) => RemovalPhaseModel::Inspecting(i as int),
                RemovalPhase::Deleting(i) => RemovalPhaseModel::Deleting(i as int),
                RemovalPhase::Surveying => RemovalPhaseModel::Surveying,
                RemovalPhase::DroppingPipeline => RemovalPhaseModel::DroppingPipeline,
                RemovalPhase::DroppingJust => RemovalPhaseModel::DroppingJust,
                RemovalPhase::DroppingDirectory => RemovalPhaseModel::DroppingDirectory,
                RemovalPhase::Finished => RemovalPhaseModel::Finished,
                RemovalPhase::Failed(error) => RemovalPhaseModel::Failed(removal_failure(error)),
            },
        }
    }
}

/// What is to be done next.
#[derive(Debug, PartialEq, Eq)]
pub enum RemovalStep {
    /// Look at a hook path.
    Inspect(HostPath),
    /// Delete a file.
    Delete(HostPath),
    /// Look at the paths of all supported hooks, in their documented order.
    Survey,
    /// Delete a file unless nothing is there.
    DeleteIfPresent(HostPath),
    /// Remove a directory if it is empty; whether that works does not matter.
    RemoveDirectory(HostPath),
    /// There is nothing left to do.
    End,
}

pub enum RemovalStepModel {
    Inspect(Seq<u8>),
    Delete(Seq<u8>),
    Survey,
    DeleteIfPresent(Seq<u8>),
    RemoveDirectory(Seq<u8>),
    End,
}

pub open spec fn removal_step_view(step: RemovalStep) -> RemovalStepModel {
    match step {
        RemovalStep::Inspect(path) => RemovalStepModel::Inspect(path@),
        RemovalStep::Delete(path) => RemovalStepModel::Delete(path@),
        RemovalStep::Survey => RemovalStepModel::Survey,
        RemovalStep::DeleteIfPresent(path) => RemovalStepModel::DeleteIfPresent(path@),
        RemovalStep::RemoveDirectory(path) => RemovalStepModel::RemoveDirectory(path@),
        RemovalStep::End => RemovalStepModel::End,
    }
}

/// How a step went.
#[derive(Debug)]
pub enum RemovalReply {
    Found(HookFile),
    Surveyed(Vec<HookFile>),
    Done,
    Refused(String),
}

pub open spec fn removal_sound(m: RemovalModel) -> bool {
    match m.phase {
        RemovalPhaseModel::Checking(i) => 0 <= i < m.hooks.len(),
        RemovalPhaseModel::Inspecting(i) => 0 <= i < m.hooks.len(),
        RemovalPhaseModel::Deleting(i) => 0 <= i < m.hooks.len(),
        _ => true,
    }
}

/// The step that comes next.
pub open spec fn next_removal_step(m: RemovalModel) -> RemovalStepModel {
    match m.phase {
        RemovalPhaseModel::Checking(i) => RemovalStepModel::Inspect(
            hook_home(m.repository, m.hooks[i]),
        ),
        RemovalPhaseModel::Inspecting(i) => RemovalStepModel::Inspect(
            hook_home(m.repository, m.hooks[i]),
        ),
        RemovalPhaseModel::Deleting(i) => RemovalStepModel::Delete(
            hook_home(m.repository, m.hooks[i]),
        ),
        RemovalPhaseModel::Surveying => RemovalStepModel::Survey,
        RemovalPhaseModel::DroppingPipeline => RemovalStepModel::DeleteIfPresent(
            pipeline_place(m.repository),
        ),
        RemovalPhaseModel::DroppingJust => RemovalStepModel::DeleteIfPresent(
            just_place(m.repository),
        ),
        RemovalPhaseModel::DroppingDirectory => RemovalStepModel::RemoveDirectory(
            pipeline_home(m.repository),
        ),
        RemovalPhaseModel::Finished => RemovalStepModel::End,
        RemovalPhaseModel::Failed(_) => RemovalStepModel::End,
    }
}

/// The reply is one that the step can have.
pub open spec fn removal_fits(m: RemovalModel, reply: RemovalReply) -> bool {
    match m.phase {
        RemovalPhaseModel::Checking(_) => reply is Found,
        RemovalPhaseModel::Inspecting(_) => reply is Found,
        RemovalPhaseModel::Surveying => reply matches RemovalReply::Surveyed(files) && files@.len()
            == SUPPORTED_HOOKS@.len(),
        RemovalPhaseModel::Deleting(_) => reply is Done || reply is Refused,
        RemovalPhaseModel::DroppingPipeline => reply is Done || reply is Refused,
        RemovalPhaseModel::DroppingJust => reply is Done || reply is Refused,
        RemovalPhaseModel::DroppingDirectory => reply is Done || reply is Refused,
        RemovalPhaseModel::Finished => false,
        RemovalPhaseModel::Failed(_) => false,
    }
}

pub open spec fn removal_in(m: RemovalModel, phase: RemovalPhaseModel) -> RemovalModel {
    RemovalModel { phase, ..m }
}

pub open spec fn removal_failed(m: RemovalModel, failure: RemovalFailure) -> RemovalModel {
    removal_in(m, RemovalPhaseModel::Failed(failure))
}

/// Goes on with the next hook, or looks at what is left.
pub open spec fn after_hook(m: RemovalModel, i: int) -> RemovalModel {
    if i + 1 < m.hooks.len() {
        removal_in(m, RemovalPhaseModel::Inspecting(i + 1))
    } else {
        removal_in(m, RemovalPhaseModel::Surveying)
    }
}

/// Some supported hook is installed.
pub open spec fn any_installed(files: Seq<HookFile>) -> bool {
    exists|i: int| 0 <= i < files.len() && managed(#[trigger] files[i])
}

/// The first hook that cannot be looked at.
pub open spec fn first_unreadable(files: Seq<HookFile>) -> int
    decreases files.len(),
{
    if files.len() == 0 {
        0
    } else if !readable(files[0]) {
        0
    } else {
        1 + first_unreadable(files.drop_first())
    }
}

/// A removal that has done nothing yet.
pub open spec fn removal_start(repository: Repository, hooks: Seq<Seq<char>>) -> RemovalModel {
    RemovalModel {
        repository,
        hooks,
        removed: seq![],
        removed_binaries: false,
        phase: if hooks.len() == 0 {
            RemovalPhaseModel::Surveying
        } else {
            RemovalPhaseModel::Checking(0)
        },
    }
}

/// The removal after a step.
pub open spec fn after_removal(m: RemovalModel, reply: RemovalReply) -> RemovalModel {
    match (m.phase, reply) {
        (RemovalPhaseModel::Checking(i), RemovalReply::Found(file)) => if !replaceable(file) {
            removal_failed(
                m,
                if readable(file) {
                    RemovalFailure::Unmanaged(hook_home(m.repository, m.hooks[i]))
                } else {
                    RemovalFailure::System(read_failure(file))
                },
            )
        } else if i + 1 < m.hooks.len() {
            removal_in(m, RemovalPhaseModel::Checking(i + 1))
        } else {
            removal_in(m, RemovalPhaseModel::Inspecting(0))
        },
        (RemovalPhaseModel::Inspecting(i), RemovalReply::Found(file)) => if !readable(file) {
            removal_failed(m, RemovalFailure::System(read_failure(file)))
        } else if managed(file) {
            removal_in(m, RemovalPhaseModel::Deleting(i))
        } else {
            after_hook(m, i)
        },
        (RemovalPhaseModel::Deleting(i), RemovalReply::Done) => after_hook(
            RemovalModel { removed: m.removed.push(m.hooks[i]), ..m },
            i,
        ),
        (RemovalPhaseModel::Surveying, RemovalReply::Surveyed(files)) => if first_unreadable(files@)
            < files@.len() {
            removal_failed(
                m,
                RemovalFailure::System(read_failure(files@[first_unreadable(files@)])),
            )
        } else if any_installed(files@) {
            removal_in(m, RemovalPhaseModel::Finished)
        } else {
            RemovalModel {
                removed_binaries: true,
                phase: RemovalPhaseModel::DroppingPipeline,
                ..m
            }
        },
        (RemovalPhaseModel::DroppingPipeline, RemovalReply::Done) => removal_in(
            m,
            RemovalPhaseModel::DroppingJust,
        ),
        (RemovalPhaseModel::DroppingJust, RemovalReply::Done) => removal_in(
            m,
            RemovalPhaseModel::DroppingDirectory,
        ),
        (RemovalPhaseModel::DroppingDirectory, _) => removal_in(m, RemovalPhaseModel::Finished),
        (_, RemovalReply::Refused(text)) => removal_failed(m, RemovalFailure::System(text@)),
        _ => m,
    }
}

proof fn lemma_first_unreadable(files: Seq<HookFile>)
    ensures
        0 <= first_unreadable(files) <= files.len(),
        all_readable(files, first_unreadable(files)),
        first_unreadable(files) < files.len() ==> !readable(files[first_unreadable(files)]),
    decreases files.len(),
{
    if files.len() > 0 && readable(files[0]) {
        let rest = files.drop_first();
        lemma_first_unreadable(rest);
        assert forall|i: int| 0 <= i < first_unreadable(files) implies readable(
            #[trigger] files[i],
        ) by {
            if i > 0 {
                assert(rest[i - 1] == files[i]);
            }
        }
    }
}

impl Removal {
    #[verifier::type_invariant]
    spec fn is_sound(self) -> bool {
        removal_sound(self@)
    }

    /// Starts a removal, unless a hook has no supported name.
    pub fn new(repository: Repository, hooks: NameSet) -> (result: Result<Removal, HookError>)
        ensures
            all_supported(hooks@) ==> (result matches Ok(removal) && removal@ == removal_start(
                repository,
                hooks@,
            )),
            !all_supported(hooks@) ==> (result matches Err(error) && checks_hooks(
                hooks@,
                Err(error),
            )),
    {
        if let Err(error) = validate_hooks(hooks.as_list()) {
            return Err(error);
        }
        let phase = if hooks.is_empty() {
            RemovalPhase::Surveying
        } else {
            RemovalPhase::Checking(0)
        };
        let removal = Removal {
            repository,
            hooks,
            removed: Vec::new(),
            removed_binaries: false,
            phase,
        };
        proof {
            assert(removal@.removed =~= seq![]);
        }
        Ok(removal)
    }

    fn path_of(&self, i: usize) -> (path: HostPath)
        requires
            i < self@.hooks.len(),
        ensures
            path@ == hook_home(self@.repository, self@.hooks[i as int]),
    {
        let list = self.hooks.as_list();
        proof {
            assert(views(list@)[i as int] == list@[i as int]@);
        }
        hook_path(&self.repository, list[i].as_str())
    }

    /// The step that comes next.
    pub fn step(&self) -> (step: RemovalStep)
        ensures
            removal_step_view(step) == next_removal_step(self@),
    {
        proof {
            use_type_invariant(self);
        }
        match &self.phase {
            RemovalPhase::Checking(i) => RemovalStep::Inspect(self.path_of(*i)),
            RemovalPhase::Inspecting(i) => RemovalStep::Inspect(self.path_of(*i)),
            RemovalPhase::Deleting(i) => RemovalStep::Delete(self.path_of(*i)),
            RemovalPhase::Surveying => RemovalStep::Survey,
            RemovalPhase::DroppingPipeline => RemovalStep::DeleteIfPresent(
                self.repository.installed_pipeline(),
            ),
            RemovalPhase::DroppingJust => RemovalStep::DeleteIfPresent(
                self.repository.installed_just(),
            ),
            RemovalPhase::DroppingDirectory => RemovalStep::RemoveDirectory(
                self.repository.pipeline_dir(),
            ),
            RemovalPhase::Finished => RemovalStep::End,
            RemovalPhase::Failed(_) => RemovalStep::End,
        }
    }

    fn enter(self, phase: RemovalPhase) -> (next: Removal)
        requires
            match phase {
                RemovalPhase::Checking(i) => i < self@.hooks.len(),
                RemovalPhase::Inspecting(i) => i < self@.hooks.len(),
                RemovalPhase::Deleting(i) => i < self@.hooks.len(),
                _ => true,
            },
        ensures
            next@ == removal_in(self@, next@.phase),
            next@.phase == (match phase {
                RemovalPhase::Checking(i) => RemovalPhaseModel::Checking(i as int),
                RemovalPhase::Inspecting(i) => RemovalPhaseModel::Inspecting(i as int),
                RemovalPhase::Deleting(i) => RemovalPhaseModel::Deleting(i as int),
                RemovalPhase::Surveying => RemovalPhaseModel::Surveying,
                RemovalPhase::DroppingPipeline => RemovalPhaseModel::DroppingPipeline,
                RemovalPhase::DroppingJust => RemovalPhaseModel::DroppingJust,
                RemovalPhase::DroppingDirectory => RemovalPhaseModel::DroppingDirectory,
                RemovalPhase::Finished => RemovalPhaseModel::Finished,
                RemovalPhase::Failed(error) => RemovalPhaseModel::Failed(removal_failure(error)),
            }),
    {
        Removal {
            repository: self.repository,
            hooks: self.hooks,
            removed: self.removed,
            removed_binaries: self.removed_binaries,
            phase,
        }
    }

    fn next_hook(self, i: usize) -> (next: Removal)
        requires
            i < self@.hooks.len(),
        ensures
            next@ == after_hook(self@, i as int),
    {
        let count = self.hooks.len();
        if i + 1 < count {
            self.enter(RemovalPhase::Inspecting(i + 1))
        } else {
            self.enter(RemovalPhase::Surveying)
        }
    }

    fn checked(self, i: usize, file: HookFile) -> (next: Removal)
        requires
            self@.phase == RemovalPhaseModel::Checking(i as int),
            i < self@.hooks.len(),
        ensures
            next@ == after_removal(self@, RemovalReply::Found(file)),
    {
        if is_present(&file.probe) {
            match is_managed_hook(&file) {
                Ok(owned) => {
                    if !owned {
                        let path = self.path_of(i);
                        return self.enter(RemovalPhase::Failed(HookError::UnmanagedHook(path)));
                    }
                },
                Err(error) => {
                    return self.enter(RemovalPhase::Failed(error));
                },
            }
        }
        let count = self.hooks.len();
        if i + 1 < count {
            self.enter(RemovalPhase::Checking(i + 1))
        } else {
            self.enter(RemovalPhase::Inspecting(0))
        }
    }

    fn inspected(self, i: usize, file: HookFile) -> (next: Removal)
        requires
            self@.phase == RemovalPhaseModel::Inspecting(i as int),
            i < self@.hooks.len(),
        ensures
            next@ == after_removal(self@, RemovalReply::Found(file)),
    {
        match is_managed_hook(&file) {
            Ok(owned) => if owned {
                self.enter(RemovalPhase::Deleting(i))
            } else {
                self.next_hook(i)
            },
            Err(error) => self.enter(RemovalPhase::Failed(error)),
        }
    }

    fn deleted(self, i: usize) -> (next: Removal)
        requires
            self@.phase == RemovalPhaseModel::Deleting(i as int),
            i < self@.hooks.len(),
        ensures
            next@ == after_removal(self@, RemovalReply::Done),
    {
        let Removal { repository, hooks, removed, removed_binaries, phase: _ } = self;
        let mut removed = removed;
        let list = hooks.as_list();
        let name = String::from_str(list[i].as_str());
        proof {
            assert(views(list@)[i as int] == list@[i as int]@);
            assert(views(removed@.push(name)) =~= views(removed@).push(name@));
        }
        removed.push(name);
        let grown = Removal {
            repository,
            hooks,
            removed,
            removed_binaries,
            phase: RemovalPhase::Surveying,
        };
        grown.next_hook(i)
    }

    fn surveyed(self, files: Vec<HookFile>) -> (next: Removal)
        requires
            self@.phase is Surveying,
            files@.len() == SUPPORTED_HOOKS@.len(),
        ensures
            next@ == after_removal(self@, RemovalReply::Surveyed(files)),
    {
        let found = installed_managed_hooks(&files);
        proof {
            lemma_survey(files@, found);
        }
        match found {
            Err(error) => self.enter(RemovalPhase::Failed(error)),
            Ok(hooks) => if hooks.is_empty() {
                Removal {
                    repository: self.repository,
                    hooks: self.hooks,
                    removed: self.removed,
                    removed_binaries: true,
                    phase: RemovalPhase::DroppingPipeline,
                }
            } else {
                self.enter(RemovalPhase::Finished)
            },
        }
    }

    /// The removal after the step that came next.
    pub fn advance(self, reply: RemovalReply) -> (next: Removal)
        requires
            removal_fits(self@, reply),
        ensures
            next@ == after_removal(self@, reply),
    {
        proof {
            use_type_invariant(&self);
        }
        match reply {
            RemovalReply::Found(file) => match &self.phase {
                RemovalPhase::Checking(i) => {
                    let i = *i;
                    self.checked(i, file)
                },
                RemovalPhase::Inspecting(i) => {
                    let i = *i;
                    self.inspected(i, file)
                },
                _ => self,
            },
            RemovalReply::Surveyed(files) => self.surveyed(files),
            RemovalReply::Done => match &self.phase {
                RemovalPhase::Deleting(i) => {
                    let i = *i;
                    self.deleted(i)
                },
                RemovalPhase::DroppingPipeline => self.enter(RemovalPhase::DroppingJust),
                RemovalPhase::DroppingJust => self.enter(RemovalPhase::DroppingDirectory),
                _ => self.enter(RemovalPhase::Finished),
            },
            RemovalReply::Refused(text) => match &self.phase {
                RemovalPhase::DroppingDirectory => self.enter(RemovalPhase::Finished),
                _ => self.enter(RemovalPhase::Failed(HookError::Io(text))),
            },
        }
    }

    /// What the removal did, once there is nothing left to do.
    pub fn finish(self) -> (result: Result<RemovalReport, HookError>)
        requires
            next_removal_step(self@) is End,
        ensures
            match self@.phase {
                RemovalPhaseModel::Failed(failure) => result matches Err(error) && removal_failure(
                    error,
                ) == failure,
                _ => result matches Ok(report) && set_of(report.hooks@, self@.removed)
                    && report.removed_binaries == self@.removed_binaries,
            },
    {
        match self.phase {
            RemovalPhase::Failed(error) => Err(error),
            _ => {
                let hooks = NameSet::from_names(&self.removed);
                proof {
                    assert forall|name: Seq<char>| #[trigger]
                        hooks@.contains(name) <==> views(self.removed@).contains(name) by {}
                }
                Ok(RemovalReport { hooks, removed_binaries: self.removed_binaries })
            },
        }
    }
}

proof fn lemma_survey(files: Seq<HookFile>, found: Result<NameSet, HookError>)
    requires
        files.len() == SUPPORTED_HOOKS@.len(),
        crate::hooks::ownership::lists_installed(files, found),
    ensures
        first_unreadable(files) < files.len() ==> (found matches Err(HookError::Io(text)) && text@
            == read_failure(files[first_unreadable(files)])),
        first_unreadable(files) >= files.len() ==> (found matches Ok(set) && (set@.len() == 0 <==>
            !any_installed(files))),
{
    lemma_first_unreadable(files);
    let at = first_unreadable(files);
    if at < files.len() {
        assert(!all_readable(files, files.len() as int));
        let i = choose|i: int|
            0 <= i < files.len() && !readable(#[trigger] files[i]) && all_readable(files, i)
                && found->Err_0->Io_0@ == read_failure(files[i]);
        assert(i == at);
    } else {
        assert(all_readable(files, files.len() as int));
        let set = found->Ok_0;
        if any_installed(files) {
            let i = choose|i: int| 0 <= i < files.len() && managed(#[trigger] files[i]);
            let name = supported_hooks()[i];
            assert(installed(files, name));
            assert(set@.contains(name));
        }
        if set@.len() > 0 {
            assert(set@.contains(set@[0]));
            assert(installed(files, set@[0]));
        }
    }
}

/// A hook is deleted only right after it was seen to be Pipeline's own.
pub proof fn only_managed_hooks_are_deleted(m: RemovalModel, reply: RemovalReply)
    requires
        removal_sound(m),
        removal_fits(m, reply),
        !(m.phase is Deleting),
    ensures
        after_removal(m, reply).phase is Deleting ==> (reply matches RemovalReply::Found(file)
            && managed(file)),
{
}

/// No hook is deleted before all of them were checked: the first inspection
/// follows the last check.
pub proof fn every_hook_is_checked_before_the_first_deletion(m: RemovalModel, reply: RemovalReply)
    requires
        removal_sound(m),
        removal_fits(m, reply),
        m.phase is Checking,
    ensures
        !(after_removal(m, reply).phase is Deleting),
        after_removal(m, reply).phase is Inspecting ==> m.phase == RemovalPhaseModel::Checking(
            m.hooks.len() - 1,
        ),
        after_removal(m, reply).removed == m.removed,
{
}

/// The executables go only when no supported hook is left that Pipeline owns.
pub proof fn executables_go_with_the_last_hook(m: RemovalModel, reply: RemovalReply)
    requires
        removal_sound(m),
        removal_fits(m, reply),
        m.phase is Surveying,
    ensures
        after_removal(m, reply).phase is DroppingPipeline ==> (reply matches RemovalReply::Surveyed(
            files,
        ) && !any_installed(files@)),
{
}

} // verus!
