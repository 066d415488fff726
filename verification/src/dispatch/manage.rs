//! Adding hooks, and which hooks a definition declares.

use crate::dispatch::single::{failure_view, RunFailure};
use crate::dispatch::{
    added_message, all_tracked, count_text, install_fallback, the_first_untracked_file_is_reported,
    untracked_failure, verify_tracked_paths,
};
use crate::error::PipelineError;
use crate::hooks::error::HookError;
use crate::hooks::request::{HookSelection, InstallModes};
use crate::names::{ascending, NameSet};
use crate::native::{path_views, HostPath};
use crate::policy::Policy;
use crate::text::views;
use vstd::prelude::*;

verus! {

/// Whether a selection asks for the hooks that the definition declares.
pub fn needs_declared(selection: &HookSelection) -> (yes: bool)
    ensures
        yes == (selection is Managed),
{
    match selection {
        HookSelection::Managed => true,
        _ => false,
    }
}

/// How far the search for declared hooks has got.
#[derive(Debug)]
pub enum DeclarePhase<L, F> {
    Materialize,
    /// The flag says that the tree is the worktree itself.
    Discover(bool),
    Control(bool),
    Declared(L),
    Failed(F),
}

pub type DeclareView = DeclarePhase<Seq<Seq<char>>, RunFailure>;

/// A search for the hooks that a definition declares: that of the worktree, or
/// of the current commit where there is none.
#[derive(Debug)]
pub struct Declaration {
    phase: DeclarePhase<Vec<String>, PipelineError>,
}

impl View for Declaration {
    type V = DeclareView;

    closed spec fn view(&self) -> DeclareView {
        match self.phase {
            DeclarePhase::Materialize => DeclarePhase::Materialize,
            DeclarePhase::Discover(here) => DeclarePhase::Discover(here),
            DeclarePhase::Control(here) => DeclarePhase::Control(here),
            DeclarePhase::Declared(list) => DeclarePhase::Declared(views(list@)),
            DeclarePhase::Failed(error) => DeclarePhase::Failed(failure_view(error)),
        }
    }
}

/// What is to be done next.
#[derive(Clone, Copy, Debug, PartialEq, Eq, Structural)]
pub enum DeclareStep {
    /// Check out the current commit.
    Materialize,
    /// Look for a definition in the tree.
    Discover,
    /// Find the control files of the definition in the tree, and list the hooks
    /// that it declares. Where the files have to be tracked, Git is asked about
    /// each of them.
    Control { tracking: bool },
    /// There is nothing left to do.
    End,
}

/// How a step went.
#[derive(Debug)]
pub enum DeclareReply {
    Done,
    NotMaterialized(HookError),
    Answer(bool),
    Hooks(Vec<String>),
    /// The hooks, and the control files with what Git says about each of them.
    Listed {
        hooks: Vec<String>,
        paths: Vec<HostPath>,
        answers: Vec<Result<bool, HookError>>,
    },
    Error(PipelineError),
}

/// The step that comes next.
pub open spec fn next_declare_step(m: DeclareView) -> DeclareStep {
    match m {
        DeclarePhase::Materialize => DeclareStep::Materialize,
        DeclarePhase::Discover(_) => DeclareStep::Discover,
        DeclarePhase::Control(here) => DeclareStep::Control { tracking: here },
        DeclarePhase::Declared(_) => DeclareStep::End,
        DeclarePhase::Failed(_) => DeclareStep::End,
    }
}

/// The reply is one that the step can have.
pub open spec fn declare_fits(m: DeclareView, reply: DeclareReply) -> bool {
    match m {
        DeclarePhase::Materialize => reply is Done || reply is NotMaterialized,
        DeclarePhase::Discover(_) => reply is Answer || reply is Error,
        DeclarePhase::Control(here) => reply is Error || if here {
            reply matches DeclareReply::Listed { hooks, paths, answers } && paths@.len()
                == answers@.len()
        } else {
            reply is Hooks
        },
        DeclarePhase::Declared(_) => false,
        DeclarePhase::Failed(_) => false,
    }
}

/// The search after a step. Where there is no commit yet, or no definition,
/// nothing is declared.
pub open spec fn after_declare(m: DeclareView, reply: DeclareReply) -> DeclareView {
    match (m, reply) {
        (DeclarePhase::Materialize, DeclareReply::Done) => DeclarePhase::Discover(false),
        (DeclarePhase::Materialize, DeclareReply::NotMaterialized(error)) => if error
            is InvalidRevision {
            DeclarePhase::Declared(seq![])
        } else {
            DeclarePhase::Failed(failure_view(PipelineError::Hook(error)))
        },
        (DeclarePhase::Discover(here), DeclareReply::Answer(found)) => if found {
            DeclarePhase::Control(here)
        } else {
            DeclarePhase::Declared(seq![])
        },
        (DeclarePhase::Control(_), DeclareReply::Hooks(list)) => DeclarePhase::Declared(
            views(list@),
        ),
        (DeclarePhase::Control(_), DeclareReply::Listed { hooks, paths, answers }) => {
            if all_tracked(answers@, answers@.len() as int) {
                DeclarePhase::Declared(views(hooks@))
            } else {
                DeclarePhase::Failed(untracked_failure(path_views(paths@), answers@))
            }
        },
        (_, DeclareReply::Error(error)) => DeclarePhase::Failed(failure_view(error)),
        _ => m,
    }
}

fn nothing() -> (list: Vec<String>)
    ensures
        views(list@) == Seq::<Seq<char>>::empty(),
{
    let list: Vec<String> = Vec::new();
    proof {
        assert(views(list@) =~= Seq::<Seq<char>>::empty());
    }
    list
}

impl Declaration {
    /// Starts the search.
    pub fn new(has_work_tree: bool) -> (search: Declaration)
        ensures
            search@ == (if has_work_tree {
                DeclareView::Discover(true)
            } else {
                DeclareView::Materialize
            }),
    {
        if has_work_tree {
            Declaration { phase: DeclarePhase::Discover(true) }
        } else {
            Declaration { phase: DeclarePhase::Materialize }
        }
    }

    /// The step that comes next.
    pub fn step(&self) -> (step: DeclareStep)
        ensures
            step == next_declare_step(self@),
    {
        match &self.phase {
            DeclarePhase::Materialize => DeclareStep::Materialize,
            DeclarePhase::Discover(_) => DeclareStep::Discover,
            DeclarePhase::Control(here) => DeclareStep::Control { tracking: *here },
            DeclarePhase::Declared(_) => DeclareStep::End,
            DeclarePhase::Failed(_) => DeclareStep::End,
        }
    }

    /// The search after the step that came next.
    pub fn advance(self, reply: DeclareReply) -> (next: Declaration)
        requires
            declare_fits(self@, reply),
        ensures
            next@ == after_declare(self@, reply),
    {
        let phase = match (self.phase, reply) {
            (DeclarePhase::Materialize, DeclareReply::Done) => DeclarePhase::Discover(false),
            (DeclarePhase::Materialize, DeclareReply::NotMaterialized(error)) => match error {
                HookError::InvalidRevision(_) => DeclarePhase::Declared(nothing()),
                other => DeclarePhase::Failed(PipelineError::Hook(other)),
            },
            (DeclarePhase::Discover(here), DeclareReply::Answer(found)) => if found {
                DeclarePhase::Control(here)
            } else {
                DeclarePhase::Declared(nothing())
            },
            (DeclarePhase::Control(_), DeclareReply::Hooks(list)) => DeclarePhase::Declared(list),
            (DeclarePhase::Control(_), DeclareReply::Listed { hooks, paths, answers }) => {
                let ghost said = answers@;
                match verify_tracked_paths(&paths, answers) {
                    Ok(()) => DeclarePhase::Declared(hooks),
                    Err(error) => {
                        proof {
                            the_first_untracked_file_is_reported(path_views(paths@), said, error);
                        }
                        DeclarePhase::Failed(error)
                    },
                }
            },
            (_, DeclareReply::Error(error)) => DeclarePhase::Failed(error),
            (other, _) => other,
        };
        Declaration { phase }
    }

    /// The declared hooks, once there is nothing left to do.
    pub fn finish(self) -> (result: Result<NameSet, PipelineError>)
        requires
            next_declare_step(self@) is End,
        ensures
            match self@ {
                DeclarePhase::Declared(list) => {
                    &&& result matches Ok(hooks)
                    &&& ascending(hooks@)
                    &&& forall|name: Seq<char>| #[trigger]
                        hooks@.contains(name) <==> list.contains(name)
                },
                DeclarePhase::Failed(failure) => result matches Err(error) && failure_view(error)
                    == failure,
                _ => true,
            },
    {
        match self.phase {
            DeclarePhase::Declared(list) => Ok(NameSet::from_names(&list)),
            DeclarePhase::Failed(error) => Err(error),
            _ => Ok(NameSet::new()),
        }
    }
}

/// Hooks count as declared only if the control files of the definition passed:
/// in the worktree, only if all of them are tracked.
pub proof fn only_checked_definitions_declare_hooks(m: DeclareView, reply: DeclareReply)
    requires
        declare_fits(m, reply),
    ensures
        after_declare(m, reply) matches DeclarePhase::Declared(list) && list.len() > 0 ==> {
            &&& m is Control
            &&& m == DeclareView::Control(false) ==> reply is Hooks
            &&& m == DeclareView::Control(true) ==> (reply matches DeclareReply::Listed {
                hooks,
                paths,
                answers,
            } && all_tracked(answers@, paths@.len() as int))
        },
{
}

/// How far an addition has got.
#[derive(Debug)]
pub enum AddPhase<T, F> {
    Preflight,
    LoadPolicy,
    ResolveJust { container_fallback: bool },
    Install,
    Added(T),
    Failed(F),
}

pub type AddPhaseView = AddPhase<Seq<char>, RunFailure>;

/// An addition of hooks that is under way.
#[derive(Debug)]
pub struct Addition {
    modes: InstallModes,
    phase: AddPhase<String, PipelineError>,
}

pub struct AdditionView {
    pub modes: InstallModes,
    pub phase: AddPhaseView,
}

impl View for Addition {
    type V = AdditionView;

    closed spec fn view(&self) -> AdditionView {
        AdditionView {
            modes: self.modes,
            phase: match self.phase {
                AddPhase::Preflight => AddPhase::Preflight,
                AddPhase::LoadPolicy => AddPhase::LoadPolicy,
                AddPhase::ResolveJust { container_fallback } => AddPhase::ResolveJust {
                    container_fallback,
                },
                AddPhase::Install => AddPhase::Install,
                AddPhase::Added(text) => AddPhase::Added(text@),
                AddPhase::Failed(error) => AddPhase::Failed(failure_view(error)),
            },
        }
    }
}

/// What is to be done next.
#[derive(Clone, Copy, Debug, PartialEq, Eq, Structural)]
pub enum AddStep {
    /// Check all that does not depend on a Just executable.
    Preflight,
    LoadPolicy,
    /// Find a Just executable, by a container image only where that is allowed.
    ResolveJust { container_fallback: bool },
    Install,
    /// There is nothing left to do.
    End,
}

/// How a step went.
#[derive(Debug)]
pub enum AddReply {
    Done,
    Policy(Policy),
    /// So many hooks were added.
    Added(usize),
    Error(PipelineError),
}

/// The step that comes next.
pub open spec fn next_add_step(m: AdditionView) -> AddStep {
    match m.phase {
        AddPhase::Preflight => AddStep::Preflight,
        AddPhase::LoadPolicy => AddStep::LoadPolicy,
        AddPhase::ResolveJust { container_fallback } => AddStep::ResolveJust {
            container_fallback,
        },
        AddPhase::Install => AddStep::Install,
        AddPhase::Added(_) => AddStep::End,
        AddPhase::Failed(_) => AddStep::End,
    }
}

/// The reply is one that the step can have.
pub open spec fn add_fits(m: AdditionView, reply: AddReply) -> bool {
    match m.phase {
        AddPhase::Preflight => reply is Done || reply is Error,
        AddPhase::LoadPolicy => reply is Policy || reply is Error,
        AddPhase::ResolveJust { container_fallback } => reply is Done || reply is Error,
        AddPhase::Install => reply is Added || reply is Error,
        AddPhase::Added(_) => false,
        AddPhase::Failed(_) => false,
    }
}

/// The addition after a step.
pub open spec fn after_add(m: AdditionView, reply: AddReply) -> AdditionView {
    let phase = match (m.phase, reply) {
        (AddPhase::Preflight, AddReply::Done) => AddPhase::LoadPolicy,
        (AddPhase::LoadPolicy, AddReply::Policy(policy)) => AddPhase::ResolveJust {
            container_fallback: policy.runtime.container_fallback && !(m.modes.just is Link),
        },
        (AddPhase::ResolveJust { container_fallback }, AddReply::Done) => AddPhase::Install,
        (AddPhase::Install, AddReply::Added(count)) => AddPhase::Added(
            count_text("Added"@, count as nat),
        ),
        (_, AddReply::Error(error)) => AddPhase::Failed(failure_view(error)),
        _ => m.phase,
    };
    AdditionView { phase, ..m }
}

impl Addition {
    /// Starts to add hooks.
    pub fn new(selected: &NameSet, modes: InstallModes) -> (addition: Addition)
        ensures
            addition@ == (AdditionView {
                modes,
                phase: if selected@.len() == 0 {
                    AddPhase::Added("No hooks selected."@)
                } else {
                    AddPhase::Preflight
                },
            }),
    {
        if selected.is_empty() {
            Addition { modes, phase: AddPhase::Added(String::from_str("No hooks selected.")) }
        } else {
            Addition { modes, phase: AddPhase::Preflight }
        }
    }

    /// The step that comes next.
    pub fn step(&self) -> (step: AddStep)
        ensures
            step == next_add_step(self@),
    {
        match &self.phase {
            AddPhase::Preflight => AddStep::Preflight,
            AddPhase::LoadPolicy => AddStep::LoadPolicy,
            AddPhase::ResolveJust { container_fallback } => AddStep::ResolveJust {
                container_fallback: *container_fallback,
            },
            AddPhase::Install => AddStep::Install,
            AddPhase::Added(_) => AddStep::End,
            AddPhase::Failed(_) => AddStep::End,
        }
    }

    /// The addition after the step that came next.
    pub fn advance(self, reply: AddReply) -> (next: Addition)
        requires
            add_fits(self@, reply),
        ensures
            next@ == after_add(self@, reply),
    {
        let Addition { modes, phase } = self;
        let phase = match (phase, reply) {
            (AddPhase::Preflight, AddReply::Done) => AddPhase::LoadPolicy,
            (AddPhase::LoadPolicy, AddReply::Policy(policy)) => AddPhase::ResolveJust {
                container_fallback: install_fallback(&policy, modes),
            },
            (AddPhase::ResolveJust { container_fallback: _ }, AddReply::Done) => AddPhase::Install,
            (AddPhase::Install, AddReply::Added(count)) => AddPhase::Added(added_message(count)),
            (_, AddReply::Error(error)) => AddPhase::Failed(error),
            (other, _) => other,
        };
        Addition { modes, phase }
    }

    /// What is told about the addition, once there is nothing left to do.
    pub fn finish(self) -> (result: Result<String, PipelineError>)
        requires
            next_add_step(self@) is End,
        ensures
            match self@.phase {
                AddPhase::Added(text) => result matches Ok(told) && told@ == text,
                AddPhase::Failed(failure) => result matches Err(error) && failure_view(error)
                    == failure,
                _ => true,
            },
    {
        match self.phase {
            AddPhase::Added(text) => Ok(text),
            AddPhase::Failed(error) => Err(error),
            _ => Ok(String::new()),
        }
    }
}

/// A conflict in the repository is found before a Just executable is looked
/// for, so none leads to an image that is pulled for nothing.
pub proof fn conflicts_are_found_before_just(m: AdditionView, reply: AddReply)
    requires
        add_fits(m, reply),
        after_add(m, reply).phase is ResolveJust || after_add(m, reply).phase is Install,
    ensures
        m.phase is LoadPolicy || m.phase is ResolveJust,
        m.phase is LoadPolicy ==> reply is Policy,
        m.phase is ResolveJust ==> reply is Done,
{
}

/// The policy is loaded only after the preflight passed.
pub proof fn the_preflight_comes_first(m: AdditionView, reply: AddReply)
    requires
        add_fits(m, reply),
        after_add(m, reply).phase is LoadPolicy,
    ensures
        m.phase is Preflight && reply is Done,
{
}

/// An explicit link never leads to an image: it must reach the user's own
/// executable.
pub proof fn explicit_links_pull_no_image(m: AdditionView, reply: AddReply)
    requires
        add_fits(m, reply),
        m.modes.just is Link,
        !(m.phase is ResolveJust),
    ensures
        after_add(m, reply).phase matches AddPhase::ResolveJust { container_fallback }
            ==> !container_fallback,
        after_add(m, reply).modes == m.modes,
{
}

} // verus!
