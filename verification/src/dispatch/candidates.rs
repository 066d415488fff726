//! Running what several trees have for one hook.

use crate::definition::check::hook_problem;
use crate::definition::error::DefinitionError;
use crate::definition::limits::JobLimit;
use crate::definition::project::{
    variable_views, DefinitionKind, Project, ProjectModel, RunOptions, StdinSource,
};
use crate::definition::selection::{Selection, TargetModel};
use crate::definition::targets::hook_selection;
use crate::dispatch::single::{failure_view, untriggered_text, RunFailure};
use crate::dispatch::untriggered_error;
use crate::error::PipelineError;
use crate::native::{native_views, HostPath, NativeText};
use vstd::prelude::*;
use vstd::utf8::encode_utf8;

verus! {

/// What a definition has for a hook.
#[derive(Debug)]
pub enum HookTargets {
    /// The `hook` recipe of a Pipelinefile, if it has one.
    Recipe,
    Selected(Selection),
    /// Nothing, and that is allowed.
    Nothing,
}

pub enum TargetsView {
    Recipe,
    Selected(Seq<TargetModel>),
    Nothing,
}

pub open spec fn targets_view(result: Result<HookTargets, PipelineError>) -> Result<
    TargetsView,
    RunFailure,
> {
    match result {
        Ok(HookTargets::Recipe) => Ok(TargetsView::Recipe),
        Ok(HookTargets::Selected(selection)) => Ok(TargetsView::Selected(selection@)),
        Ok(HookTargets::Nothing) => Ok(TargetsView::Nothing),
        Err(error) => Err(failure_view(error)),
    }
}

/// What a definition has for a hook.
pub open spec fn targets_of(project: ProjectModel, hook: Seq<char>, missing_allowed: bool) -> Result<
    TargetsView,
    RunFailure,
> {
    match project.config {
        None => Ok(TargetsView::Recipe),
        Some(config) => match hook_problem(hook) {
            Some(problem) => Err(RunFailure::Invalid(problem)),
            None => if hook_selection(config, hook).len() > 0 {
                Ok(TargetsView::Selected(hook_selection(config, hook)))
            } else if missing_allowed {
                Ok(TargetsView::Nothing)
            } else {
                Err(RunFailure::Text(untriggered_text(hook)))
            },
        },
    }
}

/// What a definition has for a hook.
pub fn hook_targets(project: &Project, hook: &str, missing_allowed: bool) -> (result: Result<
    HookTargets,
    PipelineError,
>)
    ensures
        targets_view(result) == targets_of(project@, hook@, missing_allowed),
{
    match project.kind() {
        DefinitionKind::Pipelinefile => Ok(HookTargets::Recipe),
        DefinitionKind::Yaml => match project.selection_for_hook(hook) {
            Err(error) => Err(PipelineError::Definition(error)),
            Ok(selection) => if !selection.is_empty() {
                Ok(HookTargets::Selected(selection))
            } else if missing_allowed {
                Ok(HookTargets::Nothing)
            } else {
                Err(untriggered_error(hook))
            },
        },
    }
}

/// Whether a definition has a trigger for a hook.
#[derive(Debug, PartialEq, Eq)]
pub enum Trigger {
    Known(bool),
    /// It has one if Just knows the `hook` recipe of the Pipelinefile.
    Recipe,
}

/// Whether a definition has a trigger for a hook.
pub open spec fn trigger_of(
    project: ProjectModel,
    hook: Seq<char>,
    result: Result<Trigger, PipelineError>,
) -> bool {
    match project.config {
        None => result matches Ok(Trigger::Recipe),
        Some(config) => match hook_problem(hook) {
            Some(problem) => result matches Err(
                PipelineError::Definition(DefinitionError::Invalid(reason)),
            ) && reason@ == problem,
            None => result matches Ok(Trigger::Known(yes)) && yes == (hook_selection(
                config,
                hook,
            ).len() > 0),
        },
    }
}

/// Whether a definition has a trigger for a hook.
pub fn hook_trigger(project: &Project, hook: &str) -> (result: Result<Trigger, PipelineError>)
    ensures
        trigger_of(project@, hook@, result),
{
    match project.kind() {
        DefinitionKind::Pipelinefile => Ok(Trigger::Recipe),
        DefinitionKind::Yaml => match project.selection_for_hook(hook) {
            Err(error) => Err(PipelineError::Definition(error)),
            Ok(selection) => Ok(Trigger::Known(!selection.is_empty())),
        },
    }
}

/// A definition has a trigger for a hook exactly if there is something to run
/// for it.
pub proof fn triggers_select_something(project: ProjectModel, hook: Seq<char>, trigger: Trigger)
    requires
        trigger_of(project, hook, Ok(trigger)),
    ensures
        trigger == Trigger::Known(true) <==> (targets_of(project, hook, true) matches Ok(
            TargetsView::Selected(_),
        )),
        trigger == Trigger::Known(false) <==> targets_of(project, hook, true) == Ok::<
            TargetsView,
            RunFailure,
        >(TargetsView::Nothing),
        trigger is Recipe <==> targets_of(project, hook, true) == Ok::<TargetsView, RunFailure>(
            TargetsView::Recipe,
        ),
{
}

/// How a candidate is run: a Pipelinefile by its `hook` recipe.
pub fn candidate_options(
    recipe: bool,
    environment: Vec<(NativeText, NativeText)>,
    stdin: StdinSource,
    working_directory: HostPath,
) -> (options: RunOptions)
    ensures
        native_views(options.arguments@) == (if recipe {
            seq![encode_utf8("hook"@)]
        } else {
            seq![]
        }),
        options.job_limit is Default,
        !options.no_deps,
        variable_views(options.environment@) == variable_views(environment@),
        options.stdin@ == stdin@,
        options.working_directory matches Some(path) && path@ == working_directory@,
{
    let mut arguments: Vec<NativeText> = Vec::new();
    if recipe {
        arguments.push(NativeText::from_text("hook"));
        proof {
            assert(native_views(arguments@) =~= seq![encode_utf8("hook"@)]);
        }
    } else {
        proof {
            assert(native_views(arguments@) =~= seq![]);
        }
    }
    RunOptions {
        arguments,
        job_limit: JobLimit::Default,
        no_deps: false,
        environment,
        stdin,
        working_directory: Some(working_directory),
    }
}

/// A candidate that has something to run: a selection, or else its recipe.
#[derive(Debug)]
struct Pick {
    candidate: usize,
    selection: Option<Selection>,
}

pub struct PickView {
    pub candidate: int,
    pub selection: Option<Seq<TargetModel>>,
}

impl View for Pick {
    type V = PickView;

    closed spec fn view(&self) -> PickView {
        PickView {
            candidate: self.candidate as int,
            selection: match self.selection {
                Some(selection) => Some(selection@),
                None => None,
            },
        }
    }
}

spec fn pick_views(list: Seq<Pick>) -> Seq<PickView> {
    Seq::new(list.len(), |i: int| list[i]@)
}

/// The candidates among the first `n` that have something to run, or why one of
/// them fails.
pub open spec fn picks(
    projects: Seq<ProjectModel>,
    hook: Seq<char>,
    missing_allowed: bool,
    n: int,
) -> Result<Seq<PickView>, RunFailure>
    decreases n,
{
    if n <= 0 {
        Ok(seq![])
    } else {
        match picks(projects, hook, missing_allowed, n - 1) {
            Err(failure) => Err(failure),
            Ok(list) => match targets_of(projects[n - 1], hook, missing_allowed) {
                Err(failure) => Err(failure),
                Ok(TargetsView::Nothing) => Ok(list),
                Ok(TargetsView::Recipe) => Ok(
                    list.push(PickView { candidate: n - 1, selection: None }),
                ),
                Ok(TargetsView::Selected(selection)) => Ok(
                    list.push(PickView { candidate: n - 1, selection: Some(selection) }),
                ),
            },
        }
    }
}

/// One that fails, fails for all.
proof fn lemma_picks_fail(
    projects: Seq<ProjectModel>,
    hook: Seq<char>,
    missing_allowed: bool,
    i: int,
    n: int,
)
    requires
        0 <= i <= n,
        picks(projects, hook, missing_allowed, i) is Err,
    ensures
        picks(projects, hook, missing_allowed, n) == picks(projects, hook, missing_allowed, i),
    decreases n,
{
    if i < n {
        lemma_picks_fail(projects, hook, missing_allowed, i, n - 1);
    }
}

pub open spec fn project_views(list: Seq<&Project>) -> Seq<ProjectModel> {
    Seq::new(list.len(), |i: int| list[i]@)
}

spec fn picks_view(result: Result<Vec<Pick>, PipelineError>) -> Result<Seq<PickView>, RunFailure> {
    match result {
        Ok(list) => Ok(pick_views(list@)),
        Err(error) => Err(failure_view(error)),
    }
}

/// Looks at every candidate.
fn select(projects: &Vec<&Project>, hook: &str, missing_allowed: bool) -> (result: Result<
    Vec<Pick>,
    PipelineError,
>)
    ensures
        picks_view(result) == picks(
            project_views(projects@),
            hook@,
            missing_allowed,
            projects@.len() as int,
        ),
{
    let ghost all = project_views(projects@);
    let mut list: Vec<Pick> = Vec::new();
    proof {
        assert(pick_views(list@) =~= seq![]);
    }
    let mut i: usize = 0;
    while i < projects.len()
        invariant
            i <= projects@.len(),
            all == project_views(projects@),
            picks(all, hook@, missing_allowed, i as int) == Ok::<Seq<PickView>, RunFailure>(
                pick_views(list@),
            ),
        decreases projects@.len() - i,
    {
        let ghost before = list@;
        let targets = hook_targets(projects[i], hook, missing_allowed);
        proof {
            assert(all[i as int] == projects@[i as int]@);
            assert(targets_view(targets) == targets_of(all[i as int], hook@, missing_allowed));
        }
        match targets {
            Err(error) => {
                proof {
                    lemma_picks_fail(
                        all,
                        hook@,
                        missing_allowed,
                        i as int + 1,
                        projects@.len() as int,
                    );
                }
                return Err(error);
            },
            Ok(HookTargets::Nothing) => {},
            Ok(HookTargets::Recipe) => {
                list.push(Pick { candidate: i, selection: None });
                proof {
                    assert(pick_views(list@) =~= pick_views(before).push(list@.last()@));
                }
            },
            Ok(HookTargets::Selected(selection)) => {
                list.push(Pick { candidate: i, selection: Some(selection) });
                proof {
                    assert(pick_views(list@) =~= pick_views(before).push(list@.last()@));
                }
            },
        }
        i += 1;
    }
    Ok(list)
}

#[derive(Debug)]
enum CandidatePhase {
    Resolve,
    Inspect(usize),
    Prepare(usize),
    Execute,
    Done(i32),
    Failed(PipelineError),
}

pub enum CandidatePhaseView {
    Resolve,
    Inspect(int),
    Prepare(int),
    Execute,
    Done(i32),
    Failed(RunFailure),
}

/// A run of several candidates.
#[derive(Debug)]
pub struct CandidateRun {
    hook: String,
    missing_allowed: bool,
    count: usize,
    picked: Vec<Pick>,
    prepared: usize,
    phase: CandidatePhase,
}

/// The model of a run: `picked` lists the candidates with something to run,
/// `prepared` counts those that are ready.
pub struct CandidateView {
    pub hook: Seq<char>,
    pub missing_allowed: bool,
    pub count: int,
    pub picked: Seq<PickView>,
    pub prepared: int,
    pub phase: CandidatePhaseView,
}

impl View for CandidateRun {
    type V = CandidateView;

    closed spec fn view(&self) -> CandidateView {
        CandidateView {
            hook: self.hook@,
            missing_allowed: self.missing_allowed,
            count: self.count as int,
            picked: pick_views(self.picked@),
            prepared: self.prepared as int,
            phase: match self.phase {
                CandidatePhase::Resolve => CandidatePhaseView::Resolve,
                CandidatePhase::Inspect(k) => CandidatePhaseView::Inspect(k as int),
                CandidatePhase::Prepare(k) => CandidatePhaseView::Prepare(k as int),
                CandidatePhase::Execute => CandidatePhaseView::Execute,
                CandidatePhase::Done(code) => CandidatePhaseView::Done(code),
                CandidatePhase::Failed(error) => CandidatePhaseView::Failed(failure_view(error)),
            },
        }
    }
}

/// What is to be done next.
#[derive(Clone, Copy, Debug, PartialEq, Eq)]
pub enum CandidateStep {
    /// Find a Just executable.
    Resolve,
    /// Ask Just whether a candidate has a `hook` recipe.
    Inspect(usize),
    /// Prepare the run of a candidate: of its selection, or of its recipe where
    /// it has none.
    Prepare(usize),
    /// Run what is prepared, in order.
    Execute,
    /// There is nothing left to do.
    End,
}

/// How a step went.
#[derive(Debug)]
pub enum CandidateReply {
    Done,
    Answer(bool),
    Code(i32),
    Error(PipelineError),
}

pub open spec fn candidate_sound(m: CandidateView) -> bool {
    &&& forall|k: int|
        0 <= k < m.picked.len() ==> 0 <= (#[trigger] m.picked[k]).candidate < m.count
    &&& 0 <= m.prepared <= m.picked.len()
    &&& match m.phase {
        CandidatePhaseView::Resolve => m.prepared == 0,
        CandidatePhaseView::Inspect(k) => 0 <= k < m.picked.len() && m.prepared <= k
            && m.picked[k].selection is None,
        CandidatePhaseView::Prepare(k) => 0 <= k < m.picked.len() && m.prepared <= k,
        _ => true,
    }
}

/// The step is the one that comes next.
pub open spec fn candidate_step_fits(step: CandidateStep, m: CandidateView) -> bool {
    match m.phase {
        CandidatePhaseView::Resolve => step is Resolve,
        CandidatePhaseView::Inspect(k) => step matches CandidateStep::Inspect(n) && n
            == m.picked[k].candidate,
        CandidatePhaseView::Prepare(k) => step matches CandidateStep::Prepare(n) && n
            == m.picked[k].candidate,
        CandidatePhaseView::Execute => step is Execute,
        CandidatePhaseView::Done(_) => step is End,
        CandidatePhaseView::Failed(_) => step is End,
    }
}

/// The reply is one that the step can have.
pub open spec fn candidate_fits(m: CandidateView, reply: CandidateReply) -> bool {
    match m.phase {
        CandidatePhaseView::Resolve => reply is Done || reply is Error,
        CandidatePhaseView::Inspect(_) => reply is Answer || reply is Error,
        CandidatePhaseView::Prepare(_) => reply is Done || reply is Error,
        CandidatePhaseView::Execute => reply is Code || reply is Error,
        CandidatePhaseView::Done(_) => false,
        CandidatePhaseView::Failed(_) => false,
    }
}

/// What becomes of a hook when no candidate has anything to run.
pub open spec fn idle(m: CandidateView) -> CandidatePhaseView {
    if m.missing_allowed {
        CandidatePhaseView::Done(0)
    } else {
        CandidatePhaseView::Failed(RunFailure::Text(untriggered_text(m.hook)))
    }
}

/// The phase for pick `k`.
pub open spec fn preparing(m: CandidateView, k: int) -> CandidatePhaseView {
    if k < m.picked.len() {
        if m.picked[k].selection is None {
            CandidatePhaseView::Inspect(k)
        } else {
            CandidatePhaseView::Prepare(k)
        }
    } else if m.prepared == 0 {
        idle(m)
    } else {
        CandidatePhaseView::Execute
    }
}

pub open spec fn candidate_in(m: CandidateView, phase: CandidatePhaseView) -> CandidateView {
    CandidateView { phase, ..m }
}

/// The run after a step.
pub open spec fn after_candidate(m: CandidateView, reply: CandidateReply) -> CandidateView {
    match (m.phase, reply) {
        (CandidatePhaseView::Resolve, CandidateReply::Done) => candidate_in(m, preparing(m, 0)),
        (CandidatePhaseView::Inspect(k), CandidateReply::Answer(has)) => if has {
            candidate_in(m, CandidatePhaseView::Prepare(k))
        } else if m.missing_allowed {
            candidate_in(m, preparing(m, k + 1))
        } else {
            candidate_in(
                m,
                CandidatePhaseView::Failed(RunFailure::Text(untriggered_text(m.hook))),
            )
        },
        (CandidatePhaseView::Prepare(k), CandidateReply::Done) => {
            let grown = CandidateView { prepared: m.prepared + 1, ..m };
            candidate_in(grown, preparing(grown, k + 1))
        },
        (CandidatePhaseView::Execute, CandidateReply::Code(code)) => candidate_in(
            m,
            CandidatePhaseView::Done(code),
        ),
        (_, CandidateReply::Error(error)) => candidate_in(
            m,
            CandidatePhaseView::Failed(failure_view(error)),
        ),
        _ => m,
    }
}

/// A run that has prepared nothing yet.
pub open spec fn candidate_start(
    hook: Seq<char>,
    missing_allowed: bool,
    projects: Seq<ProjectModel>,
) -> CandidateView {
    let m = CandidateView {
        hook,
        missing_allowed,
        count: projects.len() as int,
        picked: seq![],
        prepared: 0,
        phase: CandidatePhaseView::Resolve,
    };
    match picks(projects, hook, missing_allowed, projects.len() as int) {
        Err(failure) => candidate_in(m, CandidatePhaseView::Failed(failure)),
        Ok(picked) => if picked.len() == 0 {
            candidate_in(m, idle(m))
        } else {
            CandidateView { picked, ..m }
        },
    }
}

proof fn lemma_picks_are_candidates(
    projects: Seq<ProjectModel>,
    hook: Seq<char>,
    missing_allowed: bool,
    n: int,
)
    requires
        0 <= n,
        picks(projects, hook, missing_allowed, n) is Ok,
    ensures
        forall|k: int|
            0 <= k < picks(projects, hook, missing_allowed, n)->Ok_0.len() ==> 0 <= (
            #[trigger] picks(projects, hook, missing_allowed, n)->Ok_0[k]).candidate < n,
        !missing_allowed ==> picks(projects, hook, missing_allowed, n)->Ok_0.len() == n,
    decreases n,
{
    if n > 0 {
        lemma_picks_are_candidates(projects, hook, missing_allowed, n - 1);
    }
}

impl CandidateRun {
    #[verifier::type_invariant]
    spec fn is_sound(self) -> bool {
        candidate_sound(self@)
    }

    /// Starts to run candidates with these definitions.
    pub fn new(hook: &str, missing_allowed: bool, projects: &Vec<&Project>) -> (run: CandidateRun)
        ensures
            run@ == candidate_start(hook@, missing_allowed, project_views(projects@)),
    {
        let none: Vec<Pick> = Vec::new();
        proof {
            assert(pick_views(none@) =~= seq![]);
        }
        let run = CandidateRun {
            hook: String::from_str(hook),
            missing_allowed,
            count: projects.len(),
            picked: none,
            prepared: 0,
            phase: CandidatePhase::Resolve,
        };
        match select(projects, hook, missing_allowed) {
            Err(error) => run.enter(CandidatePhase::Failed(error)),
            Ok(picked) => {
                if picked.len() == 0 {
                    let phase = run.idle();
                    return run.enter(phase);
                }
                proof {
                    lemma_picks_are_candidates(
                        project_views(projects@),
                        hook@,
                        missing_allowed,
                        projects@.len() as int,
                    );
                }
                CandidateRun {
                    hook: run.hook,
                    missing_allowed,
                    count: run.count,
                    picked,
                    prepared: 0,
                    phase: CandidatePhase::Resolve,
                }
            },
        }
    }

    fn idle(&self) -> (phase: CandidatePhase)
        ensures
            match phase {
                CandidatePhase::Done(code) => idle(self@) == CandidatePhaseView::Done(code),
                CandidatePhase::Failed(error) => idle(self@) == CandidatePhaseView::Failed(
                    failure_view(error),
                ),
                _ => false,
            },
    {
        if self.missing_allowed {
            CandidatePhase::Done(0)
        } else {
            CandidatePhase::Failed(untriggered_error(self.hook.as_str()))
        }
    }

    fn prepare_on(self, k: usize) -> (next: CandidateRun)
        requires
            self@.prepared <= k,
        ensures
            next@ == candidate_in(self@, preparing(self@, k as int)),
    {
        proof {
            use_type_invariant(&self);
        }
        let phase = if k < self.picked.len() {
            if self.picked[k].selection.is_none() {
                CandidatePhase::Inspect(k)
            } else {
                CandidatePhase::Prepare(k)
            }
        } else if self.prepared == 0 {
            self.idle()
        } else {
            CandidatePhase::Execute
        };
        CandidateRun {
            hook: self.hook,
            missing_allowed: self.missing_allowed,
            count: self.count,
            picked: self.picked,
            prepared: self.prepared,
            phase,
        }
    }

    /// The step that comes next.
    pub fn step(&self) -> (step: CandidateStep)
        ensures
            candidate_step_fits(step, self@),
    {
        proof {
            use_type_invariant(self);
        }
        match &self.phase {
            CandidatePhase::Resolve => CandidateStep::Resolve,
            CandidatePhase::Inspect(k) => CandidateStep::Inspect(self.picked[*k].candidate),
            CandidatePhase::Prepare(k) => CandidateStep::Prepare(self.picked[*k].candidate),
            CandidatePhase::Execute => CandidateStep::Execute,
            CandidatePhase::Done(_) => CandidateStep::End,
            CandidatePhase::Failed(_) => CandidateStep::End,
        }
    }

    /// The selection that is to be prepared. A candidate without one runs its
    /// recipe.
    pub fn selection(&self) -> (selection: Option<&Selection>)
        ensures
            match self@.phase {
                CandidatePhaseView::Prepare(k) => match self@.picked[k].selection {
                    Some(wanted) => selection matches Some(found) && found@ == wanted,
                    None => selection is None,
                },
                _ => selection is None,
            },
    {
        proof {
            use_type_invariant(self);
        }
        match &self.phase {
            CandidatePhase::Prepare(k) => {
                proof {
                    assert(pick_views(self.picked@)[*k as int] == self.picked@[*k as int]@);
                }
                match &self.picked[*k].selection {
                    Some(selection) => Some(selection),
                    None => None,
                }
            },
            _ => None,
        }
    }

    fn enter(self, phase: CandidatePhase) -> (next: CandidateRun)
        requires
            match phase {
                CandidatePhase::Prepare(k) => k < self@.picked.len() && self@.prepared <= k,
                CandidatePhase::Done(_) => true,
                CandidatePhase::Failed(_) => true,
                _ => false,
            },
        ensures
            next@ == candidate_in(self@, next@.phase),
            match phase {
                CandidatePhase::Prepare(k) => next@.phase == CandidatePhaseView::Prepare(k as int),
                CandidatePhase::Done(code) => next@.phase == CandidatePhaseView::Done(code),
                CandidatePhase::Failed(error) => next@.phase == CandidatePhaseView::Failed(
                    failure_view(error),
                ),
                _ => false,
            },
    {
        proof {
            use_type_invariant(&self);
        }
        CandidateRun {
            hook: self.hook,
            missing_allowed: self.missing_allowed,
            count: self.count,
            picked: self.picked,
            prepared: self.prepared,
            phase,
        }
    }

    fn ready(self, k: usize) -> (next: CandidateRun)
        requires
            self@.phase == CandidatePhaseView::Prepare(k as int),
        ensures
            next@ == after_candidate(self@, CandidateReply::Done),
    {
        proof {
            use_type_invariant(&self);
        }
        let count = self.picked.len();
        assert(k < count);
        let grown = CandidateRun {
            hook: self.hook,
            missing_allowed: self.missing_allowed,
            count: self.count,
            picked: self.picked,
            prepared: self.prepared + 1,
            phase: CandidatePhase::Execute,
        };
        grown.prepare_on(k + 1)
    }

    fn inspected(self, k: usize, has: bool) -> (next: CandidateRun)
        requires
            self@.phase == CandidatePhaseView::Inspect(k as int),
        ensures
            next@ == after_candidate(self@, CandidateReply::Answer(has)),
    {
        proof {
            use_type_invariant(&self);
        }
        let count = self.picked.len();
        assert(k < count);
        if has {
            self.enter(CandidatePhase::Prepare(k))
        } else if self.missing_allowed {
            self.prepare_on(k + 1)
        } else {
            let error = untriggered_error(self.hook.as_str());
            self.enter(CandidatePhase::Failed(error))
        }
    }

    /// The run after the step that came next.
    pub fn advance(self, reply: CandidateReply) -> (next: CandidateRun)
        requires
            candidate_fits(self@, reply),
        ensures
            next@ == after_candidate(self@, reply),
    {
        proof {
            use_type_invariant(&self);
        }
        match reply {
            CandidateReply::Error(error) => self.enter(CandidatePhase::Failed(error)),
            CandidateReply::Code(code) => self.enter(CandidatePhase::Done(code)),
            CandidateReply::Answer(has) => match &self.phase {
                CandidatePhase::Inspect(k) => {
                    let k = *k;
                    self.inspected(k, has)
                },
                _ => self,
            },
            CandidateReply::Done => match &self.phase {
                CandidatePhase::Prepare(k) => {
                    let k = *k;
                    self.ready(k)
                },
                _ => self.prepare_on(0),
            },
        }
    }

    /// The code of the hook, once there is nothing left to do.
    pub fn finish(self) -> (result: Result<i32, PipelineError>)
        requires
            self@.phase is Done || self@.phase is Failed,
        ensures
            match self@.phase {
                CandidatePhaseView::Done(code) => result == Ok::<i32, PipelineError>(code),
                CandidatePhaseView::Failed(failure) => result matches Err(error) && failure_view(
                    error,
                ) == failure,
                _ => false,
            },
    {
        match self.phase {
            CandidatePhase::Done(code) => Ok(code),
            CandidatePhase::Failed(error) => Err(error),
            _ => Ok(0),
        }
    }
}

/// Nothing was passed over so far.
pub open spec fn gapless(m: CandidateView) -> bool {
    match m.phase {
        CandidatePhaseView::Resolve => m.picked.len() == m.count,
        CandidatePhaseView::Inspect(k) => m.picked.len() == m.count && m.prepared == k,
        CandidatePhaseView::Prepare(k) => m.picked.len() == m.count && m.prepared == k,
        CandidatePhaseView::Execute => m.picked.len() == m.count && m.prepared == m.count,
        _ => true,
    }
}

/// Where a missing trigger is denied, every candidate runs or nothing does.
pub proof fn strict_policies_leave_no_candidate_out(m: CandidateView, reply: CandidateReply)
    requires
        candidate_sound(m),
        candidate_fits(m, reply),
        !m.missing_allowed,
        gapless(m),
    ensures
        gapless(after_candidate(m, reply)),
        !after_candidate(m, reply).missing_allowed,
{
}

/// Such a run starts without a gap.
pub proof fn runs_start_without_a_gap(hook: Seq<char>, projects: Seq<ProjectModel>)
    ensures
        gapless(candidate_start(hook, false, projects)),
{
    if picks(projects, hook, false, projects.len() as int) is Ok {
        lemma_picks_are_candidates(projects, hook, false, projects.len() as int);
    }
}

/// Nothing is executed unless something is prepared.
pub proof fn empty_runs_are_not_executed(m: CandidateView, reply: CandidateReply)
    requires
        candidate_sound(m),
        candidate_fits(m, reply),
        !(m.phase is Execute),
    ensures
        after_candidate(m, reply).phase is Execute ==> after_candidate(m, reply).prepared > 0,
{
}

} // verus!
