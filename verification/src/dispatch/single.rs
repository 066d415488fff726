//! The course of a hook over one tree.
//!
//! A run says which step comes next and learns how the step went. Hooks that
//! speak a protocol with Git always get an answer of their own: a definition
//! without a trigger is answered as if there were no hook.

use crate::definition::error::DefinitionError;
use crate::dispatch::{
    all_tracked, the_first_untracked_file_is_reported, untracked_failure, untriggered_error,
    verify_tracked_paths,
};
use crate::error::PipelineError;
use crate::hooks::error::HookError;
use crate::native::{path_views, HostPath};
use crate::policy::{allows_hook, IncomingPolicy, Policy};
use vstd::prelude::*;

verus! {

/// Which way a hook goes.
#[derive(Clone, Copy, Debug, PartialEq, Eq, Structural)]
pub enum HookRoute {
    /// Over every incoming commit.
    Receive,
    /// `proc-receive`, over the current or trusted tree.
    Protocol,
    /// `fsmonitor-watchman`, over the worktree.
    Monitor,
    /// Any other hook, over the worktree.
    WorkTree,
    /// Any other hook of a bare repository, over the current or trusted tree.
    Bare,
}

/// A hook that Git calls for pushed references.
pub open spec fn receives(hook: Seq<char>) -> bool {
    hook == "pre-receive"@ || hook == "update"@ || hook == "post-receive"@ || hook
        == "post-update"@ || hook == "push-to-checkout"@
}

/// Whether a hook is one that Git calls for pushed references.
pub fn is_receive_hook(hook: &str) -> (yes: bool)
    ensures
        yes == receives(hook@),
{
    *hook == *"pre-receive" || *hook == *"update" || *hook == *"post-receive" || *hook
        == *"post-update" || *hook == *"push-to-checkout"
}

pub open spec fn route_of(hook: Seq<char>, bare: bool, has_work_tree: bool) -> HookRoute {
    if receives(hook) || (hook == "reference-transaction"@ && bare) {
        HookRoute::Receive
    } else if hook == "proc-receive"@ {
        HookRoute::Protocol
    } else if hook == "fsmonitor-watchman"@ {
        HookRoute::Monitor
    } else if has_work_tree {
        HookRoute::WorkTree
    } else {
        HookRoute::Bare
    }
}

/// Which way a hook goes.
pub fn hook_route(hook: &str, bare: bool, has_work_tree: bool) -> (route: HookRoute)
    ensures
        route == route_of(hook@, bare, has_work_tree),
{
    if is_receive_hook(hook) || (*hook == *"reference-transaction" && bare) {
        HookRoute::Receive
    } else if *hook == *"proc-receive" {
        HookRoute::Protocol
    } else if *hook == *"fsmonitor-watchman" {
        HookRoute::Monitor
    } else if has_work_tree {
        HookRoute::WorkTree
    } else {
        HookRoute::Bare
    }
}

/// What the policy says about one hook.
pub struct RulesView {
    pub enabled: bool,
    pub incoming: IncomingPolicy,
    pub trusted_ref: Option<Seq<char>>,
    pub missing_allowed: bool,
    pub parallel_refs: bool,
}

pub open spec fn rules_of(policy: Policy, hook: Seq<char>) -> RulesView {
    RulesView {
        enabled: allows_hook(policy, hook),
        incoming: policy.hooks.incoming,
        trusted_ref: match policy.hooks.trusted_ref {
            Some(revision) => Some(revision@),
            None => None,
        },
        missing_allowed: policy.hooks.missing_trigger is Allow,
        parallel_refs: policy.hooks.parallel_refs,
    }
}

/// A trusted definition has a revision.
pub open spec fn rules_hold(rules: RulesView) -> bool {
    rules.incoming is Trusted ==> rules.trusted_ref is Some
}

/// The revision whose definition counts.
pub open spec fn reference_for(rules: RulesView) -> Seq<char> {
    match (rules.incoming, rules.trusted_ref) {
        (IncomingPolicy::Trusted, Some(revision)) => revision,
        _ => "HEAD"@,
    }
}

fn reference_text(policy: &Policy) -> (reference: String)
    ensures
        forall|hook: Seq<char>|
            reference@ == reference_for(#[trigger] rules_of(*policy, hook)),
{
    if let IncomingPolicy::Trusted = policy.hooks.incoming {
        if let Some(revision) = &policy.hooks.trusted_ref {
            return String::from_str(revision.as_str());
        }
    }
    String::from_str("HEAD")
}

/// Why a hook fails: with a message of its own, for an invalid definition, or
/// with another error from below.
pub enum RunFailure {
    Text(Seq<char>),
    Invalid(Seq<char>),
    Given(PipelineError),
}

pub open spec fn failure_view(error: PipelineError) -> RunFailure {
    match error {
        PipelineError::Message(text) => RunFailure::Text(text@),
        PipelineError::Definition(DefinitionError::Invalid(reason)) => RunFailure::Invalid(reason@),
        _ => RunFailure::Given(error),
    }
}

pub open spec fn untriggered_text(hook: Seq<char>) -> Seq<char> {
    "no Pipeline trigger is declared for Git hook `"@ + hook + "`"@
}

/// How far a run has got.
#[derive(Debug)]
pub enum RunPhase<F> {
    Materialize,
    Discover,
    Control,
    Trigger,
    Run,
    Fallback,
    Done(i32),
    Failed(F),
}

/// A run of a hook over one tree.
#[derive(Debug)]
pub struct HookRun {
    route: HookRoute,
    hook: String,
    reference: String,
    tolerant: bool,
    missing_allowed: bool,
    phase: RunPhase<PipelineError>,
}

/// The model of a run. `tolerant` says that a revision that is not there counts
/// as a missing trigger that is allowed.
pub struct RunView {
    pub route: HookRoute,
    pub hook: Seq<char>,
    pub reference: Seq<char>,
    pub tolerant: bool,
    pub missing_allowed: bool,
    pub phase: RunPhase<RunFailure>,
}

pub open spec fn run_phase_view(phase: RunPhase<PipelineError>) -> RunPhase<RunFailure> {
    match phase {
        RunPhase::Materialize => RunPhase::Materialize,
        RunPhase::Discover => RunPhase::Discover,
        RunPhase::Control => RunPhase::Control,
        RunPhase::Trigger => RunPhase::Trigger,
        RunPhase::Run => RunPhase::Run,
        RunPhase::Fallback => RunPhase::Fallback,
        RunPhase::Done(code) => RunPhase::Done(code),
        RunPhase::Failed(error) => RunPhase::Failed(failure_view(error)),
    }
}

impl View for HookRun {
    type V = RunView;

    closed spec fn view(&self) -> RunView {
        RunView {
            route: self.route,
            hook: self.hook@,
            reference: self.reference@,
            tolerant: self.tolerant,
            missing_allowed: self.missing_allowed,
            phase: run_phase_view(self.phase),
        }
    }
}

/// What is to be done next.
#[derive(Clone, Debug, PartialEq, Eq)]
pub enum RunStep {
    /// Check a revision out into a directory of its own.
    Materialize(String),
    /// Look for a definition in the tree.
    Discover,
    /// Find the control files of the definition in the tree. Where they have to
    /// be tracked, Git is asked about each of them.
    Control { tracking: bool },
    /// Find out whether the definition has a trigger for the hook.
    Trigger,
    /// Run what the definition has for the hook.
    Run,
    /// Answer Git as if there were no `proc-receive` hook.
    PassThrough,
    /// Answer Git as if there were no `fsmonitor-watchman` hook.
    ReportEverything,
    /// There is nothing left to do.
    End,
}

/// How a step went.
#[derive(Debug)]
pub enum RunReply {
    Done,
    /// The revision could not be checked out.
    NotMaterialized(HookError),
    /// Whether there is a definition, or a trigger.
    Answer(bool),
    /// The control files, with what Git says about each of them.
    Listed { paths: Vec<HostPath>, answers: Vec<Result<bool, HookError>> },
    Code(i32),
    Error(PipelineError),
}

/// The hook runs in the worktree itself, where anything may lie about: what
/// controls it has to be tracked by Git.
pub open spec fn over_worktree(route: HookRoute) -> bool {
    route is WorkTree || route is Monitor
}

/// The step that comes next.
pub open spec fn run_step_fits(step: RunStep, m: RunView) -> bool {
    match m.phase {
        RunPhase::Materialize => step matches RunStep::Materialize(reference) && reference@
            == m.reference,
        RunPhase::Discover => step is Discover,
        RunPhase::Control => step == (RunStep::Control { tracking: over_worktree(m.route) }),
        RunPhase::Trigger => step is Trigger,
        RunPhase::Run => step is Run,
        RunPhase::Fallback => if m.route is Protocol {
            step is PassThrough
        } else {
            step is ReportEverything
        },
        RunPhase::Done(_) => step is End,
        RunPhase::Failed(_) => step is End,
    }
}

/// The reply is one that the step can have.
pub open spec fn run_fits(m: RunView, reply: RunReply) -> bool {
    match m.phase {
        RunPhase::Materialize => reply is Done || reply is NotMaterialized,
        RunPhase::Discover => reply is Answer || reply is Error,
        RunPhase::Control => reply is Error || if over_worktree(m.route) {
            reply matches RunReply::Listed { paths, answers } && paths@.len() == answers@.len()
        } else {
            reply is Done
        },
        RunPhase::Trigger => reply is Answer || reply is Error,
        RunPhase::Run => reply is Code || reply is Error,
        RunPhase::Fallback => reply is Code || reply is Error,
        RunPhase::Done(_) => false,
        RunPhase::Failed(_) => false,
    }
}

/// A hook that speaks a protocol with Git.
pub open spec fn speaks(route: HookRoute) -> bool {
    route is Protocol || route is Monitor
}

/// What becomes of a hook that has no trigger.
pub open spec fn without_trigger(m: RunView) -> RunPhase<RunFailure> {
    if !m.missing_allowed {
        RunPhase::Failed(RunFailure::Text(untriggered_text(m.hook)))
    } else if speaks(m.route) {
        RunPhase::Fallback
    } else {
        RunPhase::Done(0)
    }
}

/// What follows when the control files passed.
pub open spec fn controlled(m: RunView) -> RunPhase<RunFailure> {
    if speaks(m.route) {
        RunPhase::Trigger
    } else {
        RunPhase::Run
    }
}

/// The run after a step.
pub open spec fn after_run(m: RunView, reply: RunReply) -> RunView {
    let phase = match (m.phase, reply) {
        (RunPhase::Materialize, RunReply::Done) => RunPhase::Discover,
        (RunPhase::Materialize, RunReply::NotMaterialized(error)) => if error is InvalidRevision
            && m.tolerant {
            if speaks(m.route) {
                RunPhase::Fallback
            } else {
                RunPhase::Done(0)
            }
        } else {
            RunPhase::Failed(RunFailure::Given(PipelineError::Hook(error)))
        },
        (RunPhase::Discover, RunReply::Answer(found)) => if found {
            RunPhase::Control
        } else {
            without_trigger(m)
        },
        (RunPhase::Control, RunReply::Done) => controlled(m),
        (RunPhase::Control, RunReply::Listed { paths, answers }) => if all_tracked(
            answers@,
            answers@.len() as int,
        ) {
            controlled(m)
        } else {
            RunPhase::Failed(untracked_failure(path_views(paths@), answers@))
        },
        (RunPhase::Trigger, RunReply::Answer(has)) => if has {
            RunPhase::Run
        } else {
            without_trigger(m)
        },
        (RunPhase::Run, RunReply::Code(code)) => RunPhase::Done(code),
        (RunPhase::Fallback, RunReply::Code(code)) => RunPhase::Done(code),
        (_, RunReply::Error(error)) => RunPhase::Failed(failure_view(error)),
        _ => m.phase,
    };
    RunView { phase, ..m }
}

/// The first phase of a run.
pub open spec fn first_phase(route: HookRoute, rules: RulesView, has_work_tree: bool) -> RunPhase<
    RunFailure,
> {
    match route {
        HookRoute::Protocol => if !rules.enabled || rules.incoming is Skip {
            RunPhase::Fallback
        } else {
            RunPhase::Materialize
        },
        HookRoute::Monitor => if !rules.enabled || !has_work_tree {
            RunPhase::Fallback
        } else {
            RunPhase::Discover
        },
        HookRoute::WorkTree => if rules.enabled {
            RunPhase::Discover
        } else {
            RunPhase::Done(0)
        },
        _ => if rules.enabled {
            RunPhase::Materialize
        } else {
            RunPhase::Done(0)
        },
    }
}

/// A revision that is not there is tolerated: for `proc-receive` under the
/// project's own definition, otherwise unless a trusted one is asked for.
pub open spec fn tolerates(route: HookRoute, rules: RulesView) -> bool {
    rules.missing_allowed && if route is Protocol {
        rules.incoming is Project
    } else {
        !(rules.incoming is Trusted)
    }
}

impl HookRun {
    /// Starts the run of a hook that does not receive commits.
    pub fn new(route: HookRoute, hook: &str, policy: &Policy, has_work_tree: bool) -> (run: HookRun)
        requires
            !(route is Receive),
            first_phase(route, rules_of(*policy, hook@), has_work_tree) is Materialize
                ==> rules_hold(rules_of(*policy, hook@)),
        ensures
            run@ == ({
                let rules = rules_of(*policy, hook@);
                RunView {
                    route,
                    hook: hook@,
                    reference: reference_for(rules),
                    tolerant: tolerates(route, rules),
                    missing_allowed: rules.missing_allowed,
                    phase: first_phase(route, rules, has_work_tree),
                }
            }),
    {
        let enabled = policy.hook_enabled(hook);
        let allowed = policy.missing_trigger_is_success();
        let trusted = match policy.hooks.incoming {
            IncomingPolicy::Trusted => true,
            _ => false,
        };
        let skipped = match policy.hooks.incoming {
            IncomingPolicy::Skip => true,
            _ => false,
        };
        let (phase, tolerant) = match route {
            HookRoute::Protocol => (
                if !enabled || skipped {
                    RunPhase::Fallback
                } else {
                    RunPhase::Materialize
                },
                allowed && !trusted && !skipped,
            ),
            HookRoute::Monitor => (
                if !enabled || !has_work_tree {
                    RunPhase::Fallback
                } else {
                    RunPhase::Discover
                },
                allowed && !trusted,
            ),
            HookRoute::WorkTree => (
                if enabled {
                    RunPhase::Discover
                } else {
                    RunPhase::Done(0)
                },
                allowed && !trusted,
            ),
            _ => (
                if enabled {
                    RunPhase::Materialize
                } else {
                    RunPhase::Done(0)
                },
                allowed && !trusted,
            ),
        };
        HookRun {
            route,
            hook: String::from_str(hook),
            reference: reference_text(policy),
            tolerant,
            missing_allowed: allowed,
            phase,
        }
    }

    /// The step that comes next.
    pub fn step(&self) -> (step: RunStep)
        ensures
            run_step_fits(step, self@),
    {
        match &self.phase {
            RunPhase::Materialize => RunStep::Materialize(
                String::from_str(self.reference.as_str()),
            ),
            RunPhase::Discover => RunStep::Discover,
            RunPhase::Control => RunStep::Control {
                tracking: matches!(self.route, HookRoute::WorkTree | HookRoute::Monitor),
            },
            RunPhase::Trigger => RunStep::Trigger,
            RunPhase::Run => RunStep::Run,
            RunPhase::Fallback => match self.route {
                HookRoute::Protocol => RunStep::PassThrough,
                _ => RunStep::ReportEverything,
            },
            RunPhase::Done(_) => RunStep::End,
            RunPhase::Failed(_) => RunStep::End,
        }
    }

    fn is_speaking(&self) -> (yes: bool)
        ensures
            yes == speaks(self@.route),
    {
        match self.route {
            HookRoute::Protocol => true,
            HookRoute::Monitor => true,
            _ => false,
        }
    }

    fn no_trigger(&self) -> (phase: RunPhase<PipelineError>)
        ensures
            run_phase_view(phase) == without_trigger(self@),
    {
        if !self.missing_allowed {
            RunPhase::Failed(untriggered_error(self.hook.as_str()))
        } else if self.is_speaking() {
            RunPhase::Fallback
        } else {
            RunPhase::Done(0)
        }
    }

    /// The run after the step that came next.
    pub fn advance(self, reply: RunReply) -> (next: HookRun)
        requires
            run_fits(self@, reply),
        ensures
            next@ == after_run(self@, reply),
    {
        let speaking = self.is_speaking();
        let phase = match reply {
            RunReply::Done => match &self.phase {
                RunPhase::Materialize => RunPhase::Discover,
                _ => if speaking {
                    RunPhase::Trigger
                } else {
                    RunPhase::Run
                },
            },
            RunReply::Listed { paths, answers } => {
                let ghost said = answers@;
                match verify_tracked_paths(&paths, answers) {
                    Ok(()) => {
                        if speaking {
                            RunPhase::Trigger
                        } else {
                            RunPhase::Run
                        }
                    },
                    Err(error) => {
                        proof {
                            the_first_untracked_file_is_reported(path_views(paths@), said, error);
                        }
                        RunPhase::Failed(error)
                    },
                }
            },
            RunReply::NotMaterialized(error) => {
                let unknown = match &error {
                    HookError::InvalidRevision(_) => true,
                    _ => false,
                };
                if unknown && self.tolerant {
                    if speaking {
                        RunPhase::Fallback
                    } else {
                        RunPhase::Done(0)
                    }
                } else {
                    RunPhase::Failed(PipelineError::Hook(error))
                }
            },
            RunReply::Answer(yes) => if !yes {
                self.no_trigger()
            } else {
                match &self.phase {
                    RunPhase::Discover => RunPhase::Control,
                    _ => RunPhase::Run,
                }
            },
            RunReply::Code(code) => RunPhase::Done(code),
            RunReply::Error(error) => RunPhase::Failed(error),
        };
        HookRun {
            route: self.route,
            hook: self.hook,
            reference: self.reference,
            tolerant: self.tolerant,
            missing_allowed: self.missing_allowed,
            phase,
        }
    }

    /// The code of the hook, once there is nothing left to do.
    pub fn finish(self) -> (result: Result<i32, PipelineError>)
        requires
            self@.phase is Done || self@.phase is Failed,
        ensures
            match self@.phase {
                RunPhase::Done(code) => result == Ok::<i32, PipelineError>(code),
                RunPhase::Failed(failure) => result matches Err(error) && failure_view(error)
                    == failure,
                _ => false,
            },
    {
        match self.phase {
            RunPhase::Done(code) => Ok(code),
            RunPhase::Failed(error) => Err(error),
            _ => Ok(0),
        }
    }
}

/// A hook that speaks a protocol with Git never succeeds in silence: it ends
/// with a code only after the definition ran or the fallback answered.
pub proof fn protocol_hooks_always_answer(m: RunView, reply: RunReply)
    requires
        run_fits(m, reply),
        speaks(m.route),
    ensures
        after_run(m, reply).phase is Done ==> m.phase is Run || m.phase is Fallback,
        after_run(m, reply).route == m.route,
{
}

/// Such a hook does not start with a code either.
pub proof fn protocol_hooks_do_not_start_done(
    route: HookRoute,
    rules: RulesView,
    has_work_tree: bool,
)
    requires
        speaks(route),
    ensures
        !(first_phase(route, rules, has_work_tree) is Done),
{
}

/// A definition runs only after its control files passed.
pub proof fn control_files_are_checked_before_a_run(m: RunView, reply: RunReply)
    requires
        run_fits(m, reply),
        !(m.phase is Run),
        !(m.phase is Trigger),
    ensures
        after_run(m, reply).phase is Run || after_run(m, reply).phase is Trigger ==> m.phase is Control
            && !(reply is Error),
{
}

/// What controls a hook that runs in the worktree is tracked, all of it, when
/// the hook runs.
pub proof fn worktree_hooks_are_controlled_by_tracked_files(m: RunView, reply: RunReply)
    requires
        run_fits(m, reply),
        m.phase is Control,
        over_worktree(m.route),
    ensures
        after_run(m, reply).phase is Run || after_run(m, reply).phase is Trigger <==> (
        reply matches RunReply::Listed { paths, answers } && all_tracked(
            answers@,
            paths@.len() as int,
        )),
{
}

/// Git is answered in place of a hook only where it waits for an answer.
pub proof fn only_protocol_hooks_are_answered(m: RunView, reply: RunReply)
    requires
        run_fits(m, reply),
        !speaks(m.route),
        !(m.phase is Fallback),
    ensures
        !(after_run(m, reply).phase is Fallback),
        after_run(m, reply).route == m.route,
{
}

/// A disabled hook runs nothing.
pub proof fn disabled_hooks_run_nothing(route: HookRoute, rules: RulesView, has_work_tree: bool)
    requires
        !rules.enabled,
    ensures
        first_phase(route, rules, has_work_tree) is Done || first_phase(
            route,
            rules,
            has_work_tree,
        ) is Fallback,
{
}

/// Under a trusted policy only the trusted revision is ever checked out, and a
/// revision that is not there is an error.
pub proof fn trusted_policies_use_the_trusted_revision(route: HookRoute, rules: RulesView)
    requires
        rules_hold(rules),
        rules.incoming is Trusted,
    ensures
        Some(reference_for(rules)) == rules.trusted_ref,
        !tolerates(route, rules),
{
}

} // verus!
