//! The course of a hook over incoming commits.

use crate::dispatch::single::{failure_view, rules_hold, rules_of, RulesView, RunFailure};
use crate::error::{says, PipelineError};
use crate::hooks::error::HookError;
use crate::hooks::repository::Repository;
use crate::native::{lossy, native_views, NativeText};
use crate::policy::{allows_hook, IncomingPolicy, Policy};
use crate::text::{concat2, concat4, views};
use vstd::prelude::*;
use vstd::utf8::encode_utf8;

verus! {

/// What is left to do when incoming commits are accepted.
#[derive(Debug)]
pub enum Acceptance {
    Nothing,
    /// Git is to update the worktree, with these arguments.
    Update(Vec<NativeText>),
}

/// The arguments by which Git updates a worktree to a commit.
pub open spec fn update_arguments(git_dir: Seq<u8>, work_tree: Seq<u8>, commit: Seq<u8>) -> Seq<
    Seq<u8>,
> {
    seq![
        encode_utf8("--git-dir="@ + lossy(git_dir)),
        encode_utf8("--work-tree="@ + lossy(work_tree)),
        encode_utf8("read-tree"@),
        encode_utf8("-u"@),
        encode_utf8("-m"@),
        encode_utf8("HEAD"@),
        commit,
    ]
}

/// What is left to do when incoming commits are accepted: only
/// `push-to-checkout` takes the place of something that Git does itself.
pub open spec fn accepts(
    repository: Repository,
    hook: Seq<char>,
    arguments: Seq<Seq<u8>>,
    result: Result<Acceptance, PipelineError>,
) -> bool {
    if hook != "push-to-checkout"@ {
        result matches Ok(Acceptance::Nothing)
    } else {
        match repository.work_tree {
            None => result matches Err(error) && says(
                error,
                "push-to-checkout requires a non-bare worktree"@,
            ),
            Some(tree) => if arguments.len() == 0 {
                result matches Err(error) && says(
                    error,
                    "the push-to-checkout hook requires a new object ID"@,
                )
            } else {
                result matches Ok(Acceptance::Update(list)) && native_views(list@)
                    == update_arguments(repository.git_dir@, tree@, arguments[0])
            },
        }
    }
}

/// What is left to do when incoming commits are accepted.
pub fn receive_success(repository: &Repository, hook: &str, arguments: &Vec<NativeText>) -> (result:
    Result<Acceptance, PipelineError>)
    ensures
        accepts(*repository, hook@, native_views(arguments@), result),
{
    if !(*hook == *"push-to-checkout") {
        return Ok(Acceptance::Nothing);
    }
    let tree = match &repository.work_tree {
        Some(tree) => tree,
        None => {
            return Err(
                PipelineError::Message(
                    String::from_str("push-to-checkout requires a non-bare worktree"),
                ),
            );
        },
    };
    if arguments.len() == 0 {
        return Err(
            PipelineError::Message(
                String::from_str("the push-to-checkout hook requires a new object ID"),
            ),
        );
    }
    let mut list: Vec<NativeText> = Vec::new();
    list.push(NativeText::from_text(repository.git_dir_option().as_str()));
    list.push(
        NativeText::from_text(concat2("--work-tree=", tree.shown().as_str()).as_str()),
    );
    list.push(NativeText::from_text("read-tree"));
    list.push(NativeText::from_text("-u"));
    list.push(NativeText::from_text("-m"));
    list.push(NativeText::from_text("HEAD"));
    list.push(arguments[0].clone());
    proof {
        assert(native_views(arguments@)[0] == arguments@[0]@);
        assert(native_views(list@) =~= update_arguments(
            repository.git_dir@,
            tree@,
            arguments@[0]@,
        ));
    }
    Ok(Acceptance::Update(list))
}

/// How far a run has got.
#[derive(Debug)]
enum ReceivePhase {
    Read,
    TrustedTree,
    TrustedDiscover,
    TrustedControl,
    Tree(usize),
    Discover(usize),
    Control(usize),
    Run,
    Accept,
    Done(i32),
    Failed(PipelineError),
}

pub enum ReceivePhaseView {
    Read,
    TrustedTree,
    TrustedDiscover,
    TrustedControl,
    Tree(int),
    Discover(int),
    Control(int),
    Run,
    Accept,
    Done(i32),
    Failed(RunFailure),
}

/// A run of a hook over incoming commits.
#[derive(Debug)]
pub struct ReceiveRun {
    hook: String,
    trusted: Option<String>,
    missing_allowed: bool,
    parallel: bool,
    commits: Vec<String>,
    trusted_found: bool,
    candidates: Vec<usize>,
    phase: ReceivePhase,
}

/// The model of a run: `trusted` is the revision whose definition runs over all
/// commits, where the policy names one; `candidates` has the positions of the
/// commits with a definition.
pub struct ReceiveView {
    pub hook: Seq<char>,
    pub trusted: Option<Seq<char>>,
    pub missing_allowed: bool,
    pub parallel: bool,
    pub commits: Seq<Seq<char>>,
    pub trusted_found: bool,
    pub candidates: Seq<int>,
    pub phase: ReceivePhaseView,
}

pub open spec fn revision_view(revision: Option<String>) -> Option<Seq<char>> {
    match revision {
        Some(text) => Some(text@),
        None => None,
    }
}

pub open spec fn positions(list: Seq<usize>) -> Seq<int> {
    Seq::new(list.len(), |k: int| list[k] as int)
}

spec fn receive_phase_view(phase: ReceivePhase) -> ReceivePhaseView {
    match phase {
        ReceivePhase::Read => ReceivePhaseView::Read,
        ReceivePhase::TrustedTree => ReceivePhaseView::TrustedTree,
        ReceivePhase::TrustedDiscover => ReceivePhaseView::TrustedDiscover,
        ReceivePhase::TrustedControl => ReceivePhaseView::TrustedControl,
        ReceivePhase::Tree(i) => ReceivePhaseView::Tree(i as int),
        ReceivePhase::Discover(i) => ReceivePhaseView::Discover(i as int),
        ReceivePhase::Control(i) => ReceivePhaseView::Control(i as int),
        ReceivePhase::Run => ReceivePhaseView::Run,
        ReceivePhase::Accept => ReceivePhaseView::Accept,
        ReceivePhase::Done(code) => ReceivePhaseView::Done(code),
        ReceivePhase::Failed(error) => ReceivePhaseView::Failed(failure_view(error)),
    }
}

impl View for ReceiveRun {
    type V = ReceiveView;

    closed spec fn view(&self) -> ReceiveView {
        ReceiveView {
            hook: self.hook@,
            trusted: revision_view(self.trusted),
            missing_allowed: self.missing_allowed,
            parallel: self.parallel,
            commits: views(self.commits@),
            trusted_found: self.trusted_found,
            candidates: positions(self.candidates@),
            phase: receive_phase_view(self.phase),
        }
    }
}

/// A definition that runs over the tree of a commit: the trusted one, or that
/// of the commit itself.
#[derive(Clone, Copy, Debug, PartialEq, Eq, Structural)]
pub struct Chosen {
    pub commit: usize,
    pub trusted: bool,
}

/// What runs: over every commit that has a definition the trusted one, where
/// there is a trusted revision, or else its own.
pub open spec fn chosen(m: ReceiveView) -> Seq<(int, bool)> {
    Seq::new(m.candidates.len(), |k: int| (m.candidates[k], m.trusted is Some))
}

pub open spec fn chosen_views(list: Seq<Chosen>) -> Seq<(int, bool)> {
    Seq::new(list.len(), |k: int| (list[k].commit as int, list[k].trusted))
}

/// What is to be done next.
#[derive(Debug, PartialEq, Eq)]
pub enum ReceiveStep {
    /// Read what is pushed, and resolve the commits.
    Read,
    /// Check out the trusted revision.
    TrustedTree(String),
    /// Look for a definition in the trusted tree.
    TrustedDiscover,
    /// Hold the control files of the trusted definition against its tree.
    TrustedControl,
    /// Check out an incoming commit.
    Tree(String),
    /// Look for a definition in the tree of the commit.
    Discover,
    /// Hold the control files of that definition against the tree.
    Control,
    /// Run what these definitions have for the hook, side by side if that is
    /// wanted.
    Run { candidates: Vec<Chosen>, parallel: bool },
    /// Accept the commits.
    Accept,
    /// There is nothing left to do.
    End,
}

/// How a step went.
#[derive(Debug)]
pub enum ReceiveReply {
    Commits(Vec<String>),
    Done,
    NotMaterialized(HookError),
    Answer(bool),
    Code(i32),
    Error(PipelineError),
}

/// The positions up to `n`, all of them.
pub open spec fn all_up_to(n: int) -> Seq<int> {
    Seq::new(n as nat, |k: int| k)
}

/// The candidates among the commits up to `n`: in order, and under a trusted
/// revision all of them or none.
pub open spec fn candidates_up_to(m: ReceiveView, n: int) -> bool {
    &&& forall|k: int| 0 <= k < m.candidates.len() ==> 0 <= #[trigger] m.candidates[k] < n
    &&& forall|k: int, l: int|
        0 <= k < l < m.candidates.len() ==> #[trigger] m.candidates[k] < #[trigger] m.candidates[l]
    &&& m.trusted is Some ==> m.candidates == (if m.trusted_found {
        all_up_to(n)
    } else {
        seq![]
    })
}

pub open spec fn receive_sound(m: ReceiveView) -> bool {
    match m.phase {
        ReceivePhaseView::Read => m.candidates.len() == 0 && !m.trusted_found,
        ReceivePhaseView::TrustedTree => m.trusted is Some && m.candidates.len() == 0
            && m.commits.len() > 0 && !m.trusted_found,
        ReceivePhaseView::TrustedDiscover => m.trusted is Some && m.candidates.len() == 0
            && m.commits.len() > 0 && !m.trusted_found,
        ReceivePhaseView::TrustedControl => m.trusted is Some && m.candidates.len() == 0
            && m.commits.len() > 0 && !m.trusted_found,
        ReceivePhaseView::Tree(i) => 0 <= i < m.commits.len() && candidates_up_to(m, i),
        ReceivePhaseView::Discover(i) => m.trusted is None && 0 <= i < m.commits.len()
            && candidates_up_to(m, i),
        ReceivePhaseView::Control(i) => m.trusted is None && 0 <= i < m.commits.len()
            && candidates_up_to(m, i),
        ReceivePhaseView::Run => candidates_up_to(m, m.commits.len() as int),
        _ => true,
    }
}

/// The step is the one that comes next.
pub open spec fn receive_step_fits(step: ReceiveStep, m: ReceiveView) -> bool {
    match m.phase {
        ReceivePhaseView::Read => step is Read,
        ReceivePhaseView::TrustedTree => step matches ReceiveStep::TrustedTree(revision)
            && Some(revision@) == m.trusted,
        ReceivePhaseView::TrustedDiscover => step is TrustedDiscover,
        ReceivePhaseView::TrustedControl => step is TrustedControl,
        ReceivePhaseView::Tree(i) => step matches ReceiveStep::Tree(commit) && commit@
            == m.commits[i],
        ReceivePhaseView::Discover(_) => step is Discover,
        ReceivePhaseView::Control(_) => step is Control,
        ReceivePhaseView::Run => step matches ReceiveStep::Run { candidates, parallel }
            && chosen_views(candidates@) == chosen(m) && parallel == m.parallel,
        ReceivePhaseView::Accept => step is Accept,
        ReceivePhaseView::Done(_) => step is End,
        ReceivePhaseView::Failed(_) => step is End,
    }
}

/// The reply is one that the step can have.
pub open spec fn receive_fits(m: ReceiveView, reply: ReceiveReply) -> bool {
    match m.phase {
        ReceivePhaseView::Read => reply is Commits || reply is Error,
        ReceivePhaseView::TrustedTree => reply is Done || reply is NotMaterialized,
        ReceivePhaseView::TrustedDiscover => reply is Answer || reply is Error,
        ReceivePhaseView::TrustedControl => reply is Done || reply is Error,
        ReceivePhaseView::Tree(_) => reply is Done || reply is NotMaterialized,
        ReceivePhaseView::Discover(_) => reply is Answer || reply is Error,
        ReceivePhaseView::Control(_) => reply is Done || reply is Error,
        ReceivePhaseView::Run => reply is Code || reply is Error,
        ReceivePhaseView::Accept => reply is Code || reply is Error,
        ReceivePhaseView::Done(_) => false,
        ReceivePhaseView::Failed(_) => false,
    }
}

pub open spec fn receive_in(m: ReceiveView, phase: ReceivePhaseView) -> ReceiveView {
    ReceiveView { phase, ..m }
}

/// Goes on with commit `i`, or runs what was found.
pub open spec fn to_commit(m: ReceiveView, i: int) -> ReceiveView {
    receive_in(
        m,
        if i < m.commits.len() {
            ReceivePhaseView::Tree(i)
        } else {
            ReceivePhaseView::Run
        },
    )
}

pub open spec fn undefined_text(hook: Seq<char>, commit: Seq<char>) -> Seq<char> {
    "no Pipeline definition found for "@ + hook + " at commit "@ + commit
}

/// Goes on after it is known whether a commit has a definition.
pub open spec fn judged(m: ReceiveView, i: int, found: bool) -> ReceiveView {
    if found {
        to_commit(ReceiveView { candidates: m.candidates.push(i), ..m }, i + 1)
    } else if m.missing_allowed {
        to_commit(m, i + 1)
    } else {
        receive_in(
            m,
            ReceivePhaseView::Failed(RunFailure::Text(undefined_text(m.hook, m.commits[i]))),
        )
    }
}

/// The run after a step.
pub open spec fn after_receive(m: ReceiveView, reply: ReceiveReply) -> ReceiveView {
    match (m.phase, reply) {
        (ReceivePhaseView::Read, ReceiveReply::Commits(list)) => {
            let known = ReceiveView { commits: views(list@), ..m };
            if list@.len() == 0 {
                receive_in(known, ReceivePhaseView::Accept)
            } else if m.trusted is Some {
                receive_in(known, ReceivePhaseView::TrustedTree)
            } else {
                to_commit(known, 0)
            }
        },
        (ReceivePhaseView::TrustedTree, ReceiveReply::Done) => receive_in(
            m,
            ReceivePhaseView::TrustedDiscover,
        ),
        (ReceivePhaseView::TrustedDiscover, ReceiveReply::Answer(found)) => if found {
            receive_in(m, ReceivePhaseView::TrustedControl)
        } else {
            to_commit(ReceiveView { trusted_found: false, ..m }, 0)
        },
        (ReceivePhaseView::TrustedControl, ReceiveReply::Done) => to_commit(
            ReceiveView { trusted_found: true, ..m },
            0,
        ),
        (ReceivePhaseView::Tree(i), ReceiveReply::Done) => if m.trusted is Some {
            judged(m, i, m.trusted_found)
        } else {
            receive_in(m, ReceivePhaseView::Discover(i))
        },
        (ReceivePhaseView::Discover(i), ReceiveReply::Answer(found)) => if found {
            receive_in(m, ReceivePhaseView::Control(i))
        } else {
            judged(m, i, false)
        },
        (ReceivePhaseView::Control(i), ReceiveReply::Done) => judged(m, i, true),
        (ReceivePhaseView::Run, ReceiveReply::Code(code)) => receive_in(
            m,
            if code == 0 {
                ReceivePhaseView::Accept
            } else {
                ReceivePhaseView::Done(code)
            },
        ),
        (ReceivePhaseView::Accept, ReceiveReply::Code(code)) => receive_in(
            m,
            ReceivePhaseView::Done(code),
        ),
        (_, ReceiveReply::NotMaterialized(error)) => receive_in(
            m,
            ReceivePhaseView::Failed(RunFailure::Given(PipelineError::Hook(error))),
        ),
        (_, ReceiveReply::Error(error)) => receive_in(
            m,
            ReceivePhaseView::Failed(failure_view(error)),
        ),
        _ => m,
    }
}

/// A run that has read nothing yet.
pub open spec fn receive_start(hook: Seq<char>, rules: RulesView) -> ReceiveView {
    ReceiveView {
        hook,
        trusted: if rules.incoming is Trusted {
            rules.trusted_ref
        } else {
            None
        },
        missing_allowed: rules.missing_allowed,
        parallel: rules.parallel_refs,
        commits: seq![],
        trusted_found: false,
        candidates: seq![],
        phase: if !rules.enabled || rules.incoming is Skip {
            ReceivePhaseView::Accept
        } else {
            ReceivePhaseView::Read
        },
    }
}

impl ReceiveRun {
    #[verifier::type_invariant]
    spec fn is_sound(self) -> bool {
        receive_sound(self@)
    }

    /// Starts the run of a hook over incoming commits.
    pub fn new(hook: &str, policy: &Policy) -> (run: ReceiveRun)
        requires
            allows_hook(*policy, hook@) ==> rules_hold(rules_of(*policy, hook@)),
        ensures
            run@ == receive_start(hook@, rules_of(*policy, hook@)),
    {
        let skipped = match policy.hooks.incoming {
            IncomingPolicy::Skip => true,
            _ => false,
        };
        let trusted = match policy.hooks.incoming {
            IncomingPolicy::Trusted => match &policy.hooks.trusted_ref {
                Some(revision) => Some(String::from_str(revision.as_str())),
                None => None,
            },
            _ => None,
        };
        let phase = if !policy.hook_enabled(hook) || skipped {
            ReceivePhase::Accept
        } else {
            ReceivePhase::Read
        };
        let run = ReceiveRun {
            hook: String::from_str(hook),
            trusted,
            missing_allowed: policy.missing_trigger_is_success(),
            parallel: policy.hooks.parallel_refs,
            commits: Vec::new(),
            trusted_found: false,
            candidates: Vec::new(),
            phase,
        };
        proof {
            assert(run@.commits =~= seq![]);
            assert(run@.candidates =~= seq![]);
        }
        run
    }

    /// The step that comes next.
    pub fn step(&self) -> (step: ReceiveStep)
        ensures
            receive_step_fits(step, self@),
    {
        proof {
            use_type_invariant(self);
        }
        match &self.phase {
            ReceivePhase::Read => ReceiveStep::Read,
            ReceivePhase::TrustedTree => ReceiveStep::TrustedTree(
                match &self.trusted {
                    Some(revision) => String::from_str(revision.as_str()),
                    None => String::new(),
                },
            ),
            ReceivePhase::TrustedDiscover => ReceiveStep::TrustedDiscover,
            ReceivePhase::TrustedControl => ReceiveStep::TrustedControl,
            ReceivePhase::Tree(i) => {
                proof {
                    assert(views(self.commits@)[*i as int] == self.commits@[*i as int]@);
                }
                ReceiveStep::Tree(String::from_str(self.commits[*i].as_str()))
            },
            ReceivePhase::Discover(_) => ReceiveStep::Discover,
            ReceivePhase::Control(_) => ReceiveStep::Control,
            ReceivePhase::Run => ReceiveStep::Run {
                candidates: self.choice(),
                parallel: self.parallel,
            },
            ReceivePhase::Accept => ReceiveStep::Accept,
            ReceivePhase::Done(_) => ReceiveStep::End,
            ReceivePhase::Failed(_) => ReceiveStep::End,
        }
    }

    fn choice(&self) -> (list: Vec<Chosen>)
        ensures
            chosen_views(list@) == chosen(self@),
    {
        let trusted = self.trusted.is_some();
        let mut list: Vec<Chosen> = Vec::new();
        let mut k: usize = 0;
        while k < self.candidates.len()
            invariant
                k <= self.candidates@.len(),
                list@.len() == k,
                trusted == (self.trusted is Some),
                forall|l: int|
                    0 <= l < k ==> (#[trigger] list@[l]) == (Chosen {
                        commit: self.candidates@[l],
                        trusted,
                    }),
            decreases self.candidates@.len() - k,
        {
            list.push(Chosen { commit: self.candidates[k], trusted });
            k += 1;
        }
        proof {
            assert(chosen_views(list@) =~= chosen(self@));
        }
        list
    }

    fn in_phase(self, phase: ReceivePhase) -> (next: ReceiveRun)
        requires
            receive_sound(receive_in(self@, receive_phase_view(phase))),
        ensures
            next@ == receive_in(self@, receive_phase_view(phase)),
    {
        ReceiveRun {
            hook: self.hook,
            trusted: self.trusted,
            missing_allowed: self.missing_allowed,
            parallel: self.parallel,
            commits: self.commits,
            trusted_found: self.trusted_found,
            candidates: self.candidates,
            phase,
        }
    }

    fn go_to(self, i: usize) -> (next: ReceiveRun)
        requires
            i <= self@.commits.len(),
            candidates_up_to(self@, i as int),
        ensures
            next@ == to_commit(self@, i as int),
    {
        if i < self.commits.len() {
            self.in_phase(ReceivePhase::Tree(i))
        } else {
            self.in_phase(ReceivePhase::Run)
        }
    }

    /// Goes on to the commits, with a trusted definition or without one.
    fn trust(self, found: bool) -> (next: ReceiveRun)
        requires
            self@.trusted is Some,
            self@.candidates.len() == 0,
            self@.commits.len() > 0,
        ensures
            next@ == to_commit(ReceiveView { trusted_found: found, ..self@ }, 0),
    {
        let next = ReceiveRun {
            hook: self.hook,
            trusted: self.trusted,
            missing_allowed: self.missing_allowed,
            parallel: self.parallel,
            commits: self.commits,
            trusted_found: found,
            candidates: self.candidates,
            phase: ReceivePhase::Accept,
        };
        proof {
            assert(next@.candidates =~= seq![]);
            assert(all_up_to(0) =~= seq![]);
        }
        next.go_to(0)
    }

    fn judge(self, i: usize, found: bool) -> (next: ReceiveRun)
        requires
            i < self@.commits.len(),
            candidates_up_to(self@, i as int),
            self@.trusted is Some ==> found == self@.trusted_found,
        ensures
            next@ == judged(self@, i as int, found),
    {
        let count = self.commits.len();
        assert(i < count);
        if found {
            let mut candidates = self.candidates;
            candidates.push(i);
            let next = ReceiveRun {
                hook: self.hook,
                trusted: self.trusted,
                missing_allowed: self.missing_allowed,
                parallel: self.parallel,
                commits: self.commits,
                trusted_found: self.trusted_found,
                candidates,
                phase: ReceivePhase::Accept,
            };
            proof {
                assert(next@.candidates =~= self@.candidates.push(i as int));
                assert(all_up_to(i + 1) =~= all_up_to(i as int).push(i as int));
            }
            next.go_to(i + 1)
        } else if self.missing_allowed {
            self.go_to(i + 1)
        } else {
            proof {
                assert(views(self.commits@)[i as int] == self.commits@[i as int]@);
            }
            let text = concat4(
                "no Pipeline definition found for ",
                self.hook.as_str(),
                " at commit ",
                self.commits[i].as_str(),
            );
            self.in_phase(ReceivePhase::Failed(PipelineError::Message(text)))
        }
    }

    fn read(self, list: Vec<String>) -> (next: ReceiveRun)
        requires
            self@.phase is Read,
        ensures
            next@ == after_receive(self@, ReceiveReply::Commits(list)),
    {
        proof {
            use_type_invariant(&self);
            assert(views(list@).len() == list@.len());
        }
        let empty = list.len() == 0;
        let trusting = self.trusted.is_some();
        let known = ReceiveRun {
            hook: self.hook,
            trusted: self.trusted,
            missing_allowed: self.missing_allowed,
            parallel: self.parallel,
            commits: list,
            trusted_found: self.trusted_found,
            candidates: self.candidates,
            phase: ReceivePhase::Accept,
        };
        if empty {
            known
        } else if trusting {
            known.in_phase(ReceivePhase::TrustedTree)
        } else {
            known.go_to(0)
        }
    }

    /// The run after the step that came next.
    pub fn advance(self, reply: ReceiveReply) -> (next: ReceiveRun)
        requires
            receive_fits(self@, reply),
        ensures
            next@ == after_receive(self@, reply),
    {
        proof {
            use_type_invariant(&self);
        }
        match reply {
            ReceiveReply::Commits(list) => self.read(list),
            ReceiveReply::NotMaterialized(error) => self.in_phase(
                ReceivePhase::Failed(PipelineError::Hook(error)),
            ),
            ReceiveReply::Error(error) => self.in_phase(ReceivePhase::Failed(error)),
            ReceiveReply::Code(code) => match &self.phase {
                ReceivePhase::Run => if code == 0 {
                    self.in_phase(ReceivePhase::Accept)
                } else {
                    self.in_phase(ReceivePhase::Done(code))
                },
                _ => self.in_phase(ReceivePhase::Done(code)),
            },
            ReceiveReply::Answer(found) => match &self.phase {
                ReceivePhase::TrustedDiscover => if found {
                    self.in_phase(ReceivePhase::TrustedControl)
                } else {
                    self.trust(false)
                },
                ReceivePhase::Discover(i) => {
                    let i = *i;
                    if found {
                        self.in_phase(ReceivePhase::Control(i))
                    } else {
                        self.judge(i, false)
                    }
                },
                _ => self,
            },
            ReceiveReply::Done => match &self.phase {
                ReceivePhase::TrustedTree => self.in_phase(ReceivePhase::TrustedDiscover),
                ReceivePhase::TrustedControl => self.trust(true),
                ReceivePhase::Tree(i) => {
                    let i = *i;
                    if self.trusted.is_some() {
                        let found = self.trusted_found;
                        self.judge(i, found)
                    } else {
                        self.in_phase(ReceivePhase::Discover(i))
                    }
                },
                ReceivePhase::Control(i) => {
                    let i = *i;
                    self.judge(i, true)
                },
                _ => self,
            },
        }
    }

    /// The code of the hook, once there is nothing left to do.
    pub fn finish(self) -> (result: Result<i32, PipelineError>)
        requires
            self@.phase is Done || self@.phase is Failed,
        ensures
            match self@.phase {
                ReceivePhaseView::Done(code) => result == Ok::<i32, PipelineError>(code),
                ReceivePhaseView::Failed(failure) => result matches Err(error) && failure_view(
                    error,
                ) == failure,
                _ => false,
            },
    {
        match self.phase {
            ReceivePhase::Done(code) => Ok(code),
            ReceivePhase::Failed(error) => Err(error),
            _ => Ok(0),
        }
    }
}

/// A hook that is disabled, or skipped by policy, accepts without looking at
/// what is pushed.
pub proof fn skipped_hooks_only_accept(hook: Seq<char>, rules: RulesView)
    requires
        !rules.enabled || rules.incoming is Skip,
    ensures
        receive_start(hook, rules).phase is Accept,
{
}

/// Under a trusted policy the definitions of incoming commits are never looked
/// at.
pub proof fn trusted_policies_ignore_incoming_definitions(m: ReceiveView, reply: ReceiveReply)
    requires
        receive_sound(m),
        receive_fits(m, reply),
        m.trusted is Some,
    ensures
        !(after_receive(m, reply).phase is Discover),
        !(after_receive(m, reply).phase is Control),
        after_receive(m, reply).trusted == m.trusted,
{
}

/// A commit is run over exactly if a definition was found for it, and no commit
/// is run over twice.
pub proof fn commits_with_a_definition_are_candidates(m: ReceiveView, i: int, found: bool, j: int)
    requires
        0 <= i < m.commits.len(),
        candidates_up_to(m, i),
    ensures
        judged(m, i, found).candidates.contains(j) <==> m.candidates.contains(j) || (j == i
            && found),
        m.candidates.no_duplicates(),
        !m.candidates.contains(i),
{
    if found {
        let grown = m.candidates.push(i);
        assert(grown[m.candidates.len() as int] == i);
        assert forall|k: int| 0 <= k < m.candidates.len() implies grown[k]
            == #[trigger] m.candidates[k] by {}
        if m.candidates.contains(j) {
            let k = choose|k: int| 0 <= k < m.candidates.len() && m.candidates[k] == j;
            assert(grown[k] == j);
        }
    }
}

/// Under a trusted policy the trusted definition runs over every commit.
pub proof fn trusted_definitions_run_over_every_commit(m: ReceiveView)
    requires
        receive_sound(m),
        m.phase is Run,
        m.trusted is Some,
    ensures
        chosen(m) =~= (if m.trusted_found {
            Seq::new(m.commits.len(), |k: int| (k, true))
        } else {
            seq![]
        }),
{
}

/// No commit was passed over so far.
pub open spec fn every_commit_counts(m: ReceiveView) -> bool {
    match m.phase {
        ReceivePhaseView::Tree(i) => m.candidates == all_up_to(i),
        ReceivePhaseView::Discover(i) => m.candidates == all_up_to(i),
        ReceivePhaseView::Control(i) => m.candidates == all_up_to(i),
        ReceivePhaseView::Run => m.candidates == all_up_to(m.commits.len() as int),
        _ => true,
    }
}

/// Where a missing definition is denied, nothing runs unless every incoming
/// commit has one.
pub proof fn strict_policies_need_every_definition(m: ReceiveView, reply: ReceiveReply)
    requires
        receive_sound(m),
        receive_fits(m, reply),
        !m.missing_allowed,
        every_commit_counts(m),
    ensures
        every_commit_counts(after_receive(m, reply)),
        !after_receive(m, reply).missing_allowed,
{
    assert(all_up_to(0) =~= seq![]);
    assert(m.candidates.len() == 0 ==> m.candidates =~= seq![]);
    match m.phase {
        ReceivePhaseView::Tree(i) | ReceivePhaseView::Control(i) => {
            assert(all_up_to(i + 1) =~= all_up_to(i).push(i));
        },
        _ => {},
    }
}

/// Commits are accepted only without anything to run, or after everything ran
/// with success.
pub proof fn failed_runs_are_not_accepted(m: ReceiveView, reply: ReceiveReply)
    requires
        receive_sound(m),
        receive_fits(m, reply),
        !(m.phase is Accept),
    ensures
        after_receive(m, reply).phase is Accept ==> (m.phase is Read && (
        reply matches ReceiveReply::Commits(list) && list@.len() == 0)) || (m.phase is Run && (
        reply matches ReceiveReply::Code(code) && code == 0)),
{
}

} // verus!
