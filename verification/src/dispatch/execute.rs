//! Running what is prepared: one run after the other, or all at once.

use crate::dispatch::single::{failure_view, RunFailure};
use crate::dispatch::{combined_code, first_failure, runs_together};
use crate::error::PipelineError;
use vstd::prelude::*;

verus! {

#[derive(Debug)]
enum ExecutePhase {
    Run(usize),
    Start(usize),
    Wait,
    Reap { index: usize, started: usize, error: PipelineError },
    Done(i32),
    Failed(PipelineError),
}

pub enum ExecutePhaseView {
    Run(int),
    Start(int),
    Wait,
    Reap { index: int, started: int, failure: RunFailure },
    Done(int),
    Failed(RunFailure),
}

/// An execution that is under way.
#[derive(Debug)]
pub struct Execution {
    count: usize,
    codes: Vec<i32>,
    phase: ExecutePhase,
}

/// The model of an execution: `codes` holds those of the runs that were waited
/// for.
pub struct ExecutionView {
    pub count: int,
    pub codes: Seq<i32>,
    pub phase: ExecutePhaseView,
}

impl View for Execution {
    type V = ExecutionView;

    closed spec fn view(&self) -> ExecutionView {
        ExecutionView {
            count: self.count as int,
            codes: self.codes@,
            phase: match self.phase {
                ExecutePhase::Run(i) => ExecutePhaseView::Run(i as int),
                ExecutePhase::Start(i) => ExecutePhaseView::Start(i as int),
                ExecutePhase::Wait => ExecutePhaseView::Wait,
                ExecutePhase::Reap { index, started, error } => ExecutePhaseView::Reap {
                    index: index as int,
                    started: started as int,
                    failure: failure_view(error),
                },
                ExecutePhase::Done(code) => ExecutePhaseView::Done(code as int),
                ExecutePhase::Failed(error) => ExecutePhaseView::Failed(failure_view(error)),
            },
        }
    }
}

/// What is to be done next.
#[derive(Clone, Copy, Debug, PartialEq, Eq)]
pub enum ExecuteStep {
    /// Run a prepared run to its end.
    Run(usize),
    /// Start a prepared run.
    Start(usize),
    /// Wait for a run that was started.
    Wait(usize),
    /// Wait for a run that was started, whatever comes of it.
    Reap(usize),
    /// There is nothing left to do.
    End,
}

/// How a step went.
#[derive(Debug)]
pub enum ExecuteReply {
    Code(i32),
    Started,
    /// The process of a run could not be started.
    NotStarted(PipelineError),
    Reaped,
    Error(PipelineError),
}

pub open spec fn execution_sound(m: ExecutionView) -> bool {
    match m.phase {
        ExecutePhaseView::Run(i) => 0 <= i < m.count,
        ExecutePhaseView::Start(i) => 0 <= i < m.count && m.codes.len() == 0,
        ExecutePhaseView::Wait => m.codes.len() < m.count,
        ExecutePhaseView::Reap { index, started, failure } => 0 <= index < started <= m.count,
        _ => true,
    }
}

/// The step is the one that comes next.
pub open spec fn execute_step_fits(step: ExecuteStep, m: ExecutionView) -> bool {
    match m.phase {
        ExecutePhaseView::Run(i) => step matches ExecuteStep::Run(n) && n == i,
        ExecutePhaseView::Start(i) => step matches ExecuteStep::Start(n) && n == i,
        ExecutePhaseView::Wait => step matches ExecuteStep::Wait(n) && n == m.codes.len(),
        ExecutePhaseView::Reap { index, started, failure } => step matches ExecuteStep::Reap(n)
            && n == index,
        ExecutePhaseView::Done(_) => step is End,
        ExecutePhaseView::Failed(_) => step is End,
    }
}

/// The reply is one that the step can have.
pub open spec fn execute_fits(m: ExecutionView, reply: ExecuteReply) -> bool {
    match m.phase {
        ExecutePhaseView::Run(_) => reply is Code || reply is Error,
        ExecutePhaseView::Start(_) => reply is Started || reply is NotStarted || reply is Error,
        ExecutePhaseView::Wait => reply is Code || reply is Error,
        ExecutePhaseView::Reap { index, started, failure } => reply is Reaped,
        ExecutePhaseView::Done(_) => false,
        ExecutePhaseView::Failed(_) => false,
    }
}

/// The first phase of an execution.
pub open spec fn execute_start(parallel: bool, count: int) -> ExecutePhaseView {
    if count == 0 {
        ExecutePhaseView::Done(0)
    } else if parallel && count >= 2 {
        ExecutePhaseView::Start(0)
    } else {
        ExecutePhaseView::Run(0)
    }
}

/// The execution after a step.
pub open spec fn after_execute(m: ExecutionView, reply: ExecuteReply) -> ExecutionView {
    match (m.phase, reply) {
        (ExecutePhaseView::Run(i), ExecuteReply::Code(code)) => ExecutionView {
            phase: if code != 0 {
                ExecutePhaseView::Done(code as int)
            } else if i + 1 < m.count {
                ExecutePhaseView::Run(i + 1)
            } else {
                ExecutePhaseView::Done(0)
            },
            ..m
        },
        (ExecutePhaseView::Start(i), ExecuteReply::Started) => ExecutionView {
            phase: if i + 1 < m.count {
                ExecutePhaseView::Start(i + 1)
            } else {
                ExecutePhaseView::Wait
            },
            ..m
        },
        (ExecutePhaseView::Start(i), ExecuteReply::NotStarted(error)) => ExecutionView {
            phase: if i == 0 {
                ExecutePhaseView::Failed(failure_view(error))
            } else {
                ExecutePhaseView::Reap { index: 0, started: i, failure: failure_view(error) }
            },
            ..m
        },
        (ExecutePhaseView::Wait, ExecuteReply::Code(code)) => {
            let codes = m.codes.push(code);
            ExecutionView {
                codes,
                phase: if codes.len() < m.count {
                    ExecutePhaseView::Wait
                } else {
                    ExecutePhaseView::Done(first_failure(codes))
                },
                ..m
            }
        },
        (
            ExecutePhaseView::Reap { index, started, failure },
            ExecuteReply::Reaped,
        ) => ExecutionView {
            phase: if index + 1 < started {
                ExecutePhaseView::Reap { index: index + 1, started, failure }
            } else {
                ExecutePhaseView::Failed(failure)
            },
            ..m
        },
        (_, ExecuteReply::Error(error)) => ExecutionView {
            phase: ExecutePhaseView::Failed(failure_view(error)),
            ..m
        },
        _ => m,
    }
}

impl Execution {
    #[verifier::type_invariant]
    spec fn is_sound(self) -> bool {
        execution_sound(self@)
    }

    /// Starts to execute a number of prepared runs.
    pub fn new(parallel: bool, count: usize) -> (execution: Execution)
        ensures
            execution@.count == count,
            execution@.codes == Seq::<i32>::empty(),
            execution@.phase == execute_start(parallel, count as int),
    {
        let phase = if count == 0 {
            ExecutePhase::Done(0)
        } else if runs_together(parallel, count) {
            ExecutePhase::Start(0)
        } else {
            ExecutePhase::Run(0)
        };
        Execution { count, codes: Vec::new(), phase }
    }

    /// The step that comes next.
    pub fn step(&self) -> (step: ExecuteStep)
        ensures
            execute_step_fits(step, self@),
    {
        match &self.phase {
            ExecutePhase::Run(i) => ExecuteStep::Run(*i),
            ExecutePhase::Start(i) => ExecuteStep::Start(*i),
            ExecutePhase::Wait => ExecuteStep::Wait(self.codes.len()),
            ExecutePhase::Reap { index, started: _, error: _ } => ExecuteStep::Reap(*index),
            ExecutePhase::Done(_) => ExecuteStep::End,
            ExecutePhase::Failed(_) => ExecuteStep::End,
        }
    }

    /// The execution after the step that came next.
    pub fn advance(self, reply: ExecuteReply) -> (next: Execution)
        requires
            execute_fits(self@, reply),
        ensures
            next@ == after_execute(self@, reply),
    {
        proof {
            use_type_invariant(&self);
        }
        let Execution { count, codes, phase } = self;
        let mut codes = codes;
        let phase = match (phase, reply) {
            (ExecutePhase::Run(i), ExecuteReply::Code(code)) => if code != 0 {
                ExecutePhase::Done(code)
            } else if i + 1 < count {
                ExecutePhase::Run(i + 1)
            } else {
                ExecutePhase::Done(0)
            },
            (ExecutePhase::Start(i), ExecuteReply::Started) => if i + 1 < count {
                ExecutePhase::Start(i + 1)
            } else {
                ExecutePhase::Wait
            },
            (ExecutePhase::Start(i), ExecuteReply::NotStarted(error)) => if i == 0 {
                ExecutePhase::Failed(error)
            } else {
                ExecutePhase::Reap { index: 0, started: i, error }
            },
            (ExecutePhase::Wait, ExecuteReply::Code(code)) => {
                codes.push(code);
                if codes.len() < count {
                    ExecutePhase::Wait
                } else {
                    ExecutePhase::Done(combined_code(&codes))
                }
            },
            (ExecutePhase::Reap { index, started, error }, ExecuteReply::Reaped) => if index + 1
                < started {
                ExecutePhase::Reap { index: index + 1, started, error }
            } else {
                ExecutePhase::Failed(error)
            },
            (_, ExecuteReply::Error(error)) => ExecutePhase::Failed(error),
            (other, _) => other,
        };
        Execution { count, codes, phase }
    }

    /// The code of the execution, once there is nothing left to do.
    pub fn finish(self) -> (result: Result<i32, PipelineError>)
        requires
            self@.phase is Done || self@.phase is Failed,
        ensures
            match self@.phase {
                ExecutePhaseView::Done(code) => result matches Ok(own) && own == code,
                ExecutePhaseView::Failed(failure) => result matches Err(error) && failure_view(
                    error,
                ) == failure,
                _ => true,
            },
    {
        match self.phase {
            ExecutePhase::Done(code) => Ok(code),
            ExecutePhase::Failed(error) => Err(error),
            _ => Ok(0),
        }
    }
}

/// How many runs are started and not waited for yet.
pub open spec fn outstanding(m: ExecutionView) -> int {
    match m.phase {
        ExecutePhaseView::Start(i) => i,
        ExecutePhaseView::Wait => m.count - m.codes.len(),
        ExecutePhaseView::Reap { index, started, failure } => started - index,
        _ => 0,
    }
}

/// Every run that was started is waited for, also where a later one could not
/// be started: only an error of the system in between leaves one behind.
pub proof fn started_runs_are_waited_for(m: ExecutionView, reply: ExecuteReply)
    requires
        execution_sound(m),
        execute_fits(m, reply),
        !(reply is Error),
    ensures
        outstanding(after_execute(m, reply)) == outstanding(m) + (match (m.phase, reply) {
            (_, ExecuteReply::Started) => 1int,
            (ExecutePhaseView::Wait, ExecuteReply::Code(_)) => -1,
            (_, ExecuteReply::Reaped) => -1,
            _ => 0,
        }),
        execution_sound(after_execute(m, reply)),
{
}

/// One after the other, no run starts after one that failed.
pub proof fn a_failure_stops_the_queue(m: ExecutionView, code: i32)
    requires
        m.phase is Run,
        code != 0,
    ensures
        after_execute(m, ExecuteReply::Code(code)).phase == ExecutePhaseView::Done(code as int),
{
}

/// Runs that go together all start before any is waited for, and all are waited
/// for before the execution ends with a code.
pub proof fn runs_together_are_all_waited_for(m: ExecutionView, reply: ExecuteReply)
    requires
        execution_sound(m),
        execute_fits(m, reply),
        m.phase is Start || m.phase is Wait,
    ensures
        after_execute(m, reply).phase is Done ==> after_execute(m, reply).codes.len() == m.count,
        m.phase is Start && after_execute(m, reply).phase is Wait ==> m.phase
            == ExecutePhaseView::Start(m.count - 1) && reply is Started,
{
}

} // verus!
