//! How many jobs may run at once.

use vstd::prelude::*;

verus! {

/// A number of jobs: at least one.
#[derive(Clone, Copy, Debug, PartialEq, Eq)]
pub struct JobCount {
    count: usize,
}

impl View for JobCount {
    type V = nat;

    closed spec fn view(&self) -> nat {
        self.count as nat
    }
}

impl JobCount {
    #[verifier::type_invariant]
    spec fn is_positive(self) -> bool {
        self.count > 0
    }

    /// The count, unless it is zero.
    pub fn new(count: usize) -> (result: Option<JobCount>)
        ensures
            result is Some <==> count > 0,
            result matches Some(jobs) ==> jobs@ == count,
    {
        if count == 0 {
            None
        } else {
            Some(JobCount { count })
        }
    }

    /// The count of one.
    pub fn one() -> (jobs: JobCount)
        ensures
            jobs@ == 1,
    {
        JobCount { count: 1 }
    }

    pub fn get(&self) -> (count: usize)
        ensures
            count == self@,
            count > 0,
    {
        proof {
            use_type_invariant(self);
        }
        self.count
    }
}

/// The job limit of a run.
#[derive(Clone, Copy, Debug, PartialEq, Eq)]
pub enum JobLimit {
    Default,
    PerProcess(JobCount),
    Capped(JobCount),
}

impl Default for JobLimit {
    fn default() -> (limit: JobLimit)
        ensures
            limit is Default,
    {
        JobLimit::Default
    }
}

/// The limit of the scheduler.
pub open spec fn outer_limit(limit: JobLimit) -> Option<nat> {
    match limit {
        JobLimit::Default => None,
        JobLimit::PerProcess(jobs) => Some(jobs@),
        JobLimit::Capped(jobs) => Some(jobs@),
    }
}

/// The limit of every nested Just process.
pub open spec fn nested_limit(limit: JobLimit) -> Option<nat> {
    match limit {
        JobLimit::Default => None,
        JobLimit::PerProcess(jobs) => Some(jobs@),
        JobLimit::Capped(_) => Some(1),
    }
}

/// The numbers of an optional count.
pub open spec fn count_view(jobs: Option<JobCount>) -> Option<nat> {
    match jobs {
        Some(count) => Some(count@),
        None => None,
    }
}

impl JobLimit {
    /// The limit of the scheduler, if there is one.
    pub fn outer_jobs(self) -> (jobs: Option<JobCount>)
        ensures
            count_view(jobs) == outer_limit(self),
    {
        match self {
            JobLimit::Default => None,
            JobLimit::PerProcess(jobs) => Some(jobs),
            JobLimit::Capped(jobs) => Some(jobs),
        }
    }

    /// The limit of a nested Just process, if there is one.
    pub fn nested_jobs(self) -> (jobs: Option<JobCount>)
        ensures
            count_view(jobs) == nested_limit(self),
    {
        match self {
            JobLimit::Default => None,
            JobLimit::PerProcess(jobs) => Some(jobs),
            JobLimit::Capped(_) => Some(JobCount::one()),
        }
    }
}

/// A cap never lets a nested process run more jobs than the scheduler, and
/// holds it to a single one.
pub proof fn capped_processes_run_one_job(jobs: JobCount)
    ensures
        outer_limit(JobLimit::Capped(jobs)) == Some(jobs@),
        nested_limit(JobLimit::Capped(jobs)) == Some(1nat),
        nested_limit(JobLimit::PerProcess(jobs)) == outer_limit(JobLimit::PerProcess(jobs)),
{
}

} // verus!
