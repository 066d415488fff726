//! What a run consists of: whole pipelines and single jobs.

use vstd::prelude::*;

verus! {

/// One job of one pipeline.
#[derive(Debug, PartialEq, Eq, Hash)]
pub struct JobSelector {
    pub pipeline: String,
    pub job: String,
}

/// A whole pipeline or one of its jobs.
#[derive(Debug, PartialEq, Eq)]
pub enum SelectedTarget {
    Pipeline(String),
    Job(JobSelector),
}

/// An ordered choice of targets.
#[derive(Debug, PartialEq, Eq)]
pub struct Selection {
    pub targets: Vec<SelectedTarget>,
}

/// The model of a target.
pub enum TargetModel {
    Pipeline(Seq<char>),
    Job(Seq<char>, Seq<char>),
}

impl View for SelectedTarget {
    type V = TargetModel;

    open spec fn view(&self) -> TargetModel {
        match self {
            SelectedTarget::Pipeline(name) => TargetModel::Pipeline(name@),
            SelectedTarget::Job(selector) => TargetModel::Job(selector.pipeline@, selector.job@),
        }
    }
}

/// The models of a list of targets.
pub open spec fn target_views(targets: Seq<SelectedTarget>) -> Seq<TargetModel> {
    Seq::new(targets.len(), |i: int| targets[i]@)
}

impl View for Selection {
    type V = Seq<TargetModel>;

    open spec fn view(&self) -> Seq<TargetModel> {
        target_views(self.targets@)
    }
}

/// The target is a job of the given pipeline.
pub open spec fn is_job_of(target: TargetModel, pipeline: Seq<char>) -> bool {
    target matches TargetModel::Job(owner, _) && owner == pipeline
}

/// The targets without the jobs of a pipeline.
pub open spec fn without_jobs(targets: Seq<TargetModel>, pipeline: Seq<char>) -> Seq<TargetModel>
    decreases targets.len(),
{
    if targets.len() == 0 {
        seq![]
    } else {
        let rest = without_jobs(targets.drop_last(), pipeline);
        if is_job_of(targets.last(), pipeline) {
            rest
        } else {
            rest.push(targets.last())
        }
    }
}

/// The selection with a whole pipeline added. Its jobs are no longer listed
/// one by one, and it is listed once.
pub open spec fn with_pipeline(targets: Seq<TargetModel>, pipeline: Seq<char>) -> Seq<TargetModel> {
    let kept = without_jobs(targets, pipeline);
    if kept.contains(TargetModel::Pipeline(pipeline)) {
        kept
    } else {
        kept.push(TargetModel::Pipeline(pipeline))
    }
}

/// The selection with a job added, unless its pipeline or the job itself is
/// there already.
pub open spec fn with_job(
    targets: Seq<TargetModel>,
    pipeline: Seq<char>,
    job: Seq<char>,
) -> Seq<TargetModel> {
    if targets.contains(TargetModel::Pipeline(pipeline)) || targets.contains(
        TargetModel::Job(pipeline, job),
    ) {
        targets
    } else {
        targets.push(TargetModel::Job(pipeline, job))
    }
}

/// The selection with a target added.
pub open spec fn with_target(targets: Seq<TargetModel>, target: TargetModel) -> Seq<TargetModel> {
    match target {
        TargetModel::Pipeline(pipeline) => with_pipeline(targets, pipeline),
        TargetModel::Job(pipeline, job) => with_job(targets, pipeline, job),
    }
}

/// Nothing is listed twice, and no job stands beside its whole pipeline.
pub open spec fn is_reduced(targets: Seq<TargetModel>) -> bool {
    &&& targets.no_duplicates()
    &&& forall|i: int, j: int|
        #![trigger targets[i], targets[j]]
        0 <= i < targets.len() && 0 <= j < targets.len() ==> match targets[i] {
            TargetModel::Pipeline(pipeline) => !is_job_of(targets[j], pipeline),
            TargetModel::Job(_, _) => true,
        }
}

pub proof fn lemma_without_jobs(targets: Seq<TargetModel>, pipeline: Seq<char>)
    ensures
        forall|target: TargetModel|
            #![trigger without_jobs(targets, pipeline).contains(target)]
            without_jobs(targets, pipeline).contains(target) <==> targets.contains(target)
                && !is_job_of(target, pipeline),
        targets.no_duplicates() ==> without_jobs(targets, pipeline).no_duplicates(),
    decreases targets.len(),
{
    let kept = without_jobs(targets, pipeline);
    if targets.len() > 0 {
        let front = targets.drop_last();
        let rest = without_jobs(front, pipeline);
        lemma_without_jobs(front, pipeline);
        let last = targets.last();
        assert forall|target: TargetModel| #![trigger kept.contains(target)]
            kept.contains(target) <==> targets.contains(target) && !is_job_of(target, pipeline) by {
            if targets.contains(target) {
                let i = choose|i: int| 0 <= i < targets.len() && targets[i] == target;
                if i < front.len() {
                    assert(front[i] == target);
                }
            }
            if front.contains(target) {
                let i = choose|i: int| 0 <= i < front.len() && front[i] == target;
                assert(targets[i] == target);
            }
            assert(targets[targets.len() - 1] == last);
            if !is_job_of(last, pipeline) {
                assert(kept[rest.len() as int] == last);
                if rest.contains(target) {
                    let i = choose|i: int| 0 <= i < rest.len() && rest[i] == target;
                    assert(kept[i] == target);
                }
                if kept.contains(target) && target != last {
                    let i = choose|i: int| 0 <= i < kept.len() && kept[i] == target;
                    assert(rest[i] == target);
                }
            }
        }
        if targets.no_duplicates() {
            assert(front.no_duplicates()) by {
                assert forall|i: int, j: int|
                    0 <= i < front.len() && 0 <= j < front.len() && i != j implies front[i]
                    != front[j] by {
                    assert(targets[i] != targets[j]);
                }
            }
            if !is_job_of(last, pipeline) {
                assert(!rest.contains(last)) by {
                    if rest.contains(last) {
                        assert(front.contains(last));
                        let i = choose|i: int| 0 <= i < front.len() && front[i] == last;
                        assert(targets[i] != targets[targets.len() - 1]);
                    }
                }
                assert(kept.no_duplicates()) by {
                    assert forall|i: int, j: int|
                        0 <= i < kept.len() && 0 <= j < kept.len() && i != j implies kept[i]
                        != kept[j] by {
                        if i < rest.len() {
                            assert(rest.contains(rest[i]));
                        }
                        if j < rest.len() {
                            assert(rest.contains(rest[j]));
                        }
                    }
                }
            }
        }
    } else {
        assert forall|target: TargetModel| !kept.contains(target) by {}
    }
}

/// Adding a target keeps a selection reduced, keeps every other choice covered
/// and covers the added one.
pub proof fn adding_keeps_reduced(targets: Seq<TargetModel>, target: TargetModel)
    requires
        is_reduced(targets),
    ensures
        is_reduced(with_target(targets, target)),
        with_target(targets, target).contains(target) || (target matches TargetModel::Job(
            pipeline,
            _,
        ) && with_target(targets, target).contains(TargetModel::Pipeline(pipeline))),
        forall|other: TargetModel| #[trigger]
            targets.contains(other) ==> with_target(targets, target).contains(other) || (
            other matches TargetModel::Job(pipeline, _) && target == TargetModel::Pipeline(
                pipeline,
            )),
{
    let after = with_target(targets, target);
    match target {
        TargetModel::Pipeline(pipeline) => {
            lemma_without_jobs(targets, pipeline);
            let kept = without_jobs(targets, pipeline);
            let whole = TargetModel::Pipeline(pipeline);
            assert forall|i: int| 0 <= i < after.len() implies !is_job_of(
                #[trigger] after[i],
                pipeline,
            ) && (after[i] == whole || targets.contains(after[i])) by {
                if i < kept.len() {
                    assert(after[i] == kept[i]);
                    assert(kept.contains(kept[i]));
                }
            }
            assert(after.contains(whole)) by {
                if !kept.contains(whole) {
                    assert(after[kept.len() as int] == whole);
                }
            }
            assert(after.no_duplicates()) by {
                if !kept.contains(whole) {
                    assert forall|i: int, j: int|
                        0 <= i < after.len() && 0 <= j < after.len() && i != j implies after[i]
                        != after[j] by {
                        if i < kept.len() {
                            assert(kept.contains(kept[i]));
                        }
                        if j < kept.len() {
                            assert(kept.contains(kept[j]));
                        }
                    }
                }
            }
            assert forall|i: int, j: int|
                #![trigger after[i], after[j]]
                0 <= i < after.len() && 0 <= j < after.len() implies match after[i] {
                TargetModel::Pipeline(owner) => !is_job_of(after[j], owner),
                TargetModel::Job(_, _) => true,
            } by {
                if after[i] != whole && after[j] != whole {
                    let p = choose|p: int| 0 <= p < targets.len() && targets[p] == after[i];
                    let q = choose|q: int| 0 <= q < targets.len() && targets[q] == after[j];
                    assert(targets[p] == after[i] && targets[q] == after[j]);
                }
            }
            assert forall|other: TargetModel| #[trigger] targets.contains(other) implies after.contains(
                other,
            ) || is_job_of(other, pipeline) by {
                if !is_job_of(other, pipeline) {
                    assert(kept.contains(other));
                    let i = choose|i: int| 0 <= i < kept.len() && kept[i] == other;
                    assert(after[i] == other);
                }
            }
        },
        TargetModel::Job(pipeline, job) => {
            if !targets.contains(TargetModel::Pipeline(pipeline)) && !targets.contains(target) {
                assert(after[targets.len() as int] == target);
                assert forall|i: int, j: int|
                    0 <= i < after.len() && 0 <= j < after.len() && i != j implies after[i]
                    != after[j] by {
                    if i < targets.len() {
                        assert(targets.contains(targets[i]));
                    }
                    if j < targets.len() {
                        assert(targets.contains(targets[j]));
                    }
                    if i < targets.len() && j < targets.len() {
                        assert(targets[i] != targets[j]);
                    }
                }
                assert forall|i: int, j: int|
                    #![trigger after[i], after[j]]
                    0 <= i < after.len() && 0 <= j < after.len() implies match after[i] {
                    TargetModel::Pipeline(owner) => !is_job_of(after[j], owner),
                    TargetModel::Job(_, _) => true,
                } by {
                    if i < targets.len() {
                        assert(targets.contains(targets[i]));
                        if j < targets.len() {
                            assert(targets[i] == after[i] && targets[j] == after[j]);
                        }
                    }
                }
                assert forall|other: TargetModel| #[trigger]
                    targets.contains(other) implies after.contains(other) by {
                    let i = choose|i: int| 0 <= i < targets.len() && targets[i] == other;
                    assert(after[i] == other);
                }
            }
        },
    }
}

fn is_pipeline(target: &SelectedTarget, pipeline: &str) -> (same: bool)
    ensures
        same == (target@ == TargetModel::Pipeline(pipeline@)),
{
    match target {
        SelectedTarget::Pipeline(name) => *name.as_str() == *pipeline,
        SelectedTarget::Job(_) => false,
    }
}

fn is_job(target: &SelectedTarget, pipeline: &str, job: &str) -> (same: bool)
    ensures
        same == (target@ == TargetModel::Job(pipeline@, job@)),
{
    match target {
        SelectedTarget::Pipeline(_) => false,
        SelectedTarget::Job(selector) => *selector.pipeline.as_str() == *pipeline
            && *selector.job.as_str() == *job,
    }
}

fn belongs_to(target: &SelectedTarget, pipeline: &str) -> (owned: bool)
    ensures
        owned == is_job_of(target@, pipeline@),
{
    match target {
        SelectedTarget::Pipeline(_) => false,
        SelectedTarget::Job(selector) => *selector.pipeline.as_str() == *pipeline,
    }
}

impl Clone for JobSelector {
    fn clone(&self) -> (copy: JobSelector)
        ensures
            copy.pipeline@ == self.pipeline@,
            copy.job@ == self.job@,
    {
        JobSelector { pipeline: self.pipeline.clone(), job: self.job.clone() }
    }
}

impl Clone for SelectedTarget {
    fn clone(&self) -> (copy: SelectedTarget)
        ensures
            copy@ == self@,
    {
        match self {
            SelectedTarget::Pipeline(name) => SelectedTarget::Pipeline(name.clone()),
            SelectedTarget::Job(selector) => SelectedTarget::Job(selector.clone()),
        }
    }
}

impl Clone for Selection {
    fn clone(&self) -> (copy: Selection)
        ensures
            copy@ == self@,
    {
        let mut targets: Vec<SelectedTarget> = Vec::new();
        let mut i: usize = 0;
        while i < self.targets.len()
            invariant
                i <= self.targets@.len(),
                targets@.len() == i,
                forall|k: int| 0 <= k < i ==> (#[trigger] targets@[k])@ == self.targets@[k]@,
            decreases self.targets@.len() - i,
        {
            targets.push(self.targets[i].clone());
            i += 1;
        }
        let copy = Selection { targets };
        proof {
            assert(copy@ =~= self@);
        }
        copy
    }
}

impl Default for Selection {
    fn default() -> (selection: Selection)
        ensures
            selection@ == Seq::<TargetModel>::empty(),
    {
        Selection::new()
    }
}

impl Selection {
    /// The empty selection.
    pub fn new() -> (selection: Selection)
        ensures
            selection@ == Seq::<TargetModel>::empty(),
    {
        let selection = Selection { targets: Vec::new() };
        proof {
            assert(selection@ =~= Seq::<TargetModel>::empty());
        }
        selection
    }

    pub fn is_empty(&self) -> (empty: bool)
        ensures
            empty == (self@.len() == 0),
    {
        self.targets.len() == 0
    }

    /// The selection of one whole pipeline.
    pub fn pipeline(name: &str) -> (selection: Selection)
        ensures
            selection@ == seq![TargetModel::Pipeline(name@)],
    {
        let mut selection = Selection::new();
        selection.targets.push(SelectedTarget::Pipeline(name.to_owned()));
        proof {
            assert(selection@ =~= seq![TargetModel::Pipeline(name@)]);
        }
        selection
    }

    /// The selection of one job.
    pub fn job(pipeline: &str, job: &str) -> (selection: Selection)
        ensures
            selection@ == seq![TargetModel::Job(pipeline@, job@)],
    {
        let mut selection = Selection::new();
        selection.targets.push(
            SelectedTarget::Job(
                JobSelector { pipeline: pipeline.to_owned(), job: job.to_owned() },
            ),
        );
        proof {
            assert(selection@ =~= seq![TargetModel::Job(pipeline@, job@)]);
        }
        selection
    }

    fn has_pipeline(&self, pipeline: &str) -> (found: bool)
        ensures
            found == self@.contains(TargetModel::Pipeline(pipeline@)),
    {
        let mut i: usize = 0;
        while i < self.targets.len()
            invariant
                i <= self.targets.len(),
                forall|k: int| 0 <= k < i ==> self@[k] != TargetModel::Pipeline(pipeline@),
            decreases self.targets.len() - i,
        {
            if is_pipeline(&self.targets[i], pipeline) {
                proof {
                    assert(self@[i as int] == TargetModel::Pipeline(pipeline@));
                }
                return true;
            }
            proof {
                assert(self@[i as int] == self.targets@[i as int]@);
            }
            i += 1;
        }
        false
    }

    fn has_job(&self, pipeline: &str, job: &str) -> (found: bool)
        ensures
            found == self@.contains(TargetModel::Job(pipeline@, job@)),
    {
        let mut i: usize = 0;
        while i < self.targets.len()
            invariant
                i <= self.targets.len(),
                forall|k: int| 0 <= k < i ==> self@[k] != TargetModel::Job(pipeline@, job@),
            decreases self.targets.len() - i,
        {
            if is_job(&self.targets[i], pipeline, job) {
                proof {
                    assert(self@[i as int] == TargetModel::Job(pipeline@, job@));
                }
                return true;
            }
            proof {
                assert(self@[i as int] == self.targets@[i as int]@);
            }
            i += 1;
        }
        false
    }

    /// Adds a whole pipeline, which takes the place of its single jobs.
    pub fn push_pipeline(&mut self, pipeline: &str)
        ensures
            final(self)@ == with_pipeline(old(self)@, pipeline@),
    {
        let ghost before = self@;
        let mut kept = Selection::new();
        let mut i: usize = 0;
        while i < self.targets.len()
            invariant
                i <= self.targets.len(),
                self@ == before,
                kept@ == without_jobs(before.take(i as int), pipeline@),
            decreases self.targets.len() - i,
        {
            let ghost sofar = kept@;
            proof {
                let next = before.take(i as int + 1);
                assert(next.drop_last() =~= before.take(i as int));
                assert(next.last() == self.targets@[i as int]@);
            }
            if !belongs_to(&self.targets[i], pipeline) {
                let target = self.targets[i].clone();
                kept.targets.push(target);
                proof {
                    assert(kept@ =~= sofar.push(target@));
                }
            }
            i += 1;
        }
        proof {
            assert(before.take(i as int) =~= before);
        }
        if !kept.has_pipeline(pipeline) {
            let ghost sofar = kept@;
            kept.targets.push(SelectedTarget::Pipeline(pipeline.to_owned()));
            proof {
                assert(kept@ =~= sofar.push(TargetModel::Pipeline(pipeline@)));
            }
        }
        *self = kept;
    }

    /// Adds a job, unless it is covered already.
    pub fn push_job(&mut self, pipeline: &str, job: &str)
        ensures
            final(self)@ == with_job(old(self)@, pipeline@, job@),
    {
        let ghost before = self@;
        if self.has_pipeline(pipeline) || self.has_job(pipeline, job) {
            return;
        }
        self.targets.push(
            SelectedTarget::Job(
                JobSelector { pipeline: pipeline.to_owned(), job: job.to_owned() },
            ),
        );
        proof {
            assert(self@ =~= before.push(TargetModel::Job(pipeline@, job@)));
        }
    }

    /// Adds a target.
    pub fn push_target(&mut self, target: &SelectedTarget)
        ensures
            final(self)@ == with_target(old(self)@, target@),
    {
        match target {
            SelectedTarget::Pipeline(name) => self.push_pipeline(name.as_str()),
            SelectedTarget::Job(selector) => self.push_job(
                selector.pipeline.as_str(),
                selector.job.as_str(),
            ),
        }
    }
}

} // verus!
