//! The parts of a YAML definition and their mathematical model.

use crate::text::{copy_texts, first_position, lemma_first_position, lemma_first_position_is, views};
use indexmap::IndexMap;
use vstd::prelude::*;

verus! {

/// `indexmap::IndexMap`: a hash table that remembers the order in which keys
/// were inserted.
#[verifier::external_type_specification]
#[verifier::external_body]
#[verifier::reject_recursive_types(K)]
#[verifier::reject_recursive_types(V)]
#[verifier::reject_recursive_types(S)]
pub struct ExIndexMap<K, V, S>(IndexMap<K, V, S>);

/// One job: a Just recipe, the sibling jobs it waits for and the hooks that
/// trigger it.
#[derive(Debug)]
pub struct JobSpec {
    pub just: String,
    pub needs: Vec<String>,
    pub triggers: Vec<String>,
}

/// One pipeline: the pipelines it waits for, the hooks that trigger it and its
/// jobs in declared order.
#[derive(Debug)]
pub struct PipelineSpec {
    pub needs: Vec<String>,
    pub triggers: Vec<String>,
    pub jobs: IndexMap<String, JobSpec>,
}

/// A YAML definition.
#[derive(Debug)]
pub struct PipelineConfig {
    pub version: u32,
    pub triggers: IndexMap<String, Vec<String>>,
    pub pipelines: IndexMap<String, PipelineSpec>,
}

/// The entries of a job table, in insertion order.
pub uninterp spec fn job_entries(jobs: IndexMap<String, JobSpec>) -> Seq<(Seq<char>, JobSpec)>;

/// The entries of a pipeline table, in insertion order.
pub uninterp spec fn pipeline_entries(
    pipelines: IndexMap<String, PipelineSpec>,
) -> Seq<(Seq<char>, PipelineSpec)>;

/// The entries of a trigger table, in insertion order.
pub uninterp spec fn trigger_entries(
    triggers: IndexMap<String, Vec<String>>,
) -> Seq<(Seq<char>, Vec<String>)>;

/// The keys of a list of entries.
pub open spec fn keys<T>(entries: Seq<(Seq<char>, T)>) -> Seq<Seq<char>> {
    Seq::new(entries.len(), |i: int| entries[i].0)
}

/// `i` is the only position at which `name` is a key.
pub open spec fn only_key_at<T>(entries: Seq<(Seq<char>, T)>, name: Seq<char>, i: int) -> bool {
    &&& 0 <= i < entries.len()
    &&& entries[i].0 == name
    &&& forall|k: int| 0 <= k < entries.len() && k != i ==> (#[trigger] entries[k]).0 != name
}

/// `IndexMap::len` on a job table: the number of entries.
#[verifier::external_body]
pub(crate) fn job_count(jobs: &IndexMap<String, JobSpec>) -> (count: usize)
    ensures
        count == job_entries(*jobs).len(),
{
    jobs.len()
}

/// `IndexMap::get_index` on a job table: the entry at a position of the
/// insertion order, whose key stands at no other position.
#[verifier::external_body]
pub(crate) fn job_at(jobs: &IndexMap<String, JobSpec>, index: usize) -> (entry: Option<
    (&String, &JobSpec),
>)
    ensures
        entry is Some <==> index < job_entries(*jobs).len(),
        entry matches Some((name, job)) ==> {
            &&& only_key_at(job_entries(*jobs), name@, index as int)
            &&& *job == job_entries(*jobs)[index as int].1
        },
{
    jobs.get_index(index)
}

/// `IndexMap::get_index_of` on a job table: the position of a key.
#[verifier::external_body]
pub(crate) fn job_index(jobs: &IndexMap<String, JobSpec>, name: &str) -> (index: Option<usize>)
    ensures
        index matches Some(i) ==> only_key_at(job_entries(*jobs), name@, i as int),
        index is None ==> !keys(job_entries(*jobs)).contains(name@),
{
    jobs.get_index_of(name)
}

/// `IndexMap::len` on a pipeline table: the number of entries.
#[verifier::external_body]
pub(crate) fn pipeline_count(pipelines: &IndexMap<String, PipelineSpec>) -> (count: usize)
    ensures
        count == pipeline_entries(*pipelines).len(),
{
    pipelines.len()
}

/// `IndexMap::get_index` on a pipeline table: the entry at a position of the
/// insertion order, whose key stands at no other position.
#[verifier::external_body]
pub(crate) fn pipeline_at(
    pipelines: &IndexMap<String, PipelineSpec>,
    index: usize,
) -> (entry: Option<(&String, &PipelineSpec)>)
    ensures
        entry is Some <==> index < pipeline_entries(*pipelines).len(),
        entry matches Some((name, pipeline)) ==> {
            &&& only_key_at(pipeline_entries(*pipelines), name@, index as int)
            &&& *pipeline == pipeline_entries(*pipelines)[index as int].1
        },
{
    pipelines.get_index(index)
}

/// `IndexMap::get_index_of` on a pipeline table: the position of a key.
#[verifier::external_body]
pub(crate) fn pipeline_index(
    pipelines: &IndexMap<String, PipelineSpec>,
    name: &str,
) -> (index: Option<usize>)
    ensures
        index matches Some(i) ==> only_key_at(pipeline_entries(*pipelines), name@, i as int),
        index is None ==> !keys(pipeline_entries(*pipelines)).contains(name@),
{
    pipelines.get_index_of(name)
}

/// `IndexMap::len` on a trigger table: the number of entries.
#[verifier::external_body]
pub(crate) fn trigger_count(triggers: &IndexMap<String, Vec<String>>) -> (count: usize)
    ensures
        count == trigger_entries(*triggers).len(),
{
    triggers.len()
}

/// `IndexMap::get_index` on a trigger table: the entry at a position of the
/// insertion order, whose key stands at no other position.
#[verifier::external_body]
pub(crate) fn trigger_at(
    triggers: &IndexMap<String, Vec<String>>,
    index: usize,
) -> (entry: Option<(&String, &Vec<String>)>)
    ensures
        entry is Some <==> index < trigger_entries(*triggers).len(),
        entry matches Some((hook, selectors)) ==> {
            &&& only_key_at(trigger_entries(*triggers), hook@, index as int)
            &&& *selectors == trigger_entries(*triggers)[index as int].1
        },
{
    triggers.get_index(index)
}

/// `IndexMap::get_index_of` on a trigger table: the position of a key.
#[verifier::external_body]
pub(crate) fn trigger_index(
    triggers: &IndexMap<String, Vec<String>>,
    hook: &str,
) -> (index: Option<usize>)
    ensures
        index matches Some(i) ==> only_key_at(trigger_entries(*triggers), hook@, i as int),
        index is None ==> !keys(trigger_entries(*triggers)).contains(hook@),
{
    triggers.get_index_of(hook)
}

/// `IndexMap::new` for a job table: there is nothing in it.
#[verifier::external_body]
fn no_jobs() -> (table: IndexMap<String, JobSpec>)
    ensures
        job_entries(table).len() == 0,
{
    IndexMap::new()
}

/// `IndexMap::insert` on a job table: a new key comes last in the order; the
/// value of a key that is there is replaced in its place and handed back.
#[verifier::external_body]
fn add_job(
    table: &mut IndexMap<String, JobSpec>,
    key: String,
    value: JobSpec,
) -> (replaced: Option<JobSpec>)
    ensures
        !keys(job_entries(*old(table))).contains(key@) ==> {
            &&& replaced is None
            &&& job_entries(*final(table)) == job_entries(*old(table)).push((key@, value))
        },
        forall|i: int| #[trigger]
            only_key_at(job_entries(*old(table)), key@, i) ==> {
                &&& replaced == Some(job_entries(*old(table))[i].1)
                &&& job_entries(*final(table)) == job_entries(*old(table)).update(
                    i,
                    (key@, value),
                )
            },
{
    table.insert(key, value)
}

/// `IndexMap::new` for a pipeline table: there is nothing in it.
#[verifier::external_body]
fn no_pipelines() -> (table: IndexMap<String, PipelineSpec>)
    ensures
        pipeline_entries(table).len() == 0,
{
    IndexMap::new()
}

/// `IndexMap::insert` on a pipeline table: a new key comes last in the order; the
/// value of a key that is there is replaced in its place and handed back.
#[verifier::external_body]
fn add_pipeline(
    table: &mut IndexMap<String, PipelineSpec>,
    key: String,
    value: PipelineSpec,
) -> (replaced: Option<PipelineSpec>)
    ensures
        !keys(pipeline_entries(*old(table))).contains(key@) ==> {
            &&& replaced is None
            &&& pipeline_entries(*final(table)) == pipeline_entries(*old(table)).push((key@, value))
        },
        forall|i: int| #[trigger]
            only_key_at(pipeline_entries(*old(table)), key@, i) ==> {
                &&& replaced == Some(pipeline_entries(*old(table))[i].1)
                &&& pipeline_entries(*final(table)) == pipeline_entries(*old(table)).update(
                    i,
                    (key@, value),
                )
            },
{
    table.insert(key, value)
}

/// `IndexMap::new` for a trigger table: there is nothing in it.
#[verifier::external_body]
fn no_triggers() -> (table: IndexMap<String, Vec<String>>)
    ensures
        trigger_entries(table).len() == 0,
{
    IndexMap::new()
}

/// `IndexMap::insert` on a trigger table: a new key comes last in the order; the
/// value of a key that is there is replaced in its place and handed back.
#[verifier::external_body]
fn add_trigger(
    table: &mut IndexMap<String, Vec<String>>,
    key: String,
    value: Vec<String>,
) -> (replaced: Option<Vec<String>>)
    ensures
        !keys(trigger_entries(*old(table))).contains(key@) ==> {
            &&& replaced is None
            &&& trigger_entries(*final(table)) == trigger_entries(*old(table)).push((key@, value))
        },
        forall|i: int| #[trigger]
            only_key_at(trigger_entries(*old(table)), key@, i) ==> {
                &&& replaced == Some(trigger_entries(*old(table))[i].1)
                &&& trigger_entries(*final(table)) == trigger_entries(*old(table)).update(
                    i,
                    (key@, value),
                )
            },
{
    table.insert(key, value)
}

/// The model of a job.
pub struct JobModel {
    pub just: Seq<char>,
    pub needs: Seq<Seq<char>>,
    pub triggers: Seq<Seq<char>>,
}

/// The model of a pipeline.
pub struct PipelineModel {
    pub needs: Seq<Seq<char>>,
    pub triggers: Seq<Seq<char>>,
    pub jobs: Seq<(Seq<char>, JobModel)>,
}

/// The model of a definition.
pub struct ConfigModel {
    pub version: nat,
    pub triggers: Seq<(Seq<char>, Seq<Seq<char>>)>,
    pub pipelines: Seq<(Seq<char>, PipelineModel)>,
}

impl View for JobSpec {
    type V = JobModel;

    open spec fn view(&self) -> JobModel {
        JobModel {
            just: self.just@,
            needs: views(self.needs@),
            triggers: views(self.triggers@),
        }
    }
}

impl View for PipelineSpec {
    type V = PipelineModel;

    open spec fn view(&self) -> PipelineModel {
        let entries = job_entries(self.jobs);
        PipelineModel {
            needs: views(self.needs@),
            triggers: views(self.triggers@),
            jobs: Seq::new(entries.len(), |i: int| (entries[i].0, entries[i].1@)),
        }
    }
}

impl View for PipelineConfig {
    type V = ConfigModel;

    open spec fn view(&self) -> ConfigModel {
        let hooks = trigger_entries(self.triggers);
        let entries = pipeline_entries(self.pipelines);
        ConfigModel {
            version: self.version as nat,
            triggers: Seq::new(hooks.len(), |i: int| (hooks[i].0, views(hooks[i].1@))),
            pipelines: Seq::new(entries.len(), |i: int| (entries[i].0, entries[i].1@)),
        }
    }
}

/// A key that stands only at `i` is none of those before.
proof fn lemma_key_is_new<T>(
    all: Seq<(Seq<char>, T)>,
    before: Seq<(Seq<char>, T)>,
    key: Seq<char>,
    i: int,
)
    requires
        only_key_at(all, key, i),
        before.len() == i,
        forall|k: int| 0 <= k < i ==> (#[trigger] before[k]).0 == all[k].0,
    ensures
        !keys(before).contains(key),
{
    if keys(before).contains(key) {
        let k = choose|k: int| 0 <= k < before.len() && keys(before)[k] == key;
        assert(before[k].0 == all[k].0);
    }
}

/// The same job table again.
fn copy_jobs(table: &IndexMap<String, JobSpec>) -> (copy: IndexMap<String, JobSpec>)
    ensures
        job_entries(copy).len() == job_entries(*table).len(),
        forall|i: int|
            0 <= i < job_entries(copy).len() ==> {
                &&& (#[trigger] job_entries(copy)[i]).0 == job_entries(*table)[i].0
                &&& job_entries(copy)[i].1@ == job_entries(*table)[i].1@
            },
{
    let ghost all = job_entries(*table);
    let total = job_count(table);
    let mut copy = no_jobs();
    let mut i: usize = 0;
    while i < total
        invariant
            i <= total,
            total == all.len(),
            all == job_entries(*table),
            job_entries(copy).len() == i,
            forall|k: int|
                0 <= k < i ==> {
                    &&& (#[trigger] job_entries(copy)[k]).0 == all[k].0
                    &&& job_entries(copy)[k].1@ == all[k].1@
                },
        decreases total - i,
    {
        let ghost before = job_entries(copy);
        if let Some((key, value)) = job_at(table, i) {
            proof {
                lemma_key_is_new(all, before, key@, i as int);
            }
            add_job(&mut copy, String::from_str(key.as_str()), value.clone());
        }
        i += 1;
    }
    copy
}

/// The same pipeline table again.
fn copy_pipelines(table: &IndexMap<String, PipelineSpec>) -> (copy: IndexMap<String, PipelineSpec>)
    ensures
        pipeline_entries(copy).len() == pipeline_entries(*table).len(),
        forall|i: int|
            0 <= i < pipeline_entries(copy).len() ==> {
                &&& (#[trigger] pipeline_entries(copy)[i]).0 == pipeline_entries(*table)[i].0
                &&& pipeline_entries(copy)[i].1@ == pipeline_entries(*table)[i].1@
            },
{
    let ghost all = pipeline_entries(*table);
    let total = pipeline_count(table);
    let mut copy = no_pipelines();
    let mut i: usize = 0;
    while i < total
        invariant
            i <= total,
            total == all.len(),
            all == pipeline_entries(*table),
            pipeline_entries(copy).len() == i,
            forall|k: int|
                0 <= k < i ==> {
                    &&& (#[trigger] pipeline_entries(copy)[k]).0 == all[k].0
                    &&& pipeline_entries(copy)[k].1@ == all[k].1@
                },
        decreases total - i,
    {
        let ghost before = pipeline_entries(copy);
        if let Some((key, value)) = pipeline_at(table, i) {
            proof {
                lemma_key_is_new(all, before, key@, i as int);
            }
            add_pipeline(&mut copy, String::from_str(key.as_str()), value.clone());
        }
        i += 1;
    }
    copy
}

/// The same trigger table again.
fn copy_triggers(table: &IndexMap<String, Vec<String>>) -> (copy: IndexMap<String, Vec<String>>)
    ensures
        trigger_entries(copy).len() == trigger_entries(*table).len(),
        forall|i: int|
            0 <= i < trigger_entries(copy).len() ==> {
                &&& (#[trigger] trigger_entries(copy)[i]).0 == trigger_entries(*table)[i].0
                &&& views(trigger_entries(copy)[i].1@) == views(trigger_entries(*table)[i].1@)
            },
{
    let ghost all = trigger_entries(*table);
    let total = trigger_count(table);
    let mut copy = no_triggers();
    let mut i: usize = 0;
    while i < total
        invariant
            i <= total,
            total == all.len(),
            all == trigger_entries(*table),
            trigger_entries(copy).len() == i,
            forall|k: int|
                0 <= k < i ==> {
                    &&& (#[trigger] trigger_entries(copy)[k]).0 == all[k].0
                    &&& views(trigger_entries(copy)[k].1@) == views(all[k].1@)
                },
        decreases total - i,
    {
        let ghost before = trigger_entries(copy);
        if let Some((key, value)) = trigger_at(table, i) {
            proof {
                lemma_key_is_new(all, before, key@, i as int);
            }
            add_trigger(&mut copy, String::from_str(key.as_str()), copy_texts(value));
        }
        i += 1;
    }
    copy
}

impl Clone for JobSpec {
    fn clone(&self) -> (copy: JobSpec)
        ensures
            copy@ == self@,
    {
        JobSpec {
            just: String::from_str(self.just.as_str()),
            needs: copy_texts(&self.needs),
            triggers: copy_texts(&self.triggers),
        }
    }
}

impl Clone for PipelineSpec {
    fn clone(&self) -> (copy: PipelineSpec)
        ensures
            copy@ == self@,
    {
        let copy = PipelineSpec {
            needs: copy_texts(&self.needs),
            triggers: copy_texts(&self.triggers),
            jobs: copy_jobs(&self.jobs),
        };
        proof {
            assert(copy@.jobs =~= self@.jobs);
        }
        copy
    }
}

impl Default for PipelineSpec {
    fn default() -> (pipeline: PipelineSpec)
        ensures
            pipeline@ == (PipelineModel { needs: seq![], triggers: seq![], jobs: seq![] }),
    {
        let pipeline = PipelineSpec { needs: Vec::new(), triggers: Vec::new(), jobs: no_jobs() };
        proof {
            assert(pipeline@.needs =~= seq![]);
            assert(pipeline@.triggers =~= seq![]);
            assert(pipeline@.jobs =~= seq![]);
        }
        pipeline
    }
}

impl Clone for PipelineConfig {
    fn clone(&self) -> (copy: PipelineConfig)
        ensures
            copy@ == self@,
    {
        let copy = PipelineConfig {
            version: self.version,
            triggers: copy_triggers(&self.triggers),
            pipelines: copy_pipelines(&self.pipelines),
        };
        proof {
            assert(copy@.triggers =~= self@.triggers);
            assert(copy@.pipelines =~= self@.pipelines);
        }
        copy
    }
}

/// The position of a key in its table, or the length of the table.
pub open spec fn position<T>(entries: Seq<(Seq<char>, T)>, name: Seq<char>) -> int {
    first_position(keys(entries), name)
}

/// `name` is a key of the table.
pub open spec fn has_key<T>(entries: Seq<(Seq<char>, T)>, name: Seq<char>) -> bool {
    keys(entries).contains(name)
}

pub proof fn lemma_position<T>(entries: Seq<(Seq<char>, T)>, name: Seq<char>)
    ensures
        0 <= position(entries, name) <= entries.len(),
        has_key(entries, name) <==> position(entries, name) < entries.len(),
        has_key(entries, name) ==> entries[position(entries, name)].0 == name,
{
    let list = keys(entries);
    lemma_first_position(list, name);
    if list.contains(name) {
        let i = choose|i: int| 0 <= i < list.len() && list[i] == name;
        assert(list[i] == name);
    } else if position(entries, name) < entries.len() {
        assert(list[position(entries, name)] == name);
    }
}

pub proof fn lemma_only_key<T>(entries: Seq<(Seq<char>, T)>, name: Seq<char>, i: int)
    requires
        only_key_at(entries, name, i),
    ensures
        position(entries, name) == i,
        has_key(entries, name),
{
    let list = keys(entries);
    assert forall|k: int| 0 <= k < i implies list[k] != name by {
        assert(entries[k].0 != name);
    }
    assert(list[i] == name);
    lemma_first_position_is(list, name, i);
}

} // verus!
