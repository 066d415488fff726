//! What is said of a definition that is not accepted.

use crate::definition::check::{
    config_problem, cycle_problem, duplicate_problems, hook_problems, job_cycle_problems, job_graph,
    job_need_problems, job_problem, job_problems, pipeline_graph, pipeline_need_problems,
    pipeline_problem, pipeline_problems, selector_problems, trigger_problems,
};
use crate::definition::error::{first_problem, DefinitionError};
use crate::definition::model::{keys, ConfigModel, JobModel, PipelineConfig, PipelineModel};
use crate::promises::selecting::git_hooks;
use crate::promises::validating::{has_job, has_pipeline, lemma_key, lemma_name, proper_name};
use crate::text::{decimal, path_parts};
use vstd::prelude::*;

verus! {

/// A value stands in a list before, too.
pub open spec fn repeats(list: Seq<Seq<char>>, k: int) -> bool {
    0 <= k < list.len() && exists|i: int| 0 <= i < k && #[trigger] list[i] == list[k]
}

/// A list has something twice, and the reason names it and the list.
pub open spec fn about_repetition(
    list: Seq<Seq<char>>,
    description: Seq<char>,
    reason: Seq<char>,
) -> bool {
    exists|k: int| #[trigger]
        repeats(list, k) && reason == "duplicate `"@ + list[k] + "` in "@ + description
}

/// A list has a name that is no hook of Git, and the reason names it.
pub open spec fn about_hook(list: Seq<Seq<char>>, reason: Seq<char>) -> bool {
    exists|k: int|
        0 <= k < list.len() && !git_hooks().contains(#[trigger] list[k]) && reason
            == "unknown Git hook `"@ + list[k] + "`"@
}

/// A name is not proper, and the reason names it and what it was for.
pub open spec fn about_name(name: Seq<char>, kind: Seq<char>, reason: Seq<char>) -> bool {
    ||| name.len() == 0 && reason == kind + " name cannot be empty"@
    ||| name.len() > 0 && !proper_name(name) && reason == "invalid "@ + kind + " name `"@ + name
        + "`; expected [A-Za-z_][A-Za-z0-9_-]*"@
}

/// Something is wrong with a job, and the reason says what.
pub open spec fn about_job(
    owner: Seq<char>,
    pipeline: PipelineModel,
    name: Seq<char>,
    job: JobModel,
    reason: Seq<char>,
) -> bool {
    let label = "job `"@ + owner + "::"@ + name + "`"@;
    ||| about_name(name, "job"@, reason)
    ||| !(forall|k: int|
        0 <= k < path_parts(job.just).len() ==> proper_name(#[trigger] path_parts(job.just)[k]))
        && reason == label + " has invalid Just target `"@ + job.just + "`"@
    ||| about_repetition(job.needs, label + " dependencies"@, reason)
    ||| about_repetition(job.triggers, label + " triggers"@, reason)
    ||| about_hook(job.triggers, reason)
    ||| job.needs.contains(name) && reason == label + " depends on itself"@
    ||| exists|k: int|
        0 <= k < job.needs.len() && !has_job(pipeline, #[trigger] job.needs[k]) && reason == label
            + " needs missing sibling job `"@ + job.needs[k] + "`"@
}

/// Something is wrong with a pipeline, and the reason says what.
pub open spec fn about_pipeline(config: ConfigModel, p: int, reason: Seq<char>) -> bool {
    let (name, pipeline) = config.pipelines[p];
    let label = "pipeline `"@ + name + "`"@;
    &&& 0 <= p < config.pipelines.len()
    &&& {
        ||| about_name(name, "pipeline"@, reason)
        ||| pipeline.jobs.len() == 0 && pipeline.needs.len() == 0 && reason == label
            + " must contain at least one job or dependency"@
        ||| about_repetition(pipeline.needs, label + " dependencies"@, reason)
        ||| about_repetition(pipeline.triggers, label + " triggers"@, reason)
        ||| about_hook(pipeline.triggers, reason)
        ||| pipeline.needs.contains(name) && reason == label + " depends on itself"@
        ||| exists|k: int|
            0 <= k < pipeline.needs.len() && !has_pipeline(config, #[trigger] pipeline.needs[k])
                && reason == label + " needs missing pipeline `"@ + pipeline.needs[k] + "`"@
        ||| exists|j: int|
            0 <= j < pipeline.jobs.len() && about_job(
                name,
                pipeline,
                (#[trigger] pipeline.jobs[j]).0,
                pipeline.jobs[j].1,
                reason,
            )
    }
}

/// A selector of a hook names nothing, and the reason names both.
pub open spec fn about_selector(config: ConfigModel, t: int, s: int, reason: Seq<char>) -> bool {
    &&& 0 <= t < config.triggers.len()
    &&& 0 <= s < config.triggers[t].1.len()
    &&& exists|why: Seq<char>|
        reason == "hook `"@ + config.triggers[t].0 + "` has invalid selector `"@
            + config.triggers[t].1[s] + "`: "@ + #[trigger] because(why)
}

pub open spec fn because(why: Seq<char>) -> Seq<char> {
    why
}

/// Names lead from one to the next and back again.
pub open spec fn about_cycle(kind: Seq<char>, reason: Seq<char>) -> bool {
    exists|way: Seq<char>| reason == kind + " dependency cycle: "@ + #[trigger] because(way)
}

/// A reason that is true of a definition.
pub open spec fn is_about(config: ConfigModel, reason: Seq<char>) -> bool {
    ||| config.version != 1 && reason == "unsupported version "@ + decimal(config.version)
        + "; only version 1 is supported"@
    ||| config.pipelines.len() == 0 && reason
        == "`pipelines` must contain at least one pipeline"@
    ||| exists|t: int|
        0 <= t < config.triggers.len() && !git_hooks().contains((#[trigger] config.triggers[t]).0)
            && reason == "unknown Git hook `"@ + config.triggers[t].0 + "`"@
    ||| exists|p: int| #[trigger] about_pipeline(config, p, reason)
    ||| about_cycle("pipeline"@, reason)
    ||| exists|p: int|
        0 <= p < config.pipelines.len() && about_cycle(
            "job in "@ + ("pipeline `"@ + (#[trigger] config.pipelines[p]).0 + "`"@),
            reason,
        )
    ||| exists|t: int, s: int| #[trigger] about_selector(config, t, s, reason)
}

proof fn lemma_some(n: int, f: spec_fn(int) -> Option<Seq<char>>) -> (i: int)
    requires
        first_problem(n, f) is Some,
    ensures
        0 <= i < n,
        f(i) == first_problem(n, f),
    decreases n,
{
    if first_problem(n - 1, f) is Some {
        lemma_some(n - 1, f)
    } else {
        n - 1
    }
}

proof fn lemma_repetition(list: Seq<Seq<char>>, description: Seq<char>, reason: Seq<char>)
    requires
        first_problem(list.len() as int, duplicate_problems(list, description)) == Some(reason),
    ensures
        about_repetition(list, description, reason),
{
    let k = lemma_some(list.len() as int, duplicate_problems(list, description));
    let before = list.take(k);
    let i = choose|i: int| 0 <= i < before.len() && before[i] == list[k];
    assert(list[i] == list[k]);
    assert(repeats(list, k));
}

proof fn lemma_hook(list: Seq<Seq<char>>, reason: Seq<char>)
    requires
        first_problem(list.len() as int, hook_problems(list)) == Some(reason),
    ensures
        about_hook(list, reason),
{
    crate::promises::selecting::lemma_git_hooks();
    let k = lemma_some(list.len() as int, hook_problems(list));
    assert(!git_hooks().contains(list[k]));
}

proof fn lemma_about_job(
    owner: Seq<char>,
    pipeline: PipelineModel,
    name: Seq<char>,
    job: JobModel,
    reason: Seq<char>,
)
    requires
        job_problem(owner, pipeline, name, job) == Some(reason),
    ensures
        about_job(owner, pipeline, name, job, reason),
{
    let label = "job `"@ + owner + "::"@ + name + "`"@;
    lemma_name(name);
    let repeated_needs = first_problem(
        job.needs.len() as int,
        duplicate_problems(job.needs, label + " dependencies"@),
    );
    let repeated_triggers = first_problem(
        job.triggers.len() as int,
        duplicate_problems(job.triggers, label + " triggers"@),
    );
    let hooks = first_problem(job.triggers.len() as int, hook_problems(job.triggers));
    if crate::definition::check::identifier_problem(name, "job"@) is Some {
    } else if !crate::definition::check::just_path(job.just) {
        let k = choose|k: int|
            0 <= k < path_parts(job.just).len() && !crate::definition::check::identifier(
                #[trigger] path_parts(job.just)[k],
            );
        lemma_name(path_parts(job.just)[k]);
        assert(!proper_name(path_parts(job.just)[k]));
    } else if repeated_needs is Some {
        lemma_repetition(job.needs, label + " dependencies"@, reason);
    } else if repeated_triggers is Some {
        lemma_repetition(job.triggers, label + " triggers"@, reason);
    } else if hooks is Some {
        lemma_hook(job.triggers, reason);
    } else {
        let k = lemma_some(
            job.needs.len() as int,
            job_need_problems(owner, pipeline, name, job.needs),
        );
        lemma_key(pipeline.jobs, job.needs[k]);
        if job.needs[k] == name {
            assert(job.needs.contains(name));
        } else {
            assert(!has_job(pipeline, job.needs[k]));
        }
    }
}

proof fn lemma_about_pipeline(config: ConfigModel, p: int, reason: Seq<char>)
    requires
        0 <= p < config.pipelines.len(),
        pipeline_problem(config, config.pipelines[p].0, config.pipelines[p].1) == Some(reason),
    ensures
        about_pipeline(config, p, reason),
{
    let (name, pipeline) = config.pipelines[p];
    let label = "pipeline `"@ + name + "`"@;
    lemma_name(name);
    let repeated_needs = first_problem(
        pipeline.needs.len() as int,
        duplicate_problems(pipeline.needs, label + " dependencies"@),
    );
    let repeated_triggers = first_problem(
        pipeline.triggers.len() as int,
        duplicate_problems(pipeline.triggers, label + " triggers"@),
    );
    let hooks = first_problem(pipeline.triggers.len() as int, hook_problems(pipeline.triggers));
    let needs = first_problem(
        pipeline.needs.len() as int,
        pipeline_need_problems(config, name, pipeline.needs),
    );
    if crate::definition::check::identifier_problem(name, "pipeline"@) is Some {
    } else if pipeline.jobs.len() == 0 && pipeline.needs.len() == 0 {
    } else if repeated_needs is Some {
        lemma_repetition(pipeline.needs, label + " dependencies"@, reason);
    } else if repeated_triggers is Some {
        lemma_repetition(pipeline.triggers, label + " triggers"@, reason);
    } else if hooks is Some {
        lemma_hook(pipeline.triggers, reason);
    } else if needs is Some {
        let k = lemma_some(
            pipeline.needs.len() as int,
            pipeline_need_problems(config, name, pipeline.needs),
        );
        lemma_key(config.pipelines, pipeline.needs[k]);
        if pipeline.needs[k] == name {
            assert(pipeline.needs.contains(name));
        } else {
            assert(!has_pipeline(config, pipeline.needs[k]));
        }
    } else {
        let j = lemma_some(pipeline.jobs.len() as int, job_problems(name, pipeline));
        lemma_about_job(name, pipeline, pipeline.jobs[j].0, pipeline.jobs[j].1, reason);
    }
}

proof fn lemma_cycle(
    names: Seq<Seq<char>>,
    graph: Seq<Seq<int>>,
    kind: Seq<char>,
    reason: Seq<char>,
)
    requires
        cycle_problem(names, graph, kind) == Some(reason),
    ensures
        about_cycle(kind, reason),
{
    let path = crate::definition::cycle::first_cycle(graph)->Some_0;
    let way = crate::text::joined(crate::definition::check::named(names, path), " -> "@);
    assert(reason == kind + " dependency cycle: "@ + because(way));
}

/// What is said of a definition that is refused is true of it: the reason names
/// the part that is wrong, and how.
pub proof fn complaints_are_true(
    config: &PipelineConfig,
    result: Result<(), DefinitionError>,
)
    requires
        call_ensures(PipelineConfig::validate, (config,), result),
        result is Err,
    ensures
        result matches Err(DefinitionError::Invalid(reason)) && is_about(config@, reason@),
{
    let m = config@;
    let reason = result->Err_0->Invalid_0@;
    crate::promises::selecting::lemma_git_hooks();
    let hooks = first_problem(m.triggers.len() as int, hook_problems(keys(m.triggers)));
    let pipelines = first_problem(m.pipelines.len() as int, pipeline_problems(m));
    let cycle = cycle_problem(keys(m.pipelines), pipeline_graph(m), "pipeline"@);
    let job_cycles = first_problem(m.pipelines.len() as int, job_cycle_problems(m));
    assert(config_problem(m) == Some(reason));
    if m.version != 1 || m.pipelines.len() == 0 {
    } else if hooks is Some {
        let t = lemma_some(m.triggers.len() as int, hook_problems(keys(m.triggers)));
        assert(keys(m.triggers)[t] == m.triggers[t].0);
        assert(!git_hooks().contains(m.triggers[t].0));
    } else if pipelines is Some {
        let p = lemma_some(m.pipelines.len() as int, pipeline_problems(m));
        lemma_about_pipeline(m, p, reason);
    } else if cycle is Some {
        lemma_cycle(keys(m.pipelines), pipeline_graph(m), "pipeline"@, reason);
    } else if job_cycles is Some {
        let p = lemma_some(m.pipelines.len() as int, job_cycle_problems(m));
        let pipeline = m.pipelines[p].1;
        lemma_cycle(
            keys(pipeline.jobs),
            job_graph(pipeline),
            "job in "@ + ("pipeline `"@ + m.pipelines[p].0 + "`"@),
            reason,
        );
    } else {
        let t = lemma_some(m.triggers.len() as int, trigger_problems(m));
        let list = m.triggers[t].1;
        let s = lemma_some(list.len() as int, selector_problems(m, m.triggers[t].0, list));
        let why = crate::definition::check::selected_target(m, list[s])->Err_0;
        assert(reason == "hook `"@ + m.triggers[t].0 + "` has invalid selector `"@ + list[s]
            + "`: "@ + because(why));
        assert(about_selector(m, t, s, reason));
    }
}

} // verus!
