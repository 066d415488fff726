//! When a YAML definition is valid, and what is reported when it is not.

use crate::definition::cycle::{acyclic, first_cycle, is_graph};
use crate::definition::error::{earlier, first_problem, lemma_no_problem};
use crate::definition::model::{
    has_key, keys, lemma_position, position, ConfigModel, JobModel, PipelineModel,
};
use crate::definition::selection::TargetModel;
use crate::hooks::supported;
use crate::text::{decimal, joined, path_parts};
use vstd::prelude::*;

verus! {

/// An ASCII letter.
pub open spec fn letter(c: char) -> bool {
    65 <= c as u32 <= 90 || 97 <= c as u32 <= 122
}

/// An ASCII digit.
pub open spec fn numeral(c: char) -> bool {
    48 <= c as u32 <= 57
}

/// `[A-Za-z_][A-Za-z0-9_-]*`
pub open spec fn identifier(name: Seq<char>) -> bool {
    &&& name.len() > 0
    &&& letter(name[0]) || name[0] == '_'
    &&& forall|i: int|
        1 <= i < name.len() ==> letter(#[trigger] name[i]) || numeral(name[i]) || name[i] == '_'
            || name[i] == '-'
}

/// What is wrong with a name of the given kind.
pub open spec fn identifier_problem(name: Seq<char>, kind: Seq<char>) -> Option<Seq<char>> {
    if name.len() == 0 {
        Some(kind + " name cannot be empty"@)
    } else if !identifier(name) {
        Some(
            "invalid "@ + kind + " name `"@ + name
                + "`; expected [A-Za-z_][A-Za-z0-9_-]*"@,
        )
    } else {
        None
    }
}

/// A recipe name, possibly behind module names: identifiers between double
/// colons.
pub open spec fn just_path(value: Seq<char>) -> bool {
    forall|i: int| 0 <= i < path_parts(value).len() ==> identifier(#[trigger] path_parts(value)[i])
}

/// What is wrong with a hook name.
pub open spec fn hook_problem(hook: Seq<char>) -> Option<Seq<char>> {
    if supported(hook) {
        None
    } else {
        Some("unknown Git hook `"@ + hook + "`"@)
    }
}

pub open spec fn hook_problems(hooks: Seq<Seq<char>>) -> spec_fn(int) -> Option<Seq<char>> {
    |i: int| hook_problem(hooks[i])
}

/// What is wrong with the `i`-th of several values that must differ.
pub open spec fn duplicate_problem(
    values: Seq<Seq<char>>,
    description: Seq<char>,
    i: int,
) -> Option<Seq<char>> {
    if values.take(i).contains(values[i]) {
        Some("duplicate `"@ + values[i] + "` in "@ + description)
    } else {
        None
    }
}

pub open spec fn duplicate_problems(
    values: Seq<Seq<char>>,
    description: Seq<char>,
) -> spec_fn(int) -> Option<Seq<char>> {
    |i: int| duplicate_problem(values, description, i)
}

/// `pipeline::job` in back quotes, behind the word "job".
pub open spec fn job_label(pipeline: Seq<char>, job: Seq<char>) -> Seq<char> {
    "job `"@ + pipeline + "::"@ + job + "`"@
}

/// The name of a pipeline in back quotes, behind the word "pipeline".
pub open spec fn pipeline_label(pipeline: Seq<char>) -> Seq<char> {
    "pipeline `"@ + pipeline + "`"@
}

/// What is wrong with a pipeline's dependency.
pub open spec fn pipeline_need_problem(
    config: ConfigModel,
    name: Seq<char>,
    needed: Seq<char>,
) -> Option<Seq<char>> {
    if needed == name {
        Some(pipeline_label(name) + " depends on itself"@)
    } else if !has_key(config.pipelines, needed) {
        Some(pipeline_label(name) + " needs missing pipeline `"@ + needed + "`"@)
    } else {
        None
    }
}

pub open spec fn pipeline_need_problems(
    config: ConfigModel,
    name: Seq<char>,
    needs: Seq<Seq<char>>,
) -> spec_fn(int) -> Option<Seq<char>> {
    |i: int| pipeline_need_problem(config, name, needs[i])
}

/// What is wrong with a job's dependency.
pub open spec fn job_need_problem(
    pipeline_name: Seq<char>,
    pipeline: PipelineModel,
    name: Seq<char>,
    needed: Seq<char>,
) -> Option<Seq<char>> {
    if needed == name {
        Some(job_label(pipeline_name, name) + " depends on itself"@)
    } else if !has_key(pipeline.jobs, needed) {
        Some(job_label(pipeline_name, name) + " needs missing sibling job `"@ + needed + "`"@)
    } else {
        None
    }
}

pub open spec fn job_need_problems(
    pipeline_name: Seq<char>,
    pipeline: PipelineModel,
    name: Seq<char>,
    needs: Seq<Seq<char>>,
) -> spec_fn(int) -> Option<Seq<char>> {
    |i: int| job_need_problem(pipeline_name, pipeline, name, needs[i])
}

/// What is wrong with a job by itself and among its siblings.
pub open spec fn job_problem(
    pipeline_name: Seq<char>,
    pipeline: PipelineModel,
    name: Seq<char>,
    job: JobModel,
) -> Option<Seq<char>> {
    let label = job_label(pipeline_name, name);
    earlier(
        identifier_problem(name, "job"@),
        earlier(
            if just_path(job.just) {
                None
            } else {
                Some(label + " has invalid Just target `"@ + job.just + "`"@)
            },
            earlier(
                first_problem(
                    job.needs.len() as int,
                    duplicate_problems(job.needs, label + " dependencies"@),
                ),
                earlier(
                    first_problem(
                        job.triggers.len() as int,
                        duplicate_problems(job.triggers, label + " triggers"@),
                    ),
                    earlier(
                        first_problem(job.triggers.len() as int, hook_problems(job.triggers)),
                        first_problem(
                            job.needs.len() as int,
                            job_need_problems(pipeline_name, pipeline, name, job.needs),
                        ),
                    ),
                ),
            ),
        ),
    )
}

pub open spec fn job_problems(pipeline_name: Seq<char>, pipeline: PipelineModel) -> spec_fn(
    int,
) -> Option<Seq<char>> {
    |i: int| job_problem(pipeline_name, pipeline, pipeline.jobs[i].0, pipeline.jobs[i].1)
}

/// What is wrong with a pipeline, its references and its jobs; cycles apart.
pub open spec fn pipeline_problem(
    config: ConfigModel,
    name: Seq<char>,
    pipeline: PipelineModel,
) -> Option<Seq<char>> {
    let label = pipeline_label(name);
    earlier(
        identifier_problem(name, "pipeline"@),
        earlier(
            if pipeline.jobs.len() == 0 && pipeline.needs.len() == 0 {
                Some(label + " must contain at least one job or dependency"@)
            } else {
                None
            },
            earlier(
                first_problem(
                    pipeline.needs.len() as int,
                    duplicate_problems(pipeline.needs, label + " dependencies"@),
                ),
                earlier(
                    first_problem(
                        pipeline.triggers.len() as int,
                        duplicate_problems(pipeline.triggers, label + " triggers"@),
                    ),
                    earlier(
                        first_problem(
                            pipeline.triggers.len() as int,
                            hook_problems(pipeline.triggers),
                        ),
                        earlier(
                            first_problem(
                                pipeline.needs.len() as int,
                                pipeline_need_problems(config, name, pipeline.needs),
                            ),
                            first_problem(pipeline.jobs.len() as int, job_problems(name, pipeline)),
                        ),
                    ),
                ),
            ),
        ),
    )
}

pub open spec fn pipeline_problems(config: ConfigModel) -> spec_fn(int) -> Option<Seq<char>> {
    |i: int| pipeline_problem(config, config.pipelines[i].0, config.pipelines[i].1)
}

/// Which pipelines each pipeline waits for, by position.
pub open spec fn pipeline_graph(config: ConfigModel) -> Seq<Seq<int>> {
    Seq::new(
        config.pipelines.len(),
        |i: int|
            Seq::new(
                config.pipelines[i].1.needs.len(),
                |k: int| position(config.pipelines, config.pipelines[i].1.needs[k]),
            ),
    )
}

/// Which siblings each job waits for, by position.
pub open spec fn job_graph(pipeline: PipelineModel) -> Seq<Seq<int>> {
    Seq::new(
        pipeline.jobs.len(),
        |i: int|
            Seq::new(
                pipeline.jobs[i].1.needs.len(),
                |k: int| position(pipeline.jobs, pipeline.jobs[i].1.needs[k]),
            ),
    )
}

/// The names of the nodes of a path.
pub open spec fn named(names: Seq<Seq<char>>, path: Seq<int>) -> Seq<Seq<char>> {
    Seq::new(path.len(), |i: int| names[path[i]])
}

/// The report of the first dependency cycle.
pub open spec fn cycle_problem(
    names: Seq<Seq<char>>,
    graph: Seq<Seq<int>>,
    kind: Seq<char>,
) -> Option<Seq<char>> {
    match first_cycle(graph) {
        None => None,
        Some(path) => Some(kind + " dependency cycle: "@ + joined(named(names, path), " -> "@)),
    }
}

pub open spec fn job_cycle_problems(config: ConfigModel) -> spec_fn(int) -> Option<Seq<char>> {
    |i: int|
        cycle_problem(
            keys(config.pipelines[i].1.jobs),
            job_graph(config.pipelines[i].1),
            "job in "@ + pipeline_label(config.pipelines[i].0),
        )
}

/// What a selector stands for: `PIPELINE` or `PIPELINE::JOB`.
pub open spec fn selected_target(config: ConfigModel, selector: Seq<char>) -> Result<
    TargetModel,
    Seq<char>,
> {
    let parts = path_parts(selector);
    if parts.len() == 1 {
        if has_key(config.pipelines, parts[0]) {
            Ok(TargetModel::Pipeline(parts[0]))
        } else {
            Err("unknown pipeline `"@ + parts[0] + "`"@)
        }
    } else if parts.len() == 2 {
        if !has_key(config.pipelines, parts[0]) {
            Err("unknown pipeline `"@ + parts[0] + "`"@)
        } else if !has_key(
            config.pipelines[position(config.pipelines, parts[0])].1.jobs,
            parts[1],
        ) {
            Err("unknown job `"@ + parts[0] + "::"@ + parts[1] + "`"@)
        } else {
            Ok(TargetModel::Job(parts[0], parts[1]))
        }
    } else {
        Err("expected `PIPELINE` or `PIPELINE::JOB`"@)
    }
}

pub open spec fn selector_problem(
    config: ConfigModel,
    hook: Seq<char>,
    selector: Seq<char>,
) -> Option<Seq<char>> {
    match selected_target(config, selector) {
        Ok(_) => None,
        Err(reason) => Some(
            "hook `"@ + hook + "` has invalid selector `"@ + selector + "`: "@ + reason,
        ),
    }
}

pub open spec fn selector_problems(
    config: ConfigModel,
    hook: Seq<char>,
    selectors: Seq<Seq<char>>,
) -> spec_fn(int) -> Option<Seq<char>> {
    |i: int| selector_problem(config, hook, selectors[i])
}

pub open spec fn trigger_problems(config: ConfigModel) -> spec_fn(int) -> Option<Seq<char>> {
    |i: int|
        first_problem(
            config.triggers[i].1.len() as int,
            selector_problems(config, config.triggers[i].0, config.triggers[i].1),
        )
}

/// The first thing that is wrong with a definition.
pub open spec fn config_problem(config: ConfigModel) -> Option<Seq<char>> {
    earlier(
        if config.version != 1 {
            Some(
                "unsupported version "@ + decimal(config.version)
                    + "; only version 1 is supported"@,
            )
        } else if config.pipelines.len() == 0 {
            Some("`pipelines` must contain at least one pipeline"@)
        } else {
            None
        },
        earlier(
            first_problem(config.triggers.len() as int, hook_problems(keys(config.triggers))),
            earlier(
                first_problem(config.pipelines.len() as int, pipeline_problems(config)),
                earlier(
                    cycle_problem(keys(config.pipelines), pipeline_graph(config), "pipeline"@),
                    earlier(
                        first_problem(config.pipelines.len() as int, job_cycle_problems(config)),
                        first_problem(config.triggers.len() as int, trigger_problems(config)),
                    ),
                ),
            ),
        ),
    )
}

/// A job that may stand in a definition.
pub open spec fn valid_job(pipeline: PipelineModel, name: Seq<char>, job: JobModel) -> bool {
    &&& identifier(name)
    &&& just_path(job.just)
    &&& job.needs.no_duplicates()
    &&& job.triggers.no_duplicates()
    &&& forall|i: int| 0 <= i < job.triggers.len() ==> supported(#[trigger] job.triggers[i])
    &&& forall|i: int|
        0 <= i < job.needs.len() ==> #[trigger] job.needs[i] != name && has_key(
            pipeline.jobs,
            job.needs[i],
        )
}

/// A pipeline that may stand in a definition.
pub open spec fn valid_pipeline(
    config: ConfigModel,
    name: Seq<char>,
    pipeline: PipelineModel,
) -> bool {
    &&& identifier(name)
    &&& pipeline.jobs.len() > 0 || pipeline.needs.len() > 0
    &&& pipeline.needs.no_duplicates()
    &&& pipeline.triggers.no_duplicates()
    &&& forall|i: int| 0 <= i < pipeline.triggers.len() ==> supported(#[trigger] pipeline.triggers[i])
    &&& forall|i: int|
        0 <= i < pipeline.needs.len() ==> #[trigger] pipeline.needs[i] != name && has_key(
            config.pipelines,
            pipeline.needs[i],
        )
    &&& forall|i: int|
        0 <= i < pipeline.jobs.len() ==> valid_job(
            pipeline,
            (#[trigger] pipeline.jobs[i]).0,
            pipeline.jobs[i].1,
        )
}

/// Every selector of a hook stands for something.
pub open spec fn valid_selectors(config: ConfigModel, selectors: Seq<Seq<char>>) -> bool {
    forall|i: int|
        0 <= i < selectors.len() ==> selected_target(config, #[trigger] selectors[i]) is Ok
}

/// A definition without anything wrong.
pub open spec fn valid_config(config: ConfigModel) -> bool {
    &&& config.version == 1
    &&& config.pipelines.len() > 0
    &&& forall|i: int|
        0 <= i < config.triggers.len() ==> supported((#[trigger] config.triggers[i]).0)
    &&& forall|i: int|
        0 <= i < config.pipelines.len() ==> valid_pipeline(
            config,
            (#[trigger] config.pipelines[i]).0,
            config.pipelines[i].1,
        )
    &&& acyclic(pipeline_graph(config))
    &&& forall|i: int|
        0 <= i < config.pipelines.len() ==> acyclic(job_graph((#[trigger] config.pipelines[i]).1))
    &&& forall|i: int|
        0 <= i < config.triggers.len() ==> valid_selectors(
            config,
            (#[trigger] config.triggers[i]).1,
        )
}

proof fn lemma_hooks(hooks: Seq<Seq<char>>)
    ensures
        first_problem(hooks.len() as int, hook_problems(hooks)) is None <==> forall|i: int|
            0 <= i < hooks.len() ==> supported(#[trigger] hooks[i]),
{
    let f = hook_problems(hooks);
    lemma_no_problem(hooks.len() as int, f);
    if first_problem(hooks.len() as int, f) is None {
        assert forall|i: int| 0 <= i < hooks.len() implies supported(#[trigger] hooks[i]) by {
            assert(f(i) is None);
        }
    }
}

proof fn lemma_duplicates(values: Seq<Seq<char>>, description: Seq<char>)
    ensures
        first_problem(values.len() as int, duplicate_problems(values, description)) is None
            <==> values.no_duplicates(),
{
    let f = duplicate_problems(values, description);
    lemma_no_problem(values.len() as int, f);
    if first_problem(values.len() as int, f) is None {
        assert forall|i: int, j: int|
            0 <= i < values.len() && 0 <= j < values.len() && i != j implies values[i]
            != values[j] by {
            assert(f(i) is None && f(j) is None);
            if values[i] == values[j] {
                if i < j {
                    assert(values.take(j)[i] == values[j]);
                } else {
                    assert(values.take(i)[j] == values[i]);
                }
            }
        }
    }
    if values.no_duplicates() {
        assert forall|i: int| 0 <= i < values.len() implies #[trigger] f(i) is None by {
            if values.take(i).contains(values[i]) {
                let k = choose|k: int| 0 <= k < values.take(i).len() && values.take(i)[k] == values[i];
                assert(values[k] == values[i]);
            }
        }
    }
}

proof fn lemma_job(pipeline_name: Seq<char>, pipeline: PipelineModel, name: Seq<char>, job: JobModel)
    ensures
        job_problem(pipeline_name, pipeline, name, job) is None <==> valid_job(pipeline, name, job),
{
    let label = job_label(pipeline_name, name);
    lemma_duplicates(job.needs, label + " dependencies"@);
    lemma_duplicates(job.triggers, label + " triggers"@);
    lemma_hooks(job.triggers);
    let f = job_need_problems(pipeline_name, pipeline, name, job.needs);
    lemma_no_problem(job.needs.len() as int, f);
    if first_problem(job.needs.len() as int, f) is None {
        assert forall|i: int| 0 <= i < job.needs.len() implies #[trigger] job.needs[i] != name
            && has_key(pipeline.jobs, job.needs[i]) by {
            assert(f(i) is None);
        }
    }
}

proof fn lemma_pipeline(config: ConfigModel, name: Seq<char>, pipeline: PipelineModel)
    ensures
        pipeline_problem(config, name, pipeline) is None <==> valid_pipeline(config, name, pipeline),
{
    let label = pipeline_label(name);
    lemma_duplicates(pipeline.needs, label + " dependencies"@);
    lemma_duplicates(pipeline.triggers, label + " triggers"@);
    lemma_hooks(pipeline.triggers);
    let f = pipeline_need_problems(config, name, pipeline.needs);
    lemma_no_problem(pipeline.needs.len() as int, f);
    if first_problem(pipeline.needs.len() as int, f) is None {
        assert forall|i: int| 0 <= i < pipeline.needs.len() implies #[trigger] pipeline.needs[i]
            != name && has_key(config.pipelines, pipeline.needs[i]) by {
            assert(f(i) is None);
        }
    }
    let g = job_problems(name, pipeline);
    lemma_no_problem(pipeline.jobs.len() as int, g);
    assert forall|i: int| 0 <= i < pipeline.jobs.len() implies (#[trigger] g(i) is None
        <==> valid_job(pipeline, pipeline.jobs[i].0, pipeline.jobs[i].1)) by {
        lemma_job(name, pipeline, pipeline.jobs[i].0, pipeline.jobs[i].1);
    }
    if first_problem(pipeline.jobs.len() as int, g) is None {
        assert forall|i: int| 0 <= i < pipeline.jobs.len() implies valid_job(
            pipeline,
            (#[trigger] pipeline.jobs[i]).0,
            pipeline.jobs[i].1,
        ) by {
            assert(g(i) is None);
        }
    }
}

pub proof fn lemma_pipeline_graph(config: ConfigModel)
    requires
        forall|i: int|
            0 <= i < config.pipelines.len() ==> valid_pipeline(
                config,
                (#[trigger] config.pipelines[i]).0,
                config.pipelines[i].1,
            ),
    ensures
        is_graph(pipeline_graph(config)),
{
    let graph = pipeline_graph(config);
    assert forall|i: int, k: int| 0 <= i < graph.len() && 0 <= k < graph[i].len() implies 0
        <= #[trigger] graph[i][k] < graph.len() by {
        let needs = config.pipelines[i].1.needs;
        assert(needs[k] != config.pipelines[i].0);
        lemma_position(config.pipelines, needs[k]);
    }
}

pub proof fn lemma_job_graph(config: ConfigModel, name: Seq<char>, pipeline: PipelineModel)
    requires
        valid_pipeline(config, name, pipeline),
    ensures
        is_graph(job_graph(pipeline)),
{
    let graph = job_graph(pipeline);
    assert forall|i: int, k: int| 0 <= i < graph.len() && 0 <= k < graph[i].len() implies 0
        <= #[trigger] graph[i][k] < graph.len() by {
        let needs = pipeline.jobs[i].1.needs;
        assert(valid_job(pipeline, pipeline.jobs[i].0, pipeline.jobs[i].1));
        assert(needs[k] != pipeline.jobs[i].0);
        lemma_position(pipeline.jobs, needs[k]);
    }
}

pub proof fn lemma_sound_graphs(config: ConfigModel)
    requires
        first_problem(config.pipelines.len() as int, pipeline_problems(config)) is None,
    ensures
        forall|i: int|
            0 <= i < config.pipelines.len() ==> valid_pipeline(
                config,
                (#[trigger] config.pipelines[i]).0,
                config.pipelines[i].1,
            ),
        is_graph(pipeline_graph(config)),
        forall|i: int|
            0 <= i < config.pipelines.len() ==> is_graph(
                job_graph((#[trigger] config.pipelines[i]).1),
            ),
{
    let f = pipeline_problems(config);
    lemma_no_problem(config.pipelines.len() as int, f);
    assert forall|i: int| 0 <= i < config.pipelines.len() implies valid_pipeline(
        config,
        (#[trigger] config.pipelines[i]).0,
        config.pipelines[i].1,
    ) by {
        assert(f(i) is None);
        lemma_pipeline(config, config.pipelines[i].0, config.pipelines[i].1);
    }
    lemma_pipeline_graph(config);
    assert forall|i: int| 0 <= i < config.pipelines.len() implies is_graph(
        job_graph((#[trigger] config.pipelines[i]).1),
    ) by {
        lemma_job_graph(config, config.pipelines[i].0, config.pipelines[i].1);
    }
}

/// Validation accepts exactly the valid definitions.
pub proof fn validation_is_exact(config: ConfigModel)
    ensures
        config_problem(config) is None <==> valid_config(config),
{
    let hooks = keys(config.triggers);
    lemma_hooks(hooks);
    assert forall|i: int| 0 <= i < config.triggers.len() implies hooks[i]
        == (#[trigger] config.triggers[i]).0 by {}
    let f = pipeline_problems(config);
    let n = config.pipelines.len() as int;
    lemma_no_problem(n, f);
    assert forall|i: int| 0 <= i < n implies (#[trigger] f(i) is None <==> valid_pipeline(
        config,
        config.pipelines[i].0,
        config.pipelines[i].1,
    )) by {
        lemma_pipeline(config, config.pipelines[i].0, config.pipelines[i].1);
    }
    let sound = forall|i: int|
        0 <= i < config.pipelines.len() ==> valid_pipeline(
            config,
            (#[trigger] config.pipelines[i]).0,
            config.pipelines[i].1,
        );
    assert(first_problem(n, f) is None <==> sound) by {
        if first_problem(n, f) is None {
            assert forall|i: int| 0 <= i < n implies valid_pipeline(
                config,
                (#[trigger] config.pipelines[i]).0,
                config.pipelines[i].1,
            ) by {
                assert(f(i) is None);
            }
        }
    }
    if sound {
        lemma_pipeline_graph(config);
        crate::definition::cycle::search_finds_every_cycle(pipeline_graph(config));
        let g = job_cycle_problems(config);
        lemma_no_problem(n, g);
        assert forall|i: int| 0 <= i < n implies (#[trigger] g(i) is None <==> acyclic(
            job_graph(config.pipelines[i].1),
        )) by {
            assert(valid_pipeline(config, config.pipelines[i].0, config.pipelines[i].1));
            lemma_job_graph(config, config.pipelines[i].0, config.pipelines[i].1);
            crate::definition::cycle::search_finds_every_cycle(job_graph(config.pipelines[i].1));
        }
        assert(first_problem(n, g) is None <==> forall|i: int|
            0 <= i < config.pipelines.len() ==> acyclic(
                job_graph((#[trigger] config.pipelines[i]).1),
            )) by {
            if first_problem(n, g) is None {
                assert forall|i: int| 0 <= i < n implies acyclic(
                    job_graph((#[trigger] config.pipelines[i]).1),
                ) by {
                    assert(g(i) is None);
                }
            }
        }
    }
    let h = trigger_problems(config);
    let m = config.triggers.len() as int;
    lemma_no_problem(m, h);
    assert forall|i: int| 0 <= i < m implies (#[trigger] h(i) is None <==> valid_selectors(
        config,
        config.triggers[i].1,
    )) by {
        let selectors = config.triggers[i].1;
        let s = selector_problems(config, config.triggers[i].0, selectors);
        lemma_no_problem(selectors.len() as int, s);
        if h(i) is None {
            assert forall|k: int| 0 <= k < selectors.len() implies selected_target(
                config,
                #[trigger] selectors[k],
            ) is Ok by {
                assert(s(k) is None);
            }
        }
    }
    if first_problem(m, h) is None {
        assert forall|i: int| 0 <= i < m implies valid_selectors(
            config,
            (#[trigger] config.triggers[i]).1,
        ) by {
            assert(h(i) is None);
        }
    }
}

} // verus!
