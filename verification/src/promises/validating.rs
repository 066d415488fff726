//! Which definitions are accepted.

use crate::definition::check::{
    identifier, job_graph, lemma_job_graph, lemma_pipeline_graph, pipeline_graph, selected_target,
    valid_config, valid_job, valid_pipeline, valid_selectors, validation_is_exact,
};
use crate::definition::cycle::{
    acyclic, falling_ranks_exclude_cycles, height, is_graph, lemma_heights_fall,
};
use crate::definition::error::DefinitionError;
use crate::definition::model::{
    has_key, keys, lemma_position, position, ConfigModel, JobModel, PipelineConfig, PipelineModel,
};
use crate::definition::selection::{SelectedTarget, TargetModel};
use crate::hooks::supported;
use crate::promises::compiling::{lemma_colons_at, lemma_found, names_are_distinct};
use crate::text::{double_colon, path_parts};
use vstd::prelude::*;

verus! {

/// A letter, a digit, or one of the two marks that a name may have.
pub open spec fn name_char(c: char) -> bool {
    97 <= c as u32 <= 122 || 65 <= c as u32 <= 90 || 48 <= c as u32 <= 57 || c == '_' || c == '-'
}

/// A name: it starts with a letter or an underscore, and goes on with letters,
/// digits, underscores and dashes.
pub open spec fn proper_name(name: Seq<char>) -> bool {
    &&& name.len() > 0
    &&& forall|i: int| 0 <= i < name.len() ==> name_char(#[trigger] name[i])
    &&& !(48 <= name[0] as u32 <= 57) && name[0] != '-'
}

/// The definition has a pipeline of this name.
pub open spec fn has_pipeline(config: ConfigModel, name: Seq<char>) -> bool {
    exists|p: int| 0 <= p < config.pipelines.len() && (#[trigger] config.pipelines[p]).0 == name
}

/// The pipeline has a job of this name.
pub open spec fn has_job(pipeline: PipelineModel, name: Seq<char>) -> bool {
    exists|j: int| 0 <= j < pipeline.jobs.len() && (#[trigger] pipeline.jobs[j]).0 == name
}

/// Several values, each once.
pub open spec fn without_repetition(list: Seq<Seq<char>>) -> bool {
    forall|a: int, b: int|
        0 <= a < b < list.len() ==> #[trigger] list[a] != #[trigger] list[b]
}

/// Hooks that Git has, each once.
pub open spec fn real_hooks(list: Seq<Seq<char>>) -> bool {
    without_repetition(list) && forall|i: int|
        0 <= i < list.len() ==> supported(#[trigger] list[i])
}

/// What a job may be: a proper name, a Just target of proper names, and needs
/// that are other jobs of its pipeline.
pub open spec fn proper_job(pipeline: PipelineModel, name: Seq<char>, job: JobModel) -> bool {
    &&& proper_name(name)
    &&& forall|k: int|
        0 <= k < path_parts(job.just).len() ==> proper_name(#[trigger] path_parts(job.just)[k])
    &&& without_repetition(job.needs)
    &&& forall|k: int|
        0 <= k < job.needs.len() ==> #[trigger] job.needs[k] != name && has_job(
            pipeline,
            job.needs[k],
        )
    &&& real_hooks(job.triggers)
}

/// What a pipeline may be: a proper name, something to do, needs that are other
/// pipelines, and proper jobs.
pub open spec fn proper_pipeline(
    config: ConfigModel,
    name: Seq<char>,
    pipeline: PipelineModel,
) -> bool {
    &&& proper_name(name)
    &&& pipeline.jobs.len() > 0 || pipeline.needs.len() > 0
    &&& without_repetition(pipeline.needs)
    &&& forall|k: int|
        0 <= k < pipeline.needs.len() ==> #[trigger] pipeline.needs[k] != name && has_pipeline(
            config,
            pipeline.needs[k],
        )
    &&& real_hooks(pipeline.triggers)
    &&& forall|j: int|
        0 <= j < pipeline.jobs.len() ==> proper_job(
            pipeline,
            (#[trigger] pipeline.jobs[j]).0,
            pipeline.jobs[j].1,
        )
}

/// The pipelines can be run one after the other so that each comes after all
/// that it needs.
pub open spec fn pipelines_can_be_ordered(config: ConfigModel) -> bool {
    exists|rank: spec_fn(int) -> int| #[trigger] orders_pipelines(config, rank)
}

pub open spec fn orders_pipelines(config: ConfigModel, rank: spec_fn(int) -> int) -> bool {
    forall|i: int, p: int|
        0 <= i < config.pipelines.len() && 0 <= p < config.pipelines.len()
            && config.pipelines[i].1.needs.contains(config.pipelines[p].0) ==> #[trigger] rank(p)
            < #[trigger] rank(i)
}

/// The same for the jobs of a pipeline.
pub open spec fn jobs_can_be_ordered(pipeline: PipelineModel) -> bool {
    exists|rank: spec_fn(int) -> int| #[trigger] orders_jobs(pipeline, rank)
}

pub open spec fn orders_jobs(pipeline: PipelineModel, rank: spec_fn(int) -> int) -> bool {
    forall|i: int, p: int|
        0 <= i < pipeline.jobs.len() && 0 <= p < pipeline.jobs.len()
            && pipeline.jobs[i].1.needs.contains(pipeline.jobs[p].0) ==> #[trigger] rank(p)
            < #[trigger] rank(i)
}

/// A selector names a pipeline, or a job behind its pipeline and two colons.
pub open spec fn stands_for(config: ConfigModel, selector: Seq<char>, target: TargetModel) -> bool {
    match target {
        TargetModel::Pipeline(name) => selector == name && has_pipeline(config, name),
        TargetModel::Job(name, job) => selector == name + "::"@ + job && exists|p: int|
            0 <= p < config.pipelines.len() && (#[trigger] config.pipelines[p]).0 == name
                && has_job(config.pipelines[p].1, job),
    }
}

/// A selector names something of the definition.
pub open spec fn means_something(config: ConfigModel, selector: Seq<char>) -> bool {
    exists|target: TargetModel| #[trigger] stands_for(config, selector, target)
}

/// A definition that can be run.
pub open spec fn proper_definition(config: ConfigModel) -> bool {
    &&& config.version == 1
    &&& config.pipelines.len() > 0
    &&& forall|i: int|
        0 <= i < config.pipelines.len() ==> proper_pipeline(
            config,
            (#[trigger] config.pipelines[i]).0,
            config.pipelines[i].1,
        )
    &&& pipelines_can_be_ordered(config)
    &&& forall|i: int|
        0 <= i < config.pipelines.len() ==> jobs_can_be_ordered((#[trigger] config.pipelines[i]).1)
    &&& forall|i: int|
        0 <= i < config.triggers.len() ==> supported((#[trigger] config.triggers[i]).0)
    &&& forall|i: int, k: int|
        0 <= i < config.triggers.len() && 0 <= k < config.triggers[i].1.len() ==> means_something(
            config,
            #[trigger] config.triggers[i].1[k],
        )
}

pub proof fn lemma_name(name: Seq<char>)
    ensures
        identifier(name) <==> proper_name(name),
{
    if proper_name(name) {
        assert(name_char(name[0]));
        assert forall|i: int| 1 <= i < name.len() implies crate::definition::check::letter(
            #[trigger] name[i],
        ) || crate::definition::check::numeral(name[i]) || name[i] == '_' || name[i] == '-' by {
            assert(name_char(name[i]));
        }
    }
    if identifier(name) {
        assert forall|i: int| 0 <= i < name.len() implies name_char(#[trigger] name[i]) by {
            if i > 0 {
                assert(crate::definition::check::letter(name[i])
                    || crate::definition::check::numeral(name[i]) || name[i] == '_' || name[i]
                    == '-');
            }
        }
    }
}

pub proof fn lemma_key<T>(entries: Seq<(Seq<char>, T)>, name: Seq<char>)
    ensures
        has_key(entries, name) <==> exists|p: int|
            0 <= p < entries.len() && (#[trigger] entries[p]).0 == name,
{
    let all = keys(entries);
    if all.contains(name) {
        let p = choose|p: int| 0 <= p < all.len() && all[p] == name;
        assert(entries[p].0 == name);
    }
    if exists|p: int| 0 <= p < entries.len() && (#[trigger] entries[p]).0 == name {
        let p = choose|p: int| 0 <= p < entries.len() && (#[trigger] entries[p]).0 == name;
        assert(all[p] == name);
    }
}

proof fn lemma_job(pipeline: PipelineModel, name: Seq<char>, job: JobModel)
    ensures
        valid_job(pipeline, name, job) <==> proper_job(pipeline, name, job),
{
    lemma_name(name);
    let parts = path_parts(job.just);
    assert forall|k: int| 0 <= k < parts.len() implies (identifier(#[trigger] parts[k])
        <==> proper_name(parts[k])) by {
        lemma_name(parts[k]);
    }
    assert forall|k: int| 0 <= k < job.needs.len() implies (has_key(
        pipeline.jobs,
        #[trigger] job.needs[k],
    ) <==> has_job(pipeline, job.needs[k])) by {
        lemma_key(pipeline.jobs, job.needs[k]);
    }
    assert(job.needs.no_duplicates() <==> without_repetition(job.needs));
    assert(job.triggers.no_duplicates() <==> without_repetition(job.triggers));
}

proof fn lemma_pipeline(config: ConfigModel, name: Seq<char>, pipeline: PipelineModel)
    ensures
        valid_pipeline(config, name, pipeline) <==> proper_pipeline(config, name, pipeline),
{
    lemma_name(name);
    assert forall|k: int| 0 <= k < pipeline.needs.len() implies (has_key(
        config.pipelines,
        #[trigger] pipeline.needs[k],
    ) <==> has_pipeline(config, pipeline.needs[k])) by {
        lemma_key(config.pipelines, pipeline.needs[k]);
    }
    assert forall|j: int| 0 <= j < pipeline.jobs.len() implies (valid_job(
        pipeline,
        (#[trigger] pipeline.jobs[j]).0,
        pipeline.jobs[j].1,
    ) <==> proper_job(pipeline, pipeline.jobs[j].0, pipeline.jobs[j].1)) by {
        lemma_job(pipeline, pipeline.jobs[j].0, pipeline.jobs[j].1);
    }
    assert(pipeline.needs.no_duplicates() <==> without_repetition(pipeline.needs));
    assert(pipeline.triggers.no_duplicates() <==> without_repetition(pipeline.triggers));
}

proof fn lemma_pipeline_order(config: ConfigModel)
    requires
        keys(config.pipelines).no_duplicates(),
        is_graph(pipeline_graph(config)),
    ensures
        acyclic(pipeline_graph(config)) <==> pipelines_can_be_ordered(config),
{
    let graph = pipeline_graph(config);
    if acyclic(graph) {
        lemma_heights_fall(graph);
        let rank = |i: int| height(graph, i);
        assert forall|i: int, p: int|
            0 <= i < config.pipelines.len() && 0 <= p < config.pipelines.len()
                && config.pipelines[i].1.needs.contains(
                config.pipelines[p].0,
            ) implies #[trigger] rank(p) < #[trigger] rank(i) by {
            let needs = config.pipelines[i].1.needs;
            let k = choose|k: int| 0 <= k < needs.len() && needs[k] == config.pipelines[p].0;
            lemma_found(config.pipelines, p);
            assert(graph[i][k] == p);
        }
        assert(orders_pipelines(config, rank));
    }
    if pipelines_can_be_ordered(config) {
        let rank = choose|rank: spec_fn(int) -> int| #[trigger] orders_pipelines(config, rank);
        let minor = |i: int| 0int;
        assert forall|i: int, k: int| 0 <= i < graph.len() && 0 <= k < graph[i].len() implies {
            let to = #[trigger] graph[i][k];
            rank(to) < rank(i) || (rank(to) == rank(i) && minor(to) < minor(i))
        } by {
            let name = config.pipelines[i].1.needs[k];
            let p = graph[i][k];
            lemma_position(config.pipelines, name);
            assert(config.pipelines[p].0 == name);
            assert(config.pipelines[i].1.needs.contains(config.pipelines[p].0));
            assert(rank(p) < rank(i));
        }
        falling_ranks_exclude_cycles(graph, rank, minor);
    }
}

proof fn lemma_job_order(pipeline: PipelineModel)
    requires
        keys(pipeline.jobs).no_duplicates(),
        is_graph(job_graph(pipeline)),
    ensures
        acyclic(job_graph(pipeline)) <==> jobs_can_be_ordered(pipeline),
{
    let graph = job_graph(pipeline);
    if acyclic(graph) {
        lemma_heights_fall(graph);
        let rank = |i: int| height(graph, i);
        assert forall|i: int, p: int|
            0 <= i < pipeline.jobs.len() && 0 <= p < pipeline.jobs.len()
                && pipeline.jobs[i].1.needs.contains(
                pipeline.jobs[p].0,
            ) implies #[trigger] rank(p) < #[trigger] rank(i) by {
            let needs = pipeline.jobs[i].1.needs;
            let k = choose|k: int| 0 <= k < needs.len() && needs[k] == pipeline.jobs[p].0;
            lemma_found(pipeline.jobs, p);
            assert(graph[i][k] == p);
        }
        assert(orders_jobs(pipeline, rank));
    }
    if jobs_can_be_ordered(pipeline) {
        let rank = choose|rank: spec_fn(int) -> int| #[trigger] orders_jobs(pipeline, rank);
        let minor = |i: int| 0int;
        assert forall|i: int, k: int| 0 <= i < graph.len() && 0 <= k < graph[i].len() implies {
            let to = #[trigger] graph[i][k];
            rank(to) < rank(i) || (rank(to) == rank(i) && minor(to) < minor(i))
        } by {
            let name = pipeline.jobs[i].1.needs[k];
            let p = graph[i][k];
            lemma_position(pipeline.jobs, name);
            assert(pipeline.jobs[p].0 == name);
            assert(pipeline.jobs[i].1.needs.contains(pipeline.jobs[p].0));
            assert(rank(p) < rank(i));
        }
        falling_ranks_exclude_cycles(graph, rank, minor);
    }
}

/// A name has no double colon.
pub proof fn lemma_no_colon(name: Seq<char>, rest: Seq<char>)
    requires
        forall|i: int| 0 <= i < name.len() ==> #[trigger] name[i] != ':',
        rest.len() == 0 || (rest.len() >= 2 && rest[0] == ':' && rest[1] == ':'),
    ensures
        double_colon(name + rest) == name.len(),
    decreases name.len(),
{
    let all = name + rest;
    if name.len() == 0 {
        assert(all =~= rest);
    } else {
        assert(name[0] != ':');
        assert(all[0] == name[0]);
        let tail = name.drop_first();
        assert forall|i: int| 0 <= i < tail.len() implies #[trigger] tail[i] != ':' by {
            assert(tail[i] == name[i + 1]);
        }
        lemma_no_colon(tail, rest);
        assert(all.drop_first() =~= tail + rest);
    }
}

proof fn lemma_one_part(name: Seq<char>)
    requires
        proper_name(name),
    ensures
        path_parts(name) == seq![name],
{
    assert forall|i: int| 0 <= i < name.len() implies #[trigger] name[i] != ':' by {
        assert(name_char(name[i]));
    }
    lemma_no_colon(name, seq![]);
    assert(name + Seq::<char>::empty() =~= name);
}

proof fn lemma_two_parts(name: Seq<char>, job: Seq<char>)
    requires
        proper_name(name),
        proper_name(job),
    ensures
        path_parts(name + "::"@ + job) == seq![name, job],
{
    reveal_strlit("::");
    assert forall|i: int| 0 <= i < name.len() implies #[trigger] name[i] != ':' by {
        assert(name_char(name[i]));
    }
    let rest = "::"@ + job;
    let all = name + "::"@ + job;
    lemma_no_colon(name, rest);
    assert(all =~= name + rest);
    let n = name.len() as int;
    assert(all.take(n) =~= name);
    assert(all.skip(n + 2) =~= job);
    lemma_one_part(job);
    assert(seq![name] + seq![job] =~= seq![name, job]);
}

/// Texts are cut at double colons and nowhere else.
proof fn lemma_parts_join(text: Seq<char>)
    ensures
        path_parts(text).len() >= 1,
        path_parts(text).len() == 1 ==> path_parts(text)[0] == text,
        path_parts(text).len() == 2 ==> text == path_parts(text)[0] + "::"@ + path_parts(text)[1],
    decreases text.len(),
{
    reveal_strlit("::");
    lemma_colons_at(text);
    let n = double_colon(text);
    if n + 2 <= text.len() {
        let rest = text.skip(n + 2);
        lemma_parts_join(rest);
        assert(path_parts(text) =~= seq![text.take(n)] + path_parts(rest));
        if path_parts(text).len() == 2 {
            assert(path_parts(rest).len() == 1);
            assert(text =~= text.take(n) + "::"@ + rest);
        }
    }
}

/// A selector stands for what it names.
pub proof fn lemma_selector(config: ConfigModel, selector: Seq<char>, target: TargetModel)
    requires
        names_are_distinct(config),
        forall|i: int|
            0 <= i < config.pipelines.len() ==> proper_pipeline(
                config,
                (#[trigger] config.pipelines[i]).0,
                config.pipelines[i].1,
            ),
    ensures
        selected_target(config, selector) == Ok::<TargetModel, Seq<char>>(target) <==> stands_for(
            config,
            selector,
            target,
        ),
{
    let parts = path_parts(selector);
    lemma_parts_join(selector);
    if selected_target(config, selector) == Ok::<TargetModel, Seq<char>>(target) {
        lemma_key(config.pipelines, parts[0]);
        if parts.len() == 2 {
            lemma_position(config.pipelines, parts[0]);
            let p = position(config.pipelines, parts[0]);
            lemma_key(config.pipelines[p].1.jobs, parts[1]);
            assert(config.pipelines[p].0 == parts[0]);
        }
    }
    if stands_for(config, selector, target) {
        match target {
            TargetModel::Pipeline(name) => {
                let p = choose|p: int|
                    0 <= p < config.pipelines.len() && (#[trigger] config.pipelines[p]).0 == name;
                assert(proper_pipeline(config, config.pipelines[p].0, config.pipelines[p].1));
                lemma_one_part(name);
                lemma_key(config.pipelines, name);
            },
            TargetModel::Job(name, job) => {
                let p = choose|p: int|
                    0 <= p < config.pipelines.len() && (#[trigger] config.pipelines[p]).0 == name
                        && has_job(config.pipelines[p].1, job);
                assert(proper_pipeline(config, config.pipelines[p].0, config.pipelines[p].1));
                let jobs = config.pipelines[p].1.jobs;
                let j = choose|j: int| 0 <= j < jobs.len() && (#[trigger] jobs[j]).0 == job;
                assert(proper_job(config.pipelines[p].1, jobs[j].0, jobs[j].1));
                lemma_two_parts(name, job);
                lemma_key(config.pipelines, name);
                lemma_found(config.pipelines, p);
                lemma_key(jobs, job);
            },
        }
    }
}

proof fn lemma_proper(config: ConfigModel)
    requires
        names_are_distinct(config),
    ensures
        valid_config(config) <==> proper_definition(config),
{
    assert forall|i: int| 0 <= i < config.pipelines.len() implies (valid_pipeline(
        config,
        (#[trigger] config.pipelines[i]).0,
        config.pipelines[i].1,
    ) <==> proper_pipeline(config, config.pipelines[i].0, config.pipelines[i].1)) by {
        lemma_pipeline(config, config.pipelines[i].0, config.pipelines[i].1);
    }
    let all_proper = forall|i: int|
        0 <= i < config.pipelines.len() ==> proper_pipeline(
            config,
            (#[trigger] config.pipelines[i]).0,
            config.pipelines[i].1,
        );
    if all_proper {
        assert forall|i: int| 0 <= i < config.pipelines.len() implies valid_pipeline(
            config,
            (#[trigger] config.pipelines[i]).0,
            config.pipelines[i].1,
        ) by {
            assert(proper_pipeline(config, config.pipelines[i].0, config.pipelines[i].1));
        }
        lemma_pipeline_graph(config);
        lemma_pipeline_order(config);
        assert forall|i: int| 0 <= i < config.pipelines.len() implies (acyclic(
            job_graph((#[trigger] config.pipelines[i]).1),
        ) <==> jobs_can_be_ordered(config.pipelines[i].1)) by {
            lemma_job_graph(config, config.pipelines[i].0, config.pipelines[i].1);
            lemma_job_order(config.pipelines[i].1);
        }
        lemma_all_selectors(config);
    } else if valid_config(config) {
        assert forall|i: int| 0 <= i < config.pipelines.len() implies proper_pipeline(
            config,
            (#[trigger] config.pipelines[i]).0,
            config.pipelines[i].1,
        ) by {
            assert(valid_pipeline(config, config.pipelines[i].0, config.pipelines[i].1));
        }
    }
}

proof fn lemma_all_selectors(config: ConfigModel)
    requires
        names_are_distinct(config),
        forall|i: int|
            0 <= i < config.pipelines.len() ==> proper_pipeline(
                config,
                (#[trigger] config.pipelines[i]).0,
                config.pipelines[i].1,
            ),
    ensures
        (forall|i: int|
            0 <= i < config.triggers.len() ==> valid_selectors(
                config,
                (#[trigger] config.triggers[i]).1,
            )) <==> (forall|i: int, k: int|
            0 <= i < config.triggers.len() && 0 <= k < config.triggers[i].1.len() ==> means_something(
                config,
                #[trigger] config.triggers[i].1[k],
            )),
{
    if forall|i: int|
        0 <= i < config.triggers.len() ==> valid_selectors(
            config,
            (#[trigger] config.triggers[i]).1,
        ) {
        assert forall|i: int, k: int|
            0 <= i < config.triggers.len() && 0 <= k < config.triggers[i].1.len() implies means_something(
            config,
            #[trigger] config.triggers[i].1[k],
        ) by {
            assert(valid_selectors(config, config.triggers[i].1));
            let selector = config.triggers[i].1[k];
            let target = selected_target(config, selector)->Ok_0;
            lemma_selector(config, selector, target);
            assert(stands_for(config, selector, target));
        }
    }
    if forall|i: int, k: int|
        0 <= i < config.triggers.len() && 0 <= k < config.triggers[i].1.len() ==> means_something(
            config,
            #[trigger] config.triggers[i].1[k],
        ) {
        assert forall|i: int| 0 <= i < config.triggers.len() implies valid_selectors(
            config,
            (#[trigger] config.triggers[i]).1,
        ) by {
            let list = config.triggers[i].1;
            assert forall|k: int| 0 <= k < list.len() implies selected_target(
                config,
                #[trigger] list[k],
            ) is Ok by {
                let selector = config.triggers[i].1[k];
                assert(means_something(config, selector));
                let target = choose|target: TargetModel| #[trigger]
                    stands_for(config, selector, target);
                lemma_selector(config, selector, target);
            }
        }
    }
}

/// Validation accepts exactly the definitions that can be run.
pub proof fn proper_definitions_are_accepted(
    config: &PipelineConfig,
    result: Result<(), DefinitionError>,
)
    requires
        names_are_distinct(config@),
        call_ensures(PipelineConfig::validate, (config,), result),
    ensures
        result is Ok <==> proper_definition(config@),
{
    lemma_proper(config@);
}

/// A definition that is read is accepted as it is, if it can be run.
pub proof fn definitions_are_accepted_as_they_are(
    config: PipelineConfig,
    result: Result<PipelineConfig, DefinitionError>,
)
    requires
        names_are_distinct(config@),
        call_ensures(PipelineConfig::from_yaml, (Ok(config),), result),
    ensures
        result is Ok <==> proper_definition(config@),
        result matches Ok(accepted) ==> accepted == config,
{
    lemma_proper(config@);
    validation_is_exact(config@);
}

/// A selector is taken for what it names.
pub proof fn selectors_are_taken_for_what_they_name(
    config: &PipelineConfig,
    selector: &str,
    result: Result<SelectedTarget, String>,
    target: TargetModel,
)
    requires
        names_are_distinct(config@),
        proper_definition(config@),
        call_ensures(PipelineConfig::parse_selector, (config, selector), result),
    ensures
        result matches Ok(chosen) ==> stands_for(config@, selector@, chosen@),
        stands_for(config@, selector@, target) ==> (result matches Ok(chosen) && chosen@ == target),
{
    lemma_selector(config@, selector@, target);
    if let Ok(chosen) = result {
        lemma_selector(config@, selector@, chosen@);
    }
}

} // verus!
