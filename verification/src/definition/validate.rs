//! Validation of a YAML definition.

use crate::definition::check::{
    config_problem, cycle_problem, duplicate_problem, duplicate_problems, hook_problem,
    hook_problems, identifier, identifier_problem, job_cycle_problems, job_graph, job_label,
    job_need_problem, job_need_problems, job_problem, job_problems, just_path, letter, named,
    numeral, pipeline_graph, pipeline_label, pipeline_need_problem, pipeline_need_problems,
    pipeline_problem, pipeline_problems, selected_target, selector_problem, selector_problems,
    trigger_problems, valid_config,
};
use crate::definition::cycle::{edges, find_cycle, ints, is_cycle, is_graph};
use crate::definition::error::{first_problem, lemma_problem_stays, reports, DefinitionError};
use crate::definition::model::{
    has_key, job_at, job_count, job_entries, job_index, keys, lemma_only_key, lemma_position,
    pipeline_at, pipeline_count, pipeline_entries, pipeline_index, position, trigger_at,
    trigger_count, trigger_entries, JobSpec, PipelineConfig, PipelineSpec,
};
use crate::definition::selection::{JobSelector, SelectedTarget};
use crate::hooks::is_supported_hook;
use crate::native::HostPath;
use crate::text::{
    chars_of, concat2, concat3, concat4, concat5, decimal_text, join, path_parts, split_path, views,
};
use vstd::prelude::*;
use vstd::utf8::encode_utf8;

verus! {

/// The error for an unacceptable definition.
pub fn invalid(reason: String) -> (error: DefinitionError)
    ensures
        error == DefinitionError::Invalid(reason),
{
    DefinitionError::Invalid(reason)
}

fn is_letter(c: char) -> (yes: bool)
    ensures
        yes == letter(c),
{
    let code = c as u32;
    (65 <= code && code <= 90) || (97 <= code && code <= 122)
}

fn is_numeral(c: char) -> (yes: bool)
    ensures
        yes == numeral(c),
{
    let code = c as u32;
    48 <= code && code <= 57
}

/// Whether a name matches `[A-Za-z_][A-Za-z0-9_-]*`.
pub fn is_identifier(name: &str) -> (yes: bool)
    ensures
        yes == identifier(name@),
{
    let chars = chars_of(name);
    if chars.len() == 0 || !(is_letter(chars[0]) || chars[0] == '_') {
        return false;
    }
    let mut i: usize = 1;
    while i < chars.len()
        invariant
            1 <= i <= chars.len(),
            chars@ == name@,
            letter(chars@[0]) || chars@[0] == '_',
            forall|k: int|
                1 <= k < i ==> letter(#[trigger] chars@[k]) || numeral(chars@[k]) || chars@[k]
                    == '_' || chars@[k] == '-',
        decreases chars.len() - i,
    {
        if !(is_letter(chars[i]) || is_numeral(chars[i]) || chars[i] == '_' || chars[i] == '-') {
            return false;
        }
        i += 1;
    }
    true
}

/// Checks a name of the given kind.
pub fn validate_identifier(name: &str, kind: &str) -> (result: Result<(), DefinitionError>)
    ensures
        reports(result, identifier_problem(name@, kind@)),
        result is Ok <==> identifier(name@),
{
    if name.is_empty() {
        return Err(invalid(concat2(kind, " name cannot be empty")));
    }
    if !is_identifier(name) {
        return Err(
            invalid(
                concat5(
                    "invalid ",
                    kind,
                    " name `",
                    name,
                    "`; expected [A-Za-z_][A-Za-z0-9_-]*",
                ),
            ),
        );
    }
    Ok(())
}

/// Checks a recipe path.
pub fn validate_just_path(value: &str) -> (result: Result<(), DefinitionError>)
    ensures
        result is Ok <==> just_path(value@),
        reports(
            result,
            if just_path(value@) {
                None
            } else {
                Some("invalid Just target path"@)
            },
        ),
{
    let parts = split_path(value);
    let ghost all = path_parts(value@);
    let mut i: usize = 0;
    while i < parts.len()
        invariant
            i <= parts.len(),
            all == views(parts@),
            all == path_parts(value@),
            forall|k: int| 0 <= k < i ==> identifier(#[trigger] all[k]),
        decreases parts.len() - i,
    {
        proof {
            assert(all[i as int] == parts@[i as int]@);
        }
        if validate_identifier(parts[i].as_str(), "Just target").is_err() {
            return Err(invalid("invalid Just target path".to_owned()));
        }
        i += 1;
    }
    Ok(())
}

/// Checks a hook name.
pub fn validate_hook(hook: &str) -> (result: Result<(), DefinitionError>)
    ensures
        reports(result, hook_problem(hook@)),
{
    if is_supported_hook(hook) {
        Ok(())
    } else {
        Err(invalid(concat3("unknown Git hook `", hook, "`")))
    }
}

fn validate_hook_list(hooks: &Vec<String>) -> (result: Result<(), DefinitionError>)
    ensures
        reports(result, first_problem(hooks.len() as int, hook_problems(views(hooks@)))),
{
    let ghost f = hook_problems(views(hooks@));
    let mut i: usize = 0;
    while i < hooks.len()
        invariant
            i <= hooks.len(),
            f == hook_problems(views(hooks@)),
            first_problem(i as int, f) is None,
        decreases hooks.len() - i,
    {
        let checked = validate_hook(hooks[i].as_str());
        proof {
            assert(f(i as int) == hook_problem(hooks@[i as int]@));
            if f(i as int) is Some {
                lemma_problem_stays(i as int + 1, hooks.len() as int, f);
            }
        }
        if checked.is_err() {
            return checked;
        }
        i += 1;
    }
    Ok(())
}

fn occurs_before(values: &Vec<String>, index: usize) -> (found: bool)
    requires
        index < values.len(),
    ensures
        found == views(values@).take(index as int).contains(views(values@)[index as int]),
{
    let ghost all = views(values@);
    let ghost front = all.take(index as int);
    let mut k: usize = 0;
    while k < index
        invariant
            k <= index < values.len(),
            all == views(values@),
            front == all.take(index as int),
            forall|j: int| 0 <= j < k ==> front[j] != all[index as int],
        decreases index - k,
    {
        if *values[k].as_str() == *values[index].as_str() {
            proof {
                assert(front[k as int] == all[index as int]);
            }
            return true;
        }
        proof {
            assert(front[k as int] == values@[k as int]@);
            assert(all[index as int] == values@[index as int]@);
        }
        k += 1;
    }
    false
}

/// Checks that no value occurs twice.
pub fn reject_duplicates(values: &Vec<String>, description: &str) -> (result: Result<
    (),
    DefinitionError,
>)
    ensures
        reports(
            result,
            first_problem(values.len() as int, duplicate_problems(views(values@), description@)),
        ),
{
    let ghost all = views(values@);
    let ghost f = duplicate_problems(all, description@);
    let mut i: usize = 0;
    while i < values.len()
        invariant
            i <= values.len(),
            all == views(values@),
            f == duplicate_problems(all, description@),
            first_problem(i as int, f) is None,
        decreases values.len() - i,
    {
        proof {
            assert(f(i as int) == duplicate_problem(all, description@, i as int));
            assert(all[i as int] == values@[i as int]@);
        }
        if occurs_before(values, i) {
            proof {
                lemma_problem_stays(i as int + 1, values.len() as int, f);
            }
            return Err(
                invalid(concat4("duplicate `", values[i].as_str(), "` in ", description)),
            );
        }
        i += 1;
    }
    Ok(())
}

/// Looks for a dependency cycle among named nodes.
pub fn detect_cycle(names: &Vec<String>, graph: &Vec<Vec<usize>>, kind: &str) -> (result: Result<
    (),
    DefinitionError,
>)
    requires
        is_graph(edges(graph@)),
        names.len() == graph.len(),
    ensures
        reports(result, cycle_problem(views(names@), edges(graph@), kind@)),
        result is Ok <==> crate::definition::cycle::acyclic(edges(graph@)),
{
    match find_cycle(graph) {
        None => Ok(()),
        Some(path) => {
            let ghost nodes = ints(path@);
            let ghost labels = views(names@);
            let mut list: Vec<String> = Vec::new();
            let mut i: usize = 0;
            while i < path.len()
                invariant
                    i <= path.len(),
                    nodes == ints(path@),
                    labels == views(names@),
                    is_cycle(edges(graph@), nodes),
                    names.len() == graph.len(),
                    views(list@) == named(labels, nodes).take(i as int),
                decreases path.len() - i,
            {
                proof {
                    assert(0 <= nodes[i as int] < graph.len());
                }
                let label = names[path[i]].clone();
                proof {
                    assert(views(list@.push(label)) =~= views(list@).push(label@));
                    assert(named(labels, nodes).take(i as int + 1) =~= named(labels, nodes).take(
                        i as int,
                    ).push(label@));
                }
                list.push(label);
                i += 1;
            }
            proof {
                assert(named(labels, nodes).take(i as int) =~= named(labels, nodes));
            }
            let chain = join(&list, " -> ");
            Err(invalid(concat3(kind, " dependency cycle: ", chain.as_str())))
        },
    }
}

fn job_label_text(pipeline: &str, job: &str) -> (label: String)
    ensures
        label@ == job_label(pipeline@, job@),
{
    concat5("job `", pipeline, "::", job, "`")
}

fn pipeline_label_text(pipeline: &str) -> (label: String)
    ensures
        label@ == pipeline_label(pipeline@),
{
    concat3("pipeline `", pipeline, "`")
}

impl PipelineSpec {
    proof fn lemma_jobs(&self, i: int)
        requires
            0 <= i < job_entries(self.jobs).len(),
        ensures
            self@.jobs.len() == job_entries(self.jobs).len(),
            self@.jobs[i] == (job_entries(self.jobs)[i].0, job_entries(self.jobs)[i].1@),
            keys(self@.jobs) == keys(job_entries(self.jobs)),
    {
        assert(keys(self@.jobs) =~= keys(job_entries(self.jobs)));
    }

    /// The position of a job by name.
    pub fn job_position(&self, name: &str) -> (index: Option<usize>)
        ensures
            index matches Some(i) ==> {
                &&& i == position(self@.jobs, name@)
                &&& i < self@.jobs.len()
            },
            index is Some <==> has_key(self@.jobs, name@),
    {
        let index = job_index(&self.jobs, name);
        proof {
            assert(keys(self@.jobs) =~= keys(job_entries(self.jobs)));
            if let Some(i) = index {
                lemma_only_key(job_entries(self.jobs), name@, i as int);
            }
        }
        index
    }

    fn validate_job_needs(&self, pipeline_name: &str, name: &str, needs: &Vec<String>) -> (result:
        Result<(), DefinitionError>)
        ensures
            reports(
                result,
                first_problem(
                    needs.len() as int,
                    job_need_problems(pipeline_name@, self@, name@, views(needs@)),
                ),
            ),
    {
        let ghost f = job_need_problems(pipeline_name@, self@, name@, views(needs@));
        let mut i: usize = 0;
        while i < needs.len()
            invariant
                i <= needs.len(),
                f == job_need_problems(pipeline_name@, self@, name@, views(needs@)),
                first_problem(i as int, f) is None,
            decreases needs.len() - i,
        {
            let needed = needs[i].as_str();
            proof {
                assert(f(i as int) == job_need_problem(pipeline_name@, self@, name@, needed@));
                if f(i as int) is Some {
                    lemma_problem_stays(i as int + 1, needs.len() as int, f);
                }
            }
            if *needed == *name {
                return Err(
                    invalid(
                        concat2(
                            job_label_text(pipeline_name, name).as_str(),
                            " depends on itself",
                        ),
                    ),
                );
            }
            if self.job_position(needed).is_none() {
                return Err(
                    invalid(
                        concat4(
                            job_label_text(pipeline_name, name).as_str(),
                            " needs missing sibling job `",
                            needed,
                            "`",
                        ),
                    ),
                );
            }
            i += 1;
        }
        Ok(())
    }

    fn validate_job(&self, pipeline_name: &str, name: &str, job: &JobSpec) -> (result: Result<
        (),
        DefinitionError,
    >)
        ensures
            reports(result, job_problem(pipeline_name@, self@, name@, job@)),
    {
        let checked = validate_identifier(name, "job");
        if checked.is_err() {
            return checked;
        }
        let label = job_label_text(pipeline_name, name);
        if validate_just_path(job.just.as_str()).is_err() {
            return Err(
                invalid(
                    concat4(label.as_str(), " has invalid Just target `", job.just.as_str(), "`"),
                ),
            );
        }
        let checked = reject_duplicates(
            &job.needs,
            concat2(label.as_str(), " dependencies").as_str(),
        );
        if checked.is_err() {
            return checked;
        }
        let checked = reject_duplicates(
            &job.triggers,
            concat2(label.as_str(), " triggers").as_str(),
        );
        if checked.is_err() {
            return checked;
        }
        let checked = validate_hook_list(&job.triggers);
        if checked.is_err() {
            return checked;
        }
        self.validate_job_needs(pipeline_name, name, &job.needs)
    }

    fn validate_jobs(&self, pipeline_name: &str) -> (result: Result<(), DefinitionError>)
        ensures
            reports(
                result,
                first_problem(self@.jobs.len() as int, job_problems(pipeline_name@, self@)),
            ),
    {
        let ghost f = job_problems(pipeline_name@, self@);
        let count = job_count(&self.jobs);
        let mut i: usize = 0;
        while i < count
            invariant
                i <= count,
                count == self@.jobs.len(),
                count == job_entries(self.jobs).len(),
                f == job_problems(pipeline_name@, self@),
                first_problem(i as int, f) is None,
            decreases count - i,
        {
            if let Some((name, job)) = job_at(&self.jobs, i) {
                let checked = self.validate_job(pipeline_name, name.as_str(), job);
                proof {
                    self.lemma_jobs(i as int);
                    assert(f(i as int) == job_problem(pipeline_name@, self@, name@, job@));
                    if f(i as int) is Some {
                        lemma_problem_stays(i as int + 1, count as int, f);
                    }
                }
                if checked.is_err() {
                    return checked;
                }
            }
            i += 1;
        }
        Ok(())
    }

    /// The names of the jobs and the positions of those that each waits for.
    fn job_dependencies(&self) -> (result: (Vec<String>, Vec<Vec<usize>>))
        requires
            is_graph(job_graph(self@)),
        ensures
            views(result.0@) == keys(self@.jobs),
            edges(result.1@) == job_graph(self@),
    {
        let ghost graph_spec = job_graph(self@);
        let ghost names_spec = keys(self@.jobs);
        let count = job_count(&self.jobs);
        let mut names: Vec<String> = Vec::new();
        let mut graph: Vec<Vec<usize>> = Vec::new();
        let mut i: usize = 0;
        while i < count
            invariant
                i <= count,
                count == job_entries(self.jobs).len(),
                count == self@.jobs.len(),
                graph_spec == job_graph(self@),
                names_spec == keys(self@.jobs),
                is_graph(graph_spec),
                views(names@) == names_spec.take(i as int),
                edges(graph@) == graph_spec.take(i as int),
            decreases count - i,
        {
            if let Some((name, job)) = job_at(&self.jobs, i) {
                proof {
                    self.lemma_jobs(i as int);
                }
                let row = self.positions_of(&job.needs, Ghost(graph_spec[i as int]));
                let label = name.clone();
                proof {
                    assert(views(names@.push(label)) =~= views(names@).push(label@));
                    assert(names_spec.take(i as int + 1) =~= names_spec.take(i as int).push(label@));
                    assert(edges(graph@.push(row)) =~= edges(graph@).push(ints(row@)));
                    assert(graph_spec.take(i as int + 1) =~= graph_spec.take(i as int).push(
                        ints(row@),
                    ));
                }
                names.push(label);
                graph.push(row);
            }
            i += 1;
        }
        proof {
            assert(names_spec.take(i as int) =~= names_spec);
            assert(graph_spec.take(i as int) =~= graph_spec);
        }
        (names, graph)
    }

    fn positions_of(&self, needs: &Vec<String>, Ghost(row_spec): Ghost<Seq<int>>) -> (row: Vec<
        usize,
    >)
        requires
            row_spec.len() == needs.len(),
            forall|k: int|
                0 <= k < needs.len() ==> #[trigger] row_spec[k] == position(
                    self@.jobs,
                    needs@[k]@,
                ) && row_spec[k] < self@.jobs.len(),
        ensures
            ints(row@) == row_spec,
    {
        let mut row: Vec<usize> = Vec::new();
        let mut k: usize = 0;
        while k < needs.len()
            invariant
                k <= needs.len(),
                row_spec.len() == needs.len(),
                forall|j: int|
                    0 <= j < needs.len() ==> #[trigger] row_spec[j] == position(
                        self@.jobs,
                        needs@[j]@,
                    ) && row_spec[j] < self@.jobs.len(),
                ints(row@) == row_spec.take(k as int),
            decreases needs.len() - k,
        {
            proof {
                lemma_position(self@.jobs, needs@[k as int]@);
                assert(row_spec[k as int] < self@.jobs.len());
            }
            if let Some(index) = self.job_position(needs[k].as_str()) {
                proof {
                    assert(ints(row@.push(index)) =~= ints(row@).push(index as int));
                    assert(row_spec.take(k as int + 1) =~= row_spec.take(k as int).push(
                        index as int,
                    ));
                }
                row.push(index);
            }
            k += 1;
        }
        proof {
            assert(row_spec.take(k as int) =~= row_spec);
        }
        row
    }
}

impl PipelineConfig {
    proof fn lemma_pipelines(&self, i: int)
        requires
            0 <= i < pipeline_entries(self.pipelines).len(),
        ensures
            self@.pipelines.len() == pipeline_entries(self.pipelines).len(),
            self@.pipelines[i] == (
                pipeline_entries(self.pipelines)[i].0,
                pipeline_entries(self.pipelines)[i].1@,
            ),
            keys(self@.pipelines) == keys(pipeline_entries(self.pipelines)),
    {
        assert(keys(self@.pipelines) =~= keys(pipeline_entries(self.pipelines)));
    }

    /// The number of pipelines.
    pub fn pipeline_total(&self) -> (count: usize)
        ensures
            count == self@.pipelines.len(),
            count == pipeline_entries(self.pipelines).len(),
    {
        pipeline_count(&self.pipelines)
    }

    /// The name and the content of a pipeline by position.
    pub fn pipeline_by_position(&self, index: usize) -> (entry: (&String, &PipelineSpec))
        requires
            index < self@.pipelines.len(),
        ensures
            self@.pipelines[index as int] == (entry.0@, entry.1@),
            position(self@.pipelines, entry.0@) == index,
    {
        match pipeline_at(&self.pipelines, index) {
            Some(entry) => {
                proof {
                    self.lemma_pipelines(index as int);
                    lemma_only_key(pipeline_entries(self.pipelines), entry.0@, index as int);
                }
                entry
            },
            None => {
                proof {
                    assert(false);
                }
                vstd::pervasive::unreached()
            },
        }
    }

    /// The position of a pipeline by name.
    pub fn pipeline_position(&self, name: &str) -> (index: Option<usize>)
        ensures
            index matches Some(i) ==> {
                &&& i == position(self@.pipelines, name@)
                &&& i < self@.pipelines.len()
            },
            index is Some <==> has_key(self@.pipelines, name@),
    {
        let index = pipeline_index(&self.pipelines, name);
        proof {
            assert(keys(self@.pipelines) =~= keys(pipeline_entries(self.pipelines)));
            if let Some(i) = index {
                lemma_only_key(pipeline_entries(self.pipelines), name@, i as int);
            }
        }
        index
    }

    fn validate_pipeline_needs(&self, name: &str, needs: &Vec<String>) -> (result: Result<
        (),
        DefinitionError,
    >)
        ensures
            reports(
                result,
                first_problem(
                    needs.len() as int,
                    pipeline_need_problems(self@, name@, views(needs@)),
                ),
            ),
    {
        let ghost f = pipeline_need_problems(self@, name@, views(needs@));
        let mut i: usize = 0;
        while i < needs.len()
            invariant
                i <= needs.len(),
                f == pipeline_need_problems(self@, name@, views(needs@)),
                first_problem(i as int, f) is None,
            decreases needs.len() - i,
        {
            let needed = needs[i].as_str();
            proof {
                assert(f(i as int) == pipeline_need_problem(self@, name@, needed@));
                if f(i as int) is Some {
                    lemma_problem_stays(i as int + 1, needs.len() as int, f);
                }
            }
            if *needed == *name {
                return Err(
                    invalid(concat2(pipeline_label_text(name).as_str(), " depends on itself")),
                );
            }
            if self.pipeline_position(needed).is_none() {
                return Err(
                    invalid(
                        concat4(
                            pipeline_label_text(name).as_str(),
                            " needs missing pipeline `",
                            needed,
                            "`",
                        ),
                    ),
                );
            }
            i += 1;
        }
        Ok(())
    }

    fn validate_pipeline(&self, name: &str, pipeline: &PipelineSpec) -> (result: Result<
        (),
        DefinitionError,
    >)
        ensures
            reports(result, pipeline_problem(self@, name@, pipeline@)),
    {
        let checked = validate_identifier(name, "pipeline");
        if checked.is_err() {
            return checked;
        }
        let label = pipeline_label_text(name);
        if job_count(&pipeline.jobs) == 0 && pipeline.needs.len() == 0 {
            return Err(
                invalid(
                    concat2(label.as_str(), " must contain at least one job or dependency"),
                ),
            );
        }
        let checked = reject_duplicates(
            &pipeline.needs,
            concat2(label.as_str(), " dependencies").as_str(),
        );
        if checked.is_err() {
            return checked;
        }
        let checked = reject_duplicates(
            &pipeline.triggers,
            concat2(label.as_str(), " triggers").as_str(),
        );
        if checked.is_err() {
            return checked;
        }
        let checked = validate_hook_list(&pipeline.triggers);
        if checked.is_err() {
            return checked;
        }
        let checked = self.validate_pipeline_needs(name, &pipeline.needs);
        if checked.is_err() {
            return checked;
        }
        pipeline.validate_jobs(name)
    }

    fn validate_pipelines(&self) -> (result: Result<(), DefinitionError>)
        ensures
            reports(
                result,
                first_problem(self@.pipelines.len() as int, pipeline_problems(self@)),
            ),
    {
        let ghost f = pipeline_problems(self@);
        let count = self.pipeline_total();
        let mut i: usize = 0;
        while i < count
            invariant
                i <= count,
                count == self@.pipelines.len(),
                f == pipeline_problems(self@),
                first_problem(i as int, f) is None,
            decreases count - i,
        {
            let (name, pipeline) = self.pipeline_by_position(i);
            let checked = self.validate_pipeline(name.as_str(), pipeline);
            proof {
                assert(f(i as int) == pipeline_problem(self@, name@, pipeline@));
                if f(i as int) is Some {
                    lemma_problem_stays(i as int + 1, count as int, f);
                }
            }
            if checked.is_err() {
                return checked;
            }
            i += 1;
        }
        Ok(())
    }

    fn positions_of(&self, needs: &Vec<String>, Ghost(row_spec): Ghost<Seq<int>>) -> (row: Vec<
        usize,
    >)
        requires
            row_spec.len() == needs.len(),
            forall|k: int|
                0 <= k < needs.len() ==> #[trigger] row_spec[k] == position(
                    self@.pipelines,
                    needs@[k]@,
                ) && row_spec[k] < self@.pipelines.len(),
        ensures
            ints(row@) == row_spec,
    {
        let mut row: Vec<usize> = Vec::new();
        let mut k: usize = 0;
        while k < needs.len()
            invariant
                k <= needs.len(),
                row_spec.len() == needs.len(),
                forall|j: int|
                    0 <= j < needs.len() ==> #[trigger] row_spec[j] == position(
                        self@.pipelines,
                        needs@[j]@,
                    ) && row_spec[j] < self@.pipelines.len(),
                ints(row@) == row_spec.take(k as int),
            decreases needs.len() - k,
        {
            proof {
                lemma_position(self@.pipelines, needs@[k as int]@);
                assert(row_spec[k as int] < self@.pipelines.len());
            }
            if let Some(index) = self.pipeline_position(needs[k].as_str()) {
                proof {
                    assert(ints(row@.push(index)) =~= ints(row@).push(index as int));
                    assert(row_spec.take(k as int + 1) =~= row_spec.take(k as int).push(
                        index as int,
                    ));
                }
                row.push(index);
            }
            k += 1;
        }
        proof {
            assert(row_spec.take(k as int) =~= row_spec);
        }
        row
    }

    /// The names of the pipelines and the positions of those that each waits
    /// for.
    fn pipeline_dependencies(&self) -> (result: (Vec<String>, Vec<Vec<usize>>))
        requires
            is_graph(pipeline_graph(self@)),
        ensures
            views(result.0@) == keys(self@.pipelines),
            edges(result.1@) == pipeline_graph(self@),
    {
        let ghost graph_spec = pipeline_graph(self@);
        let ghost names_spec = keys(self@.pipelines);
        let count = self.pipeline_total();
        let mut names: Vec<String> = Vec::new();
        let mut graph: Vec<Vec<usize>> = Vec::new();
        let mut i: usize = 0;
        while i < count
            invariant
                i <= count,
                count == self@.pipelines.len(),
                graph_spec == pipeline_graph(self@),
                names_spec == keys(self@.pipelines),
                is_graph(graph_spec),
                views(names@) == names_spec.take(i as int),
                edges(graph@) == graph_spec.take(i as int),
            decreases count - i,
        {
            let (name, pipeline) = self.pipeline_by_position(i);
            let row = self.positions_of(&pipeline.needs, Ghost(graph_spec[i as int]));
            let label = name.clone();
            proof {
                assert(views(names@.push(label)) =~= views(names@).push(label@));
                assert(names_spec.take(i as int + 1) =~= names_spec.take(i as int).push(label@));
                assert(edges(graph@.push(row)) =~= edges(graph@).push(ints(row@)));
                assert(graph_spec.take(i as int + 1) =~= graph_spec.take(i as int).push(
                    ints(row@),
                ));
            }
            names.push(label);
            graph.push(row);
            i += 1;
        }
        proof {
            assert(names_spec.take(i as int) =~= names_spec);
            assert(graph_spec.take(i as int) =~= graph_spec);
        }
        (names, graph)
    }

    fn detect_job_cycles(&self) -> (result: Result<(), DefinitionError>)
        requires
            forall|i: int|
                0 <= i < self@.pipelines.len() ==> is_graph(
                    job_graph((#[trigger] self@.pipelines[i]).1),
                ),
        ensures
            reports(
                result,
                first_problem(self@.pipelines.len() as int, job_cycle_problems(self@)),
            ),
    {
        let ghost f = job_cycle_problems(self@);
        let count = self.pipeline_total();
        let mut i: usize = 0;
        while i < count
            invariant
                i <= count,
                count == self@.pipelines.len(),
                f == job_cycle_problems(self@),
                forall|k: int|
                    0 <= k < self@.pipelines.len() ==> is_graph(
                        job_graph((#[trigger] self@.pipelines[k]).1),
                    ),
                first_problem(i as int, f) is None,
            decreases count - i,
        {
            let (name, pipeline) = self.pipeline_by_position(i);
            let (names, graph) = pipeline.job_dependencies();
            proof {
                assert(views(names@).len() == edges(graph@).len());
            }
            let kind = concat2("job in ", pipeline_label_text(name.as_str()).as_str());
            let checked = detect_cycle(&names, &graph, kind.as_str());
            proof {
                assert(f(i as int) == cycle_problem(
                    keys(pipeline@.jobs),
                    job_graph(pipeline@),
                    kind@,
                ));
                if f(i as int) is Some {
                    lemma_problem_stays(i as int + 1, count as int, f);
                }
            }
            if checked.is_err() {
                return checked;
            }
            i += 1;
        }
        Ok(())
    }

    /// What a selector stands for, or why it stands for nothing.
    pub fn parse_selector(&self, selector: &str) -> (result: Result<SelectedTarget, String>)
        ensures
            match selected_target(self@, selector@) {
                Ok(target) => result matches Ok(chosen) && chosen@ == target,
                Err(reason) => result matches Err(text) && text@ == reason,
            },
    {
        let parts = split_path(selector);
        let ghost all = path_parts(selector@);
        proof {
            assert(all.len() == parts.len());
            assert(forall|i: int| 0 <= i < parts.len() ==> all[i] == parts@[i]@);
        }
        if parts.len() == 1 {
            let name = parts[0].as_str();
            if self.pipeline_position(name).is_some() {
                Ok(SelectedTarget::Pipeline(name.to_owned()))
            } else {
                Err(concat3("unknown pipeline `", name, "`"))
            }
        } else if parts.len() == 2 {
            let name = parts[0].as_str();
            let job = parts[1].as_str();
            match self.pipeline_position(name) {
                None => Err(concat3("unknown pipeline `", name, "`")),
                Some(index) => {
                    let (_, pipeline) = self.pipeline_by_position(index);
                    if pipeline.job_position(job).is_none() {
                        Err(concat5("unknown job `", name, "::", job, "`"))
                    } else {
                        Ok(
                            SelectedTarget::Job(
                                JobSelector { pipeline: name.to_owned(), job: job.to_owned() },
                            ),
                        )
                    }
                },
            }
        } else {
            Err("expected `PIPELINE` or `PIPELINE::JOB`".to_owned())
        }
    }

    fn validate_selectors(&self, hook: &str, selectors: &Vec<String>) -> (result: Result<
        (),
        DefinitionError,
    >)
        ensures
            reports(
                result,
                first_problem(
                    selectors.len() as int,
                    selector_problems(self@, hook@, views(selectors@)),
                ),
            ),
    {
        let ghost f = selector_problems(self@, hook@, views(selectors@));
        let mut i: usize = 0;
        while i < selectors.len()
            invariant
                i <= selectors.len(),
                f == selector_problems(self@, hook@, views(selectors@)),
                first_problem(i as int, f) is None,
            decreases selectors.len() - i,
        {
            let selector = selectors[i].as_str();
            proof {
                assert(f(i as int) == selector_problem(self@, hook@, selector@));
                if f(i as int) is Some {
                    lemma_problem_stays(i as int + 1, selectors.len() as int, f);
                }
            }
            match self.parse_selector(selector) {
                Ok(_) => {},
                Err(reason) => {
                    let mut text = concat5(
                        "hook `",
                        hook,
                        "` has invalid selector `",
                        selector,
                        "`: ",
                    );
                    text.push_str(reason.as_str());
                    return Err(invalid(text));
                },
            }
            i += 1;
        }
        Ok(())
    }

    fn validate_trigger_hooks(&self) -> (result: Result<(), DefinitionError>)
        ensures
            reports(
                result,
                first_problem(self@.triggers.len() as int, hook_problems(keys(self@.triggers))),
            ),
    {
        let ghost f = hook_problems(keys(self@.triggers));
        let count = trigger_count(&self.triggers);
        let mut i: usize = 0;
        while i < count
            invariant
                i <= count,
                count == trigger_entries(self.triggers).len(),
                count == self@.triggers.len(),
                f == hook_problems(keys(self@.triggers)),
                first_problem(i as int, f) is None,
            decreases count - i,
        {
            if let Some((hook, _)) = trigger_at(&self.triggers, i) {
                let checked = validate_hook(hook.as_str());
                proof {
                    assert(f(i as int) == hook_problem(hook@));
                    if f(i as int) is Some {
                        lemma_problem_stays(i as int + 1, count as int, f);
                    }
                }
                if checked.is_err() {
                    return checked;
                }
            }
            i += 1;
        }
        Ok(())
    }

    fn validate_triggers(&self) -> (result: Result<(), DefinitionError>)
        ensures
            reports(result, first_problem(self@.triggers.len() as int, trigger_problems(self@))),
    {
        let ghost f = trigger_problems(self@);
        let count = trigger_count(&self.triggers);
        let mut i: usize = 0;
        while i < count
            invariant
                i <= count,
                count == trigger_entries(self.triggers).len(),
                count == self@.triggers.len(),
                f == trigger_problems(self@),
                first_problem(i as int, f) is None,
            decreases count - i,
        {
            if let Some((hook, selectors)) = trigger_at(&self.triggers, i) {
                let checked = self.validate_selectors(hook.as_str(), selectors);
                proof {
                    assert(self@.triggers[i as int] == (hook@, views(selectors@)));
                    assert(f(i as int) == first_problem(
                        selectors.len() as int,
                        selector_problems(self@, hook@, views(selectors@)),
                    ));
                    if f(i as int) is Some {
                        lemma_problem_stays(i as int + 1, count as int, f);
                    }
                }
                if checked.is_err() {
                    return checked;
                }
            }
            i += 1;
        }
        Ok(())
    }

    /// Checks the whole definition and reports the first problem.
    pub fn validate(&self) -> (result: Result<(), DefinitionError>)
        ensures
            result is Ok <==> valid_config(self@),
            reports(result, config_problem(self@)),
    {
        proof {
            crate::definition::check::validation_is_exact(self@);
        }
        if self.version != 1 {
            return Err(
                invalid(
                    concat3(
                        "unsupported version ",
                        decimal_text(self.version as u64).as_str(),
                        "; only version 1 is supported",
                    ),
                ),
            );
        }
        if self.pipeline_total() == 0 {
            return Err(invalid("`pipelines` must contain at least one pipeline".to_owned()));
        }
        let checked = self.validate_trigger_hooks();
        if checked.is_err() {
            return checked;
        }
        let checked = self.validate_pipelines();
        if checked.is_err() {
            return checked;
        }
        proof {
            crate::definition::check::lemma_sound_graphs(self@);
        }
        let (names, graph) = self.pipeline_dependencies();
        proof {
            assert(views(names@).len() == edges(graph@).len());
        }
        let checked = detect_cycle(&names, &graph, "pipeline");
        if checked.is_err() {
            return checked;
        }
        let checked = self.detect_job_cycles();
        if checked.is_err() {
            return checked;
        }
        self.validate_triggers()
    }

    /// Accepts a definition that is held in memory. A document comes as what
    /// parsing it gave.
    pub fn from_yaml(parsed: Result<PipelineConfig, String>) -> (result: Result<
        PipelineConfig,
        DefinitionError,
    >)
        ensures
            match parsed {
                Err(text) => result matches Err(DefinitionError::Yaml { path, source }) && path@
                    == encode_utf8("<memory>"@) && source@ == text@,
                Ok(config) => match config_problem(config@) {
                    Some(reason) => result matches Err(DefinitionError::Invalid(text)) && text@
                        == reason,
                    None => result == Ok::<PipelineConfig, DefinitionError>(config),
                },
            },
    {
        match parsed {
            Err(source) => Err(
                DefinitionError::Yaml { path: HostPath::from_text("<memory>"), source },
            ),
            Ok(config) => {
                if let Err(error) = config.validate() {
                    return Err(error);
                }
                Ok(config)
            },
        }
    }
}

} // verus!
