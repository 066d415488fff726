//! The Just dependency graph that a YAML definition is compiled to.

use crate::definition::check::{job_graph, pipeline_graph};
use crate::definition::cycle::is_graph;
use crate::definition::error::{lemma_no_problem, DefinitionError};
use crate::definition::limits::{count_view, nested_limit, JobCount, JobLimit};
use crate::definition::model::{
    has_key, job_at, job_count, job_entries, lemma_position, position, ConfigModel, PipelineConfig,
    PipelineModel, PipelineSpec,
};
use crate::definition::selection::{SelectedTarget, Selection, TargetModel};
use crate::definition::targets::{selection_problem, target_problem, target_problems};
use crate::definition::validate::invalid;
use crate::native::{native_quoted, path_view, HostPath};
use crate::text::{chars_of, concat2, concat4, decimal, decimal_text, views};
use vstd::prelude::*;
use vstd::utf8::{decode_utf8, valid_utf8};

verus! {

/// A value inside single quotes: every quote closes the string, is written
/// escaped, and opens it again.
pub open spec fn escaped(value: Seq<char>) -> Seq<char>
    decreases value.len(),
{
    if value.len() == 0 {
        seq![]
    } else if value.last() == '\'' {
        escaped(value.drop_last()) + seq!['\'', '\\', '\'', '\'']
    } else {
        escaped(value.drop_last()).push(value.last())
    }
}

/// A value as one word of a POSIX shell.
pub open spec fn quoted(value: Seq<char>) -> Seq<char> {
    seq!['\''] + escaped(value) + seq!['\'']
}

/// One recipe of the generated Justfile.
pub struct NodeModel {
    pub name: Seq<char>,
    pub needs: Seq<Seq<char>>,
    pub body: Option<Seq<char>>,
}

/// The dependencies of a recipe, each behind a space.
pub open spec fn needs_text(needs: Seq<Seq<char>>) -> Seq<char>
    decreases needs.len(),
{
    if needs.len() == 0 {
        seq![]
    } else {
        needs_text(needs.drop_last()) + seq![' '] + needs.last()
    }
}

/// A recipe as Just reads it. Several dependencies run in parallel.
pub open spec fn node_text(node: NodeModel) -> Seq<char> {
    (if node.needs.len() > 1 {
        "[parallel]\n"@
    } else {
        seq![]
    }) + node.name + seq![':'] + needs_text(node.needs) + seq!['\n'] + (match node.body {
        Some(body) => "    "@ + body + seq!['\n'],
        None => seq![],
    }) + seq!['\n']
}

/// Several recipes, one after the other.
pub open spec fn nodes_text(nodes: Seq<NodeModel>) -> Seq<char>
    decreases nodes.len(),
{
    if nodes.len() == 0 {
        seq![]
    } else {
        nodes_text(nodes.drop_last()) + node_text(nodes.last())
    }
}

/// The recipe that opens a pipeline once its prerequisites are done.
pub open spec fn gate_name(pipeline: int) -> Seq<char> {
    "__pipeline_gate_"@ + decimal(pipeline as nat)
}

/// The recipe that is done once a pipeline is.
pub open spec fn done_name(pipeline: int) -> Seq<char> {
    "__pipeline_done_"@ + decimal(pipeline as nat)
}

/// The recipe of a job.
pub open spec fn job_name(pipeline: int, job: int) -> Seq<char> {
    "__pipeline_job_"@ + decimal(pipeline as nat) + "_"@ + decimal(job as nat)
}

/// The recipe that stands for the whole run.
pub open spec fn entry_name() -> Seq<char> {
    "__pipeline_selected"@
}

/// What the command of a job is made of besides the recipe.
pub struct CommandModel {
    pub executable: Seq<char>,
    pub control: Option<(Seq<char>, Seq<char>)>,
    pub nested: Option<nat>,
    pub no_deps: bool,
}

/// The command line of a job.
pub open spec fn job_command(command: CommandModel, recipe: Seq<char>) -> Seq<char> {
    "@"@ + quoted(command.executable) + (match command.control {
        Some((justfile, directory)) => " --justfile "@ + quoted(justfile)
            + " --working-directory "@ + quoted(directory),
        None => seq![],
    }) + (match command.nested {
        Some(jobs) => " --jobs "@ + decimal(jobs),
        None => seq![],
    }) + (if command.no_deps {
        " --no-deps"@
    } else {
        seq![]
    }) + seq![' '] + quoted(recipe)
}

pub open spec fn gate_node(config: ConfigModel, i: int) -> NodeModel {
    let needs = config.pipelines[i].1.needs;
    NodeModel {
        name: gate_name(i),
        needs: Seq::new(
            needs.len(),
            |k: int| done_name(position(config.pipelines, needs[k])),
        ),
        body: None,
    }
}

/// What the recipe of a job waits for: the recipe that opens its pipeline, and the
/// siblings that it needs.
pub open spec fn job_node_needs(pipeline: PipelineModel, i: int, j: int) -> Seq<Seq<char>> {
    let needs = pipeline.jobs[j].1.needs;
    seq![gate_name(i)] + Seq::new(
        needs.len(),
        |k: int| job_name(i, position(pipeline.jobs, needs[k])),
    )
}

pub open spec fn job_node(
    config: ConfigModel,
    command: CommandModel,
    i: int,
    j: int,
) -> NodeModel {
    let pipeline = config.pipelines[i].1;
    NodeModel {
        name: job_name(i, j),
        needs: job_node_needs(pipeline, i, j),
        body: Some(job_command(command, pipeline.jobs[j].1.just)),
    }
}

pub open spec fn done_node(config: ConfigModel, i: int) -> NodeModel {
    let jobs = config.pipelines[i].1.jobs;
    NodeModel {
        name: done_name(i),
        needs: if jobs.len() == 0 {
            seq![gate_name(i)]
        } else {
            Seq::new(jobs.len(), |j: int| job_name(i, j))
        },
        body: None,
    }
}

/// The recipes of all jobs of a pipeline.
pub open spec fn job_nodes(config: ConfigModel, command: CommandModel, i: int) -> Seq<NodeModel> {
    Seq::new(config.pipelines[i].1.jobs.len(), |j: int| job_node(config, command, i, j))
}

/// The recipes of a pipeline: gate, jobs, done.
pub open spec fn nodes_of(config: ConfigModel, command: CommandModel, i: int) -> Seq<NodeModel> {
    seq![gate_node(config, i)] + job_nodes(config, command, i) + seq![done_node(config, i)]
}

/// The recipes of the first `n` pipelines.
pub open spec fn pipeline_nodes(config: ConfigModel, command: CommandModel, n: int) -> Seq<NodeModel>
    decreases n,
{
    if n <= 0 {
        seq![]
    } else {
        pipeline_nodes(config, command, n - 1) + nodes_of(config, command, n - 1)
    }
}

/// The recipe that a target stands for.
pub open spec fn target_node_name(config: ConfigModel, target: TargetModel) -> Seq<char> {
    match target {
        TargetModel::Pipeline(name) => done_name(position(config.pipelines, name)),
        TargetModel::Job(pipeline, job) => {
            let i = position(config.pipelines, pipeline);
            job_name(i, position(config.pipelines[i].1.jobs, job))
        },
    }
}

/// The recipe for the whole run waits for everything selected.
pub open spec fn entry_node(config: ConfigModel, targets: Seq<TargetModel>) -> NodeModel {
    NodeModel {
        name: entry_name(),
        needs: Seq::new(targets.len(), |k: int| target_node_name(config, targets[k])),
        body: None,
    }
}

/// The whole generated graph.
pub open spec fn generated_nodes(
    config: ConfigModel,
    command: CommandModel,
    targets: Seq<TargetModel>,
) -> Seq<NodeModel> {
    pipeline_nodes(config, command, config.pipelines.len() as int).push(
        entry_node(config, targets),
    )
}

/// The generated Justfile.
pub open spec fn generated_text(
    config: ConfigModel,
    command: CommandModel,
    targets: Seq<TargetModel>,
) -> Seq<char> {
    "# Generated by Pipeline. Do not edit.\n\n"@ + nodes_text(
        generated_nodes(config, command, targets),
    )
}

/// A text that would break a line of the generated file.
pub open spec fn breaks_line(text: Seq<char>) -> bool {
    text.contains('\n') || text.contains('\r')
}

/// The definition has a job somewhere.
pub open spec fn has_jobs(config: ConfigModel) -> bool {
    exists|i: int| 0 <= i < config.pipelines.len() && (#[trigger] config.pipelines[i]).1.jobs.len() > 0
}

/// Every dependency of the definition names something in it.
pub open spec fn resolved(config: ConfigModel) -> bool {
    &&& is_graph(pipeline_graph(config))
    &&& forall|i: int|
        0 <= i < config.pipelines.len() ==> is_graph(job_graph((#[trigger] config.pipelines[i]).1))
}

/// Why nothing can be generated.
pub enum RenderProblem {
    Reason(Seq<char>),
    Executable,
}

/// What keeps a Justfile from being generated at all, whatever the definition
/// depends on.
pub open spec fn early_problem(
    config: ConfigModel,
    targets: Seq<TargetModel>,
    executable: Seq<u8>,
) -> Option<RenderProblem> {
    if let Some(reason) = selection_problem(config, targets) {
        Some(RenderProblem::Reason(reason))
    } else if !valid_utf8(executable) {
        Some(RenderProblem::Executable)
    } else if breaks_line(decode_utf8(executable)) {
        Some(RenderProblem::Reason("Just executable path cannot contain a newline"@))
    } else {
        None
    }
}

/// The first obstacle to generating a Justfile.
pub open spec fn render_problem(
    config: ConfigModel,
    targets: Seq<TargetModel>,
    directory: Seq<u8>,
    executable: Seq<u8>,
    justfile: Option<Seq<u8>>,
) -> Option<RenderProblem> {
    if let Some(problem) = early_problem(config, targets, executable) {
        Some(problem)
    } else if let Some(path) = justfile {
        if !has_jobs(config) {
            None
        } else if !valid_utf8(path) {
            Some(
                RenderProblem::Reason("Justfile path is not valid UTF-8: "@ + native_quoted(path)),
            )
        } else if !valid_utf8(directory) {
            Some(
                RenderProblem::Reason(
                    "working directory is not valid UTF-8: "@ + native_quoted(directory),
                ),
            )
        } else if breaks_line(decode_utf8(path)) {
            Some(RenderProblem::Reason("Justfile path cannot contain a newline"@))
        } else if breaks_line(decode_utf8(directory)) {
            Some(RenderProblem::Reason("working directory cannot contain a newline"@))
        } else {
            None
        }
    } else {
        None
    }
}

/// The command settings that the arguments of a render spell out.
pub open spec fn command_settings(
    directory: Seq<u8>,
    executable: Seq<u8>,
    justfile: Option<Seq<u8>>,
    limit: JobLimit,
    no_deps: bool,
) -> CommandModel {
    CommandModel {
        executable: decode_utf8(executable),
        control: match justfile {
            Some(path) => Some((decode_utf8(path), decode_utf8(directory))),
            None => None,
        },
        nested: nested_limit(limit),
        no_deps,
    }
}

/// A generated Justfile and how to run it.
#[derive(Clone, Debug, PartialEq, Eq)]
pub struct RenderedPipeline {
    pub contents: String,
    pub entrypoint: String,
    pub working_directory: HostPath,
}

proof fn lemma_nodes_text_concat(a: Seq<NodeModel>, b: Seq<NodeModel>)
    ensures
        nodes_text(a + b) == nodes_text(a) + nodes_text(b),
    decreases b.len(),
{
    if b.len() == 0 {
        assert(a + b =~= a);
        assert(nodes_text(a) + nodes_text(b) =~= nodes_text(a));
    } else {
        assert((a + b).drop_last() =~= a + b.drop_last());
        lemma_nodes_text_concat(a, b.drop_last());
        assert(nodes_text(a + b) =~= nodes_text(a) + nodes_text(b));
    }
}

proof fn lemma_one_node(node: NodeModel)
    ensures
        nodes_text(seq![node]) == node_text(node),
{
    let list = seq![node];
    assert(list.drop_last() =~= Seq::<NodeModel>::empty());
    assert(nodes_text(list.drop_last()).len() == 0);
    assert(list.last() == node);
    assert(nodes_text(list) =~= node_text(node));
}

proof fn lemma_unused_command(
    config: ConfigModel,
    used: CommandModel,
    other: CommandModel,
    n: int,
)
    requires
        has_jobs(config) ==> used == other,
        0 <= n <= config.pipelines.len(),
    ensures
        pipeline_nodes(config, used, n) == pipeline_nodes(config, other, n),
    decreases n,
{
    if n > 0 {
        lemma_unused_command(config, used, other, n - 1);
        if !has_jobs(config) {
            assert(config.pipelines[n - 1].1.jobs.len() == 0);
            assert(job_nodes(config, used, n - 1) =~= job_nodes(config, other, n - 1));
        }
    }
}

/// A value in single quotes, as one word of a shell command.
pub fn shell_quote(value: &str) -> (text: String)
    ensures
        text@ == quoted(value@),
{
    let chars = chars_of(value);
    let ghost s = chars@;
    let mut text = String::new();
    text.push('\'');
    proof {
        assert(escaped(s.take(0)) =~= seq![]);
        assert(text@ =~= seq!['\''] + escaped(s.take(0)));
    }
    let mut i: usize = 0;
    while i < chars.len()
        invariant
            i <= chars.len(),
            chars@ == s,
            text@ == seq!['\''] + escaped(s.take(i as int)),
        decreases chars.len() - i,
    {
        let ghost sofar = text@;
        proof {
            let next = s.take(i as int + 1);
            assert(next.drop_last() =~= s.take(i as int));
            assert(next.last() == s[i as int]);
        }
        if chars[i] == '\'' {
            text.push('\'');
            text.push('\\');
            text.push('\'');
            text.push('\'');
            proof {
                assert(text@ =~= sofar + seq!['\'', '\\', '\'', '\'']);
                assert(text@ =~= seq!['\''] + escaped(s.take(i as int + 1)));
            }
        } else {
            text.push(chars[i]);
            proof {
                assert(text@ =~= seq!['\''] + escaped(s.take(i as int + 1)));
            }
        }
        i += 1;
    }
    text.push('\'');
    proof {
        assert(s.take(i as int) =~= s);
        assert(text@ =~= quoted(value@));
    }
    text
}

/// The name of the recipe that opens a pipeline.
pub fn pipeline_gate(index: usize) -> (name: String)
    ensures
        name@ == gate_name(index as int),
{
    concat2("__pipeline_gate_", decimal_text(index as u64).as_str())
}

/// The name of the recipe that ends a pipeline.
pub fn pipeline_done(index: usize) -> (name: String)
    ensures
        name@ == done_name(index as int),
{
    concat2("__pipeline_done_", decimal_text(index as u64).as_str())
}

/// The name of the recipe of a job.
pub fn pipeline_job(pipeline: usize, job: usize) -> (name: String)
    ensures
        name@ == job_name(pipeline as int, job as int),
{
    concat4(
        "__pipeline_job_",
        decimal_text(pipeline as u64).as_str(),
        "_",
        decimal_text(job as u64).as_str(),
    )
}

/// Appends a recipe.
pub fn render_node(output: &mut String, name: &str, dependencies: &Vec<String>, body: Option<&str>)
    ensures
        final(output)@ == old(output)@ + node_text(
            NodeModel {
                name: name@,
                needs: views(dependencies@),
                body: match body {
                    Some(text) => Some(text@),
                    None => None,
                },
            },
        ),
{
    let ghost before = output@;
    let ghost needs = views(dependencies@);
    let ghost lead: Seq<char> = if needs.len() > 1 {
        "[parallel]\n"@
    } else {
        seq![]
    };
    if dependencies.len() > 1 {
        output.push_str("[parallel]\n");
    }
    output.push_str(name);
    output.push(':');
    let ghost head = before + (lead + name@ + seq![':']);
    proof {
        assert(output@ =~= head);
        assert(output@ =~= head + needs_text(needs.take(0)));
    }
    let mut i: usize = 0;
    while i < dependencies.len()
        invariant
            i <= dependencies.len(),
            needs == views(dependencies@),
            output@ == head + needs_text(needs.take(i as int)),
        decreases dependencies.len() - i,
    {
        output.push(' ');
        output.push_str(dependencies[i].as_str());
        proof {
            let next = needs.take(i as int + 1);
            assert(next.drop_last() =~= needs.take(i as int));
            assert(next.last() == dependencies@[i as int]@);
            assert(output@ =~= head + needs_text(next));
        }
        i += 1;
    }
    proof {
        assert(needs.take(i as int) =~= needs);
    }
    output.push('\n');
    if let Some(text) = body {
        output.push_str("    ");
        output.push_str(text);
        output.push('\n');
    }
    output.push('\n');
    proof {
        let node = NodeModel {
            name: name@,
            needs,
            body: match body {
                Some(text) => Some(text@),
                None => None,
            },
        };
        assert(output@ =~= before + node_text(node));
    }
}

fn has_line_break(text: &str) -> (found: bool)
    ensures
        found == breaks_line(text@),
{
    let chars = chars_of(text);
    let mut i: usize = 0;
    while i < chars.len()
        invariant
            i <= chars.len(),
            chars@ == text@,
            forall|k: int| 0 <= k < i ==> chars@[k] != '\n' && chars@[k] != '\r',
        decreases chars.len() - i,
    {
        if chars[i] == '\n' || chars[i] == '\r' {
            proof {
                assert(text@.contains(chars@[i as int]));
            }
            return true;
        }
        i += 1;
    }
    false
}

/// Refuses a text that would break a line of the generated file.
pub fn reject_generated_newline(value: &str, description: &str) -> (result: Result<
    (),
    DefinitionError,
>)
    ensures
        breaks_line(value@) ==> (result matches Err(DefinitionError::Invalid(reason)) && reason@
            == description@ + " cannot contain a newline"@),
        !breaks_line(value@) ==> result is Ok,
{
    if has_line_break(value) {
        Err(invalid(concat2(description, " cannot contain a newline")))
    } else {
        Ok(())
    }
}

/// What every job command shares.
pub struct JobCommand {
    pub executable: String,
    pub control: Option<(String, String)>,
    pub nested: Option<JobCount>,
    pub no_deps: bool,
}

impl View for JobCommand {
    type V = CommandModel;

    open spec fn view(&self) -> CommandModel {
        CommandModel {
            executable: self.executable@,
            control: match self.control {
                Some((justfile, directory)) => Some((justfile@, directory@)),
                None => None,
            },
            nested: count_view(self.nested),
            no_deps: self.no_deps,
        }
    }
}

impl JobCommand {
    /// The command line that runs a recipe.
    pub fn line(&self, recipe: &str) -> (line: String)
        ensures
            line@ == job_command(self@, recipe@),
    {
        let mut line = concat2("@", shell_quote(self.executable.as_str()).as_str());
        if let Some((justfile, directory)) = &self.control {
            line.push_str(" --justfile ");
            line.push_str(shell_quote(justfile.as_str()).as_str());
            line.push_str(" --working-directory ");
            line.push_str(shell_quote(directory.as_str()).as_str());
        }
        if let Some(jobs) = self.nested {
            line.push_str(" --jobs ");
            line.push_str(decimal_text(jobs.get() as u64).as_str());
        }
        if self.no_deps {
            line.push_str(" --no-deps");
        }
        line.push(' ');
        line.push_str(shell_quote(recipe).as_str());
        proof {
            assert(line@ =~= job_command(self@, recipe@));
        }
        line
    }
}

impl PipelineSpec {
    fn sibling_nodes(&self, i: usize, j: usize, needs: &Vec<String>) -> (names: Vec<String>)
        requires
            j < self@.jobs.len(),
            views(needs@) == self@.jobs[j as int].1.needs,
            forall|k: int| 0 <= k < needs@.len() ==> has_key(self@.jobs, (#[trigger] needs@[k])@),
        ensures
            views(names@) == job_node_needs(self@, i as int, j as int),
    {
        let mut names: Vec<String> = Vec::new();
        names.push(pipeline_gate(i));
        let ghost wanted = job_node_needs(self@, i as int, j as int);
        let mut k: usize = 0;
        while k < needs.len()
            invariant
                k <= needs.len(),
                j < self@.jobs.len(),
                views(needs@) == self@.jobs[j as int].1.needs,
                forall|k: int|
                    0 <= k < needs@.len() ==> has_key(self@.jobs, (#[trigger] needs@[k])@),
                wanted == job_node_needs(self@, i as int, j as int),
                wanted.len() == needs.len() + 1,
                views(names@) =~= wanted.take(k as int + 1),
                names@.len() == k + 1,
            decreases needs.len() - k,
        {
            let ghost before = names@;
            let found = self.job_position(needs[k].as_str());
            if let Some(position) = found {
                names.push(pipeline_job(i, position));
                proof {
                    assert(views(needs@)[k as int] == needs@[k as int]@);
                    assert(wanted[k as int + 1] == job_name(i as int, position as int));
                    assert(views(names@) =~= views(before).push(names@.last()@));
                    assert(views(names@) =~= wanted.take(k as int + 2));
                }
            } else {
                proof {
                    assert(has_key(self@.jobs, needs@[k as int]@));
                }
            }
            k += 1;
        }
        proof {
            assert(wanted.take(k as int + 1) =~= wanted);
        }
        names
    }

    fn done_nodes(&self, i: usize) -> (names: Vec<String>)
        ensures
            views(names@) == (if self@.jobs.len() == 0 {
                seq![gate_name(i as int)]
            } else {
                Seq::new(self@.jobs.len(), |j: int| job_name(i as int, j))
            }),
    {
        let total = job_count(&self.jobs);
        let mut names: Vec<String> = Vec::new();
        if total == 0 {
            names.push(pipeline_gate(i));
            proof {
                assert(views(names@) =~= seq![gate_name(i as int)]);
            }
            return names;
        }
        let mut j: usize = 0;
        while j < total
            invariant
                j <= total,
                total == self@.jobs.len(),
                views(names@) =~= Seq::new(j as nat, |j: int| job_name(i as int, j)),
            decreases total - j,
        {
            let ghost before = names@;
            names.push(pipeline_job(i, j));
            proof {
                assert(views(names@) =~= views(before).push(names@.last()@));
            }
            j += 1;
        }
        names
    }
}

impl PipelineConfig {
    fn prerequisite_nodes(&self, i: usize, needs: &Vec<String>) -> (names: Vec<String>)
        requires
            i < self@.pipelines.len(),
            views(needs@) == self@.pipelines[i as int].1.needs,
            forall|k: int|
                0 <= k < needs@.len() ==> has_key(self@.pipelines, (#[trigger] needs@[k])@),
        ensures
            views(names@) == gate_node(self@, i as int).needs,
    {
        let mut names: Vec<String> = Vec::new();
        let ghost wanted = gate_node(self@, i as int).needs;
        let mut k: usize = 0;
        while k < needs.len()
            invariant
                k <= needs.len(),
                i < self@.pipelines.len(),
                views(needs@) == self@.pipelines[i as int].1.needs,
                forall|k: int|
                    0 <= k < needs@.len() ==> has_key(self@.pipelines, (#[trigger] needs@[k])@),
                wanted == gate_node(self@, i as int).needs,
                wanted.len() == needs.len(),
                views(names@) =~= wanted.take(k as int),
                names@.len() == k,
            decreases needs.len() - k,
        {
            let ghost before = names@;
            let found = self.pipeline_position(needs[k].as_str());
            if let Some(position) = found {
                names.push(pipeline_done(position));
                proof {
                    assert(views(needs@)[k as int] == needs@[k as int]@);
                    assert(wanted[k as int] == done_name(position as int));
                    assert(views(names@) =~= views(before).push(names@.last()@));
                    assert(views(names@) =~= wanted.take(k as int + 1));
                }
            } else {
                proof {
                    assert(has_key(self@.pipelines, needs@[k as int]@));
                }
            }
            k += 1;
        }
        proof {
            assert(wanted.take(k as int) =~= wanted);
        }
        names
    }

    fn render_jobs(&self, i: usize, command: &JobCommand, output: &mut String)
        requires
            i < self@.pipelines.len(),
            is_graph(job_graph(self@.pipelines[i as int].1)),
        ensures
            final(output)@ == old(output)@ + nodes_text(job_nodes(self@, command@, i as int)),
    {
        let (_, pipeline) = self.pipeline_by_position(i);
        let total = job_count(&pipeline.jobs);
        let ghost start = output@;
        let ghost nodes = job_nodes(self@, command@, i as int);
        proof {
            assert(start + nodes_text(nodes.take(0)) =~= start);
        }
        let mut j: usize = 0;
        while j < total
            invariant
                j <= total,
                i < self@.pipelines.len(),
                pipeline@ == self@.pipelines[i as int].1,
                total == pipeline@.jobs.len(),
                total == job_entries(pipeline.jobs).len(),
                is_graph(job_graph(pipeline@)),
                nodes == job_nodes(self@, command@, i as int),
                output@ == start + nodes_text(nodes.take(j as int)),
            decreases total - j,
        {
            if let Some((_, job)) = job_at(&pipeline.jobs, j) {
                proof {
                    let graph = job_graph(pipeline@);
                    assert(pipeline@.jobs[j as int].1 == job@);
                    assert forall|k: int| 0 <= k < job.needs@.len() implies has_key(
                        pipeline@.jobs,
                        (#[trigger] job.needs@[k])@,
                    ) by {
                        assert(pipeline@.jobs[j as int].1.needs[k] == job.needs@[k]@);
                        assert(graph[j as int][k] < graph.len());
                        lemma_position(pipeline@.jobs, job.needs@[k]@);
                    }
                }
                let name = pipeline_job(i, j);
                let needs = pipeline.sibling_nodes(i, j, &job.needs);
                let line = command.line(job.just.as_str());
                render_node(output, name.as_str(), &needs, Some(line.as_str()));
                proof {
                    let next = nodes.take(j as int + 1);
                    assert(next.drop_last() =~= nodes.take(j as int));
                    assert(next.last() == job_node(self@, command@, i as int, j as int));
                    assert(output@ =~= start + nodes_text(next));
                }
            }
            j += 1;
        }
        proof {
            assert(nodes.take(j as int) =~= nodes);
        }
    }

    fn render_pipeline(&self, i: usize, command: &JobCommand, output: &mut String)
        requires
            i < self@.pipelines.len(),
            resolved(self@),
        ensures
            final(output)@ == old(output)@ + nodes_text(nodes_of(self@, command@, i as int)),
    {
        let ghost start = output@;
        let (_, pipeline) = self.pipeline_by_position(i);
        proof {
            let graph = pipeline_graph(self@);
            assert(is_graph(job_graph(self@.pipelines[i as int].1)));
            assert forall|k: int| 0 <= k < pipeline.needs@.len() implies has_key(
                self@.pipelines,
                (#[trigger] pipeline.needs@[k])@,
            ) by {
                assert(self@.pipelines[i as int].1.needs[k] == pipeline.needs@[k]@);
                assert(graph[i as int][k] < graph.len());
                lemma_position(self@.pipelines, pipeline.needs@[k]@);
            }
        }
        let prerequisites = self.prerequisite_nodes(i, &pipeline.needs);
        render_node(output, pipeline_gate(i).as_str(), &prerequisites, None);
        let ghost with_gate = output@;
        self.render_jobs(i, command, output);
        let ghost with_jobs = output@;
        let members = pipeline.done_nodes(i);
        render_node(output, pipeline_done(i).as_str(), &members, None);
        proof {
            let gate = gate_node(self@, i as int);
            let jobs = job_nodes(self@, command@, i as int);
            let done = done_node(self@, i as int);
            lemma_one_node(gate);
            lemma_one_node(done);
            lemma_nodes_text_concat(seq![gate], jobs);
            lemma_nodes_text_concat(seq![gate] + jobs, seq![done]);
            assert(views(members@) == done.needs);
            assert(with_gate == start + node_text(gate));
            assert(output@ == with_jobs + node_text(done));
            assert(output@ =~= start + nodes_text(nodes_of(self@, command@, i as int)));
        }
    }

    fn target_node(&self, target: &SelectedTarget) -> (name: String)
        requires
            target_problem(self@, target@) is None,
        ensures
            name@ == target_node_name(self@, target@),
    {
        match target {
            SelectedTarget::Pipeline(name) => match self.pipeline_position(name.as_str()) {
                Some(i) => pipeline_done(i),
                None => String::new(),
            },
            SelectedTarget::Job(selector) => match self.pipeline_position(
                selector.pipeline.as_str(),
            ) {
                Some(i) => {
                    let (_, pipeline) = self.pipeline_by_position(i);
                    match pipeline.job_position(selector.job.as_str()) {
                        Some(j) => pipeline_job(i, j),
                        None => String::new(),
                    }
                },
                None => String::new(),
            },
        }
    }

    fn target_nodes(&self, selection: &Selection) -> (names: Vec<String>)
        requires
            selection_problem(self@, selection@) is None,
        ensures
            views(names@) == entry_node(self@, selection@).needs,
    {
        let ghost wanted = entry_node(self@, selection@).needs;
        let ghost f = target_problems(self@, selection@);
        proof {
            lemma_no_problem(selection@.len() as int, f);
        }
        let mut names: Vec<String> = Vec::new();
        let mut k: usize = 0;
        while k < selection.targets.len()
            invariant
                k <= selection.targets.len(),
                wanted == entry_node(self@, selection@).needs,
                f == target_problems(self@, selection@),
                forall|i: int| 0 <= i < selection@.len() ==> #[trigger] f(i) is None,
                views(names@) =~= wanted.take(k as int),
            decreases selection.targets.len() - k,
        {
            let ghost before = names@;
            proof {
                assert(f(k as int) is None);
                assert(selection@[k as int] == selection.targets@[k as int]@);
            }
            names.push(self.target_node(&selection.targets[k]));
            proof {
                assert(views(names@) =~= views(before).push(names@.last()@));
                assert(views(names@) =~= wanted.take(k as int + 1));
            }
            k += 1;
        }
        proof {
            assert(wanted.take(k as int) =~= wanted);
        }
        names
    }

    fn any_job(&self) -> (found: bool)
        ensures
            found == has_jobs(self@),
    {
        let total = self.pipeline_total();
        let mut i: usize = 0;
        while i < total
            invariant
                i <= total,
                total == self@.pipelines.len(),
                forall|k: int| 0 <= k < i ==> (#[trigger] self@.pipelines[k]).1.jobs.len() == 0,
            decreases total - i,
        {
            let (_, pipeline) = self.pipeline_by_position(i);
            if job_count(&pipeline.jobs) > 0 {
                proof {
                    assert(self@.pipelines[i as int].1.jobs.len() > 0);
                }
                return true;
            }
            i += 1;
        }
        false
    }

    fn control_texts(&self, directory: &HostPath, justfile: &HostPath) -> (result: Result<
        (String, String),
        DefinitionError,
    >)
        ensures
            !valid_utf8(justfile@) ==> (result matches Err(DefinitionError::Invalid(reason))
                && reason@ == "Justfile path is not valid UTF-8: "@ + native_quoted(justfile@)),
            valid_utf8(justfile@) && !valid_utf8(directory@) ==> (result matches Err(
                DefinitionError::Invalid(reason),
            ) && reason@ == "working directory is not valid UTF-8: "@ + native_quoted(
                directory@,
            )),
            valid_utf8(justfile@) && valid_utf8(directory@) ==> {
                if breaks_line(decode_utf8(justfile@)) {
                    result matches Err(DefinitionError::Invalid(reason)) && reason@
                        == "Justfile path cannot contain a newline"@
                } else if breaks_line(decode_utf8(directory@)) {
                    result matches Err(DefinitionError::Invalid(reason)) && reason@
                        == "working directory cannot contain a newline"@
                } else {
                    result matches Ok((path, cwd)) && path@ == decode_utf8(justfile@) && cwd@
                        == decode_utf8(directory@)
                }
            },
    {
        let path = match justfile.to_text() {
            Some(path) => path,
            None => {
                return Err(
                    DefinitionError::Invalid(
                        concat2(
                            "Justfile path is not valid UTF-8: ",
                            justfile.quoted().as_str(),
                        ),
                    ),
                );
            },
        };
        let cwd = match directory.to_text() {
            Some(cwd) => cwd,
            None => {
                return Err(
                    DefinitionError::Invalid(
                        concat2(
                            "working directory is not valid UTF-8: ",
                            directory.quoted().as_str(),
                        ),
                    ),
                );
            },
        };
        proof {
            reveal_strlit("Justfile path");
            reveal_strlit("working directory");
            reveal_strlit(" cannot contain a newline");
            reveal_strlit("Justfile path cannot contain a newline");
            reveal_strlit("working directory cannot contain a newline");
            assert("Justfile path"@ + " cannot contain a newline"@
                =~= "Justfile path cannot contain a newline"@);
            assert("working directory"@ + " cannot contain a newline"@
                =~= "working directory cannot contain a newline"@);
        }
        if let Err(error) = reject_generated_newline(path.as_str(), "Justfile path") {
            return Err(error);
        }
        if let Err(error) = reject_generated_newline(cwd.as_str(), "working directory") {
            return Err(error);
        }
        Ok((path, cwd))
    }

    /// Compiles the definition to a Justfile whose entry point runs the
    /// selected targets.
    pub fn render(
        &self,
        selection: &Selection,
        working_directory: &HostPath,
        just_executable: &HostPath,
        control_justfile: Option<&HostPath>,
        job_limit: JobLimit,
        no_deps: bool,
    ) -> (result: Result<RenderedPipeline, DefinitionError>)
        requires
            early_problem(self@, selection@, just_executable@) is None ==> resolved(self@),
        ensures
            match render_problem(
                self@,
                selection@,
                working_directory@,
                just_executable@,
                path_view(control_justfile),
            ) {
                Some(RenderProblem::Reason(reason)) => result matches Err(
                    DefinitionError::Invalid(text),
                ) && text@ == reason,
                Some(RenderProblem::Executable) => result matches Err(
                    DefinitionError::NonUnicodeExecutable(path),
                ) && path@ == just_executable@,
                None => {
                    &&& result matches Ok(rendered)
                    &&& rendered.contents@ == generated_text(
                        self@,
                        command_settings(
                            working_directory@,
                            just_executable@,
                            path_view(control_justfile),
                            job_limit,
                            no_deps,
                        ),
                        selection@,
                    )
                    &&& rendered.entrypoint@ == entry_name()
                    &&& rendered.working_directory@ == working_directory@
                },
            },
    {
        if let Err(error) = self.validate_selection(selection) {
            return Err(error);
        }
        let executable = match just_executable.to_text() {
            Some(text) => text,
            None => {
                return Err(DefinitionError::NonUnicodeExecutable(just_executable.clone()));
            },
        };
        proof {
            reveal_strlit("Just executable path");
            reveal_strlit(" cannot contain a newline");
            reveal_strlit("Just executable path cannot contain a newline");
            assert("Just executable path"@ + " cannot contain a newline"@
                =~= "Just executable path cannot contain a newline"@);
        }
        if let Err(error) = reject_generated_newline(executable.as_str(), "Just executable path") {
            return Err(error);
        }
        let ghost wanted = command_settings(
            working_directory@,
            just_executable@,
            path_view(control_justfile),
            job_limit,
            no_deps,
        );
        let mut control: Option<(String, String)> = None;
        if let Some(path) = control_justfile {
            if self.any_job() {
                match self.control_texts(working_directory, path) {
                    Ok(texts) => {
                        control = Some(texts);
                    },
                    Err(error) => {
                        return Err(error);
                    },
                }
            }
        }
        let command = JobCommand { executable, control, nested: job_limit.nested_jobs(), no_deps };
        proof {
            assert(has_jobs(self@) ==> command@ == wanted);
        }
        let mut output = String::from_str("# Generated by Pipeline. Do not edit.\n\n");
        let ghost head = output@;
        let total = self.pipeline_total();
        proof {
            assert(head + nodes_text(pipeline_nodes(self@, command@, 0)) =~= head);
        }
        let mut i: usize = 0;
        while i < total
            invariant
                i <= total,
                total == self@.pipelines.len(),
                resolved(self@),
                output@ == head + nodes_text(pipeline_nodes(self@, command@, i as int)),
            decreases total - i,
        {
            self.render_pipeline(i, &command, &mut output);
            proof {
                lemma_nodes_text_concat(
                    pipeline_nodes(self@, command@, i as int),
                    nodes_of(self@, command@, i as int),
                );
                assert(output@ =~= head + nodes_text(
                    pipeline_nodes(self@, command@, i as int + 1),
                ));
            }
            i += 1;
        }
        let roots = self.target_nodes(selection);
        render_node(&mut output, "__pipeline_selected", &roots, None);
        proof {
            let nodes = pipeline_nodes(self@, command@, total as int);
            let entry = entry_node(self@, selection@);
            lemma_unused_command(self@, command@, wanted, total as int);
            assert(nodes.push(entry).drop_last() =~= nodes);
            assert(output@ =~= generated_text(self@, wanted, selection@));
        }
        Ok(
            RenderedPipeline {
                contents: output,
                entrypoint: String::from_str("__pipeline_selected"),
                working_directory: working_directory.clone(),
            },
        )
    }
}

} // verus!
