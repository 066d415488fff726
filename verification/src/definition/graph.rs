//! What holds of every generated graph.

use crate::definition::check::{
    job_graph, lemma_job_graph, lemma_pipeline_graph, pipeline_graph, valid_config,
};
use crate::definition::cycle::{
    acyclic, falling_ranks_exclude_cycles, height, heights, is_graph, lemma_heights_fall,
};
use crate::definition::error::lemma_no_problem;
use crate::definition::model::{lemma_position, position, ConfigModel};
use crate::definition::render::{
    done_name, entry_name, escaped, gate_name, generated_nodes, job_command, job_name, needs_text,
    node_text, nodes_of, pipeline_nodes, quoted, resolved, target_node_name, CommandModel,
    NodeModel,
};
use crate::definition::selection::TargetModel;
use crate::definition::targets::{selection_problem, target_problem, target_problems};
use crate::text::{
    decimal, decimal_has_digits, decimal_is_injective, first_position, lemma_first_position,
};
use vstd::prelude::*;

verus! {

/// How far a shell has got in reading a word.
pub enum WordState {
    Plain(Seq<char>),
    Quoted(Seq<char>),
    Escaped(Seq<char>),
    Broken,
}

/// A POSIX shell reads the next character of a word that is made of quoted
/// stretches and escaped characters alone.
pub open spec fn read_char(state: WordState, c: char) -> WordState {
    match state {
        WordState::Plain(word) => if c == '\'' {
            WordState::Quoted(word)
        } else if c == '\\' {
            WordState::Escaped(word)
        } else {
            WordState::Broken
        },
        WordState::Quoted(word) => if c == '\'' {
            WordState::Plain(word)
        } else {
            WordState::Quoted(word.push(c))
        },
        WordState::Escaped(word) => if c == '\n' {
            WordState::Broken
        } else {
            WordState::Plain(word.push(c))
        },
        WordState::Broken => WordState::Broken,
    }
}

/// A POSIX shell reads a text.
pub open spec fn read_word(text: Seq<char>) -> WordState
    decreases text.len(),
{
    if text.len() == 0 {
        WordState::Plain(seq![])
    } else {
        read_char(read_word(text.drop_last()), text.last())
    }
}

proof fn lemma_read_push(text: Seq<char>, c: char)
    ensures
        read_word(text.push(c)) == read_char(read_word(text), c),
{
    assert(text.push(c).drop_last() =~= text);
}

proof fn lemma_read_escaped(value: Seq<char>)
    ensures
        read_word(seq!['\''] + escaped(value)) == WordState::Quoted(value),
    decreases value.len(),
{
    let open = seq!['\''];
    if value.len() == 0 {
        assert(open + escaped(value) =~= Seq::<char>::empty().push('\''));
        lemma_read_push(Seq::<char>::empty(), '\'');
        assert(value =~= seq![]);
    } else {
        let rest = value.drop_last();
        lemma_read_escaped(rest);
        let sofar = open + escaped(rest);
        assert(rest.push(value.last()) =~= value);
        if value.last() == '\'' {
            assert(open + escaped(value) =~= sofar.push('\'').push('\\').push('\'').push('\''));
            lemma_read_push(sofar, '\'');
            lemma_read_push(sofar.push('\''), '\\');
            lemma_read_push(sofar.push('\'').push('\\'), '\'');
            lemma_read_push(sofar.push('\'').push('\\').push('\''), '\'');
        } else {
            assert(open + escaped(value) =~= sofar.push(value.last()));
            lemma_read_push(sofar, value.last());
        }
    }
}

/// A shell reads a quoted value back as that value, whatever it holds.
pub proof fn quoted_value_is_one_word(value: Seq<char>)
    ensures
        read_word(quoted(value)) == WordState::Plain(value),
{
    lemma_read_escaped(value);
    let open = seq!['\''] + escaped(value);
    assert(quoted(value) =~= open.push('\''));
    lemma_read_push(open, '\'');
}

/// What a generated recipe stands for.
pub enum NodeKey {
    Gate(int),
    Job(int, int),
    Done(int),
    Entry,
}

pub open spec fn key_name(key: NodeKey) -> Seq<char> {
    match key {
        NodeKey::Gate(i) => gate_name(i),
        NodeKey::Job(i, j) => job_name(i, j),
        NodeKey::Done(i) => done_name(i),
        NodeKey::Entry => entry_name(),
    }
}

/// The key stands for a part of the definition, or for the whole run.
pub open spec fn key_exists(config: ConfigModel, key: NodeKey) -> bool {
    match key {
        NodeKey::Gate(i) => 0 <= i < config.pipelines.len(),
        NodeKey::Job(i, j) => 0 <= i < config.pipelines.len() && 0 <= j
            < config.pipelines[i].1.jobs.len(),
        NodeKey::Done(i) => 0 <= i < config.pipelines.len(),
        NodeKey::Entry => true,
    }
}

pub open spec fn target_key(config: ConfigModel, target: TargetModel) -> NodeKey {
    match target {
        TargetModel::Pipeline(name) => NodeKey::Done(position(config.pipelines, name)),
        TargetModel::Job(pipeline, job) => {
            let i = position(config.pipelines, pipeline);
            NodeKey::Job(i, position(config.pipelines[i].1.jobs, job))
        },
    }
}

/// What a generated recipe waits for.
pub open spec fn key_needs(
    config: ConfigModel,
    targets: Seq<TargetModel>,
    key: NodeKey,
) -> Seq<NodeKey> {
    match key {
        NodeKey::Gate(i) => {
            let needs = config.pipelines[i].1.needs;
            Seq::new(needs.len(), |k: int| NodeKey::Done(position(config.pipelines, needs[k])))
        },
        NodeKey::Job(i, j) => {
            let pipeline = config.pipelines[i].1;
            let needs = pipeline.jobs[j].1.needs;
            seq![NodeKey::Gate(i)] + Seq::new(
                needs.len(),
                |k: int| NodeKey::Job(i, position(pipeline.jobs, needs[k])),
            )
        },
        NodeKey::Done(i) => {
            let jobs = config.pipelines[i].1.jobs;
            if jobs.len() == 0 {
                seq![NodeKey::Gate(i)]
            } else {
                Seq::new(jobs.len(), |j: int| NodeKey::Job(i, j))
            }
        },
        NodeKey::Entry => Seq::new(targets.len(), |k: int| target_key(config, targets[k])),
    }
}

pub open spec fn key_names(keys: Seq<NodeKey>) -> Seq<Seq<char>> {
    Seq::new(keys.len(), |k: int| key_name(keys[k]))
}

/// The recipe of a key.
pub open spec fn key_node(
    config: ConfigModel,
    command: CommandModel,
    targets: Seq<TargetModel>,
    key: NodeKey,
) -> NodeModel {
    NodeModel {
        name: key_name(key),
        needs: key_names(key_needs(config, targets, key)),
        body: match key {
            NodeKey::Job(i, j) => Some(job_command(command, config.pipelines[i].1.jobs[j].1.just)),
            _ => None,
        },
    }
}

/// The keys of the first `n` pipelines, in the order of their recipes.
pub open spec fn pipeline_keys(config: ConfigModel, n: int) -> Seq<NodeKey>
    decreases n,
{
    if n <= 0 {
        seq![]
    } else {
        pipeline_keys(config, n - 1) + keys_of(config, n - 1)
    }
}

pub open spec fn keys_of(config: ConfigModel, i: int) -> Seq<NodeKey> {
    seq![NodeKey::Gate(i)] + Seq::new(
        config.pipelines[i].1.jobs.len(),
        |j: int| NodeKey::Job(i, j),
    ) + seq![NodeKey::Done(i)]
}

/// The keys of all recipes, in their order.
pub open spec fn generated_keys(config: ConfigModel) -> Seq<NodeKey> {
    pipeline_keys(config, config.pipelines.len() as int).push(NodeKey::Entry)
}

/// The names of all recipes.
pub open spec fn node_names(nodes: Seq<NodeModel>) -> Seq<Seq<char>> {
    Seq::new(nodes.len(), |m: int| nodes[m].name)
}

/// The edges of a graph of recipes, by position.
pub open spec fn node_graph(nodes: Seq<NodeModel>) -> Seq<Seq<int>> {
    Seq::new(
        nodes.len(),
        |m: int|
            Seq::new(
                nodes[m].needs.len(),
                |k: int| first_position(node_names(nodes), nodes[m].needs[k]),
            ),
    )
}

/// The pipeline that a key belongs to.
spec fn pipeline_of(key: NodeKey) -> int {
    match key {
        NodeKey::Gate(i) => i,
        NodeKey::Job(i, _) => i,
        NodeKey::Done(i) => i,
        NodeKey::Entry => -1,
    }
}

proof fn lemma_pipeline_nodes(
    config: ConfigModel,
    command: CommandModel,
    targets: Seq<TargetModel>,
    n: int,
)
    requires
        0 <= n <= config.pipelines.len(),
    ensures
        pipeline_nodes(config, command, n).len() == pipeline_keys(config, n).len(),
        forall|m: int|
            0 <= m < pipeline_keys(config, n).len() ==> #[trigger] pipeline_nodes(
                config,
                command,
                n,
            )[m] == key_node(config, command, targets, pipeline_keys(config, n)[m]),
    decreases n,
{
    if n > 0 {
        lemma_pipeline_nodes(config, command, targets, n - 1);
        let i = n - 1;
        let nodes = nodes_of(config, command, i);
        let keys = keys_of(config, i);
        assert(nodes.len() == keys.len());
        assert forall|t: int| 0 <= t < keys.len() implies #[trigger] nodes[t] == key_node(
            config,
            command,
            targets,
            keys[t],
        ) by {
            assert(nodes[t].needs =~= key_node(config, command, targets, keys[t]).needs);
        }
        let before = pipeline_keys(config, n - 1);
        assert forall|m: int| 0 <= m < pipeline_keys(config, n).len() implies #[trigger] pipeline_nodes(
            config,
            command,
            n,
        )[m] == key_node(config, command, targets, pipeline_keys(config, n)[m]) by {
            if m < before.len() {
                assert(pipeline_nodes(config, command, n)[m] == pipeline_nodes(
                    config,
                    command,
                    n - 1,
                )[m]);
            } else {
                assert(pipeline_nodes(config, command, n)[m] == nodes[m - before.len()]);
            }
        }
    }
}

proof fn lemma_pipeline_keys(config: ConfigModel, n: int)
    requires
        0 <= n <= config.pipelines.len(),
    ensures
        forall|m: int|
            0 <= m < pipeline_keys(config, n).len() ==> {
                let key = #[trigger] pipeline_keys(config, n)[m];
                key_exists(config, key) && key !is Entry && 0 <= pipeline_of(key) < n
            },
        pipeline_keys(config, n).no_duplicates(),
        forall|key: NodeKey|
            key_exists(config, key) && key !is Entry && pipeline_of(key) < n ==> #[trigger] pipeline_keys(config, n).contains(key),
    decreases n,
{
    if n > 0 {
        lemma_pipeline_keys(config, n - 1);
        let i = n - 1;
        let before = pipeline_keys(config, n - 1);
        let keys = keys_of(config, i);
        let all = pipeline_keys(config, n);
        let jobs = config.pipelines[i].1.jobs.len() as int;
        assert forall|t: int| 0 <= t < keys.len() implies {
            let key = #[trigger] keys[t];
            key_exists(config, key) && key !is Entry && pipeline_of(key) == i
        } by {}
        assert(keys.no_duplicates());
        assert forall|m: int| 0 <= m < all.len() implies {
            let key = #[trigger] all[m];
            key_exists(config, key) && key !is Entry && 0 <= pipeline_of(key) < n
        } by {
            if m < before.len() {
                assert(all[m] == before[m]);
            } else {
                assert(all[m] == keys[m - before.len()]);
            }
        }
        assert forall|a: int, b: int| 0 <= a < b < all.len() implies all[a] != all[b] by {
            if b < before.len() {
                assert(all[a] == before[a] && all[b] == before[b]);
            } else if a >= before.len() {
                assert(all[a] == keys[a - before.len()] && all[b] == keys[b - before.len()]);
            } else {
                assert(all[a] == before[a] && all[b] == keys[b - before.len()]);
            }
        }
        assert forall|key: NodeKey| key_exists(config, key) && key !is Entry && pipeline_of(key)
            < n implies #[trigger] all.contains(key) by {
            if pipeline_of(key) < i {
                assert(before.contains(key));
                let m = before.index_of(key);
                assert(all[m] == key);
            } else {
                let t = match key {
                    NodeKey::Gate(_) => 0,
                    NodeKey::Job(_, j) => j + 1,
                    NodeKey::Done(_) => jobs + 1,
                    NodeKey::Entry => 0,
                };
                assert(keys[t] == key);
                assert(all[before.len() + t] == key);
            }
        }
    }
}

pub proof fn lemma_generated(
    config: ConfigModel,
    command: CommandModel,
    targets: Seq<TargetModel>,
)
    ensures
        generated_nodes(config, command, targets).len() == generated_keys(config).len(),
        forall|m: int|
            0 <= m < generated_keys(config).len() ==> #[trigger] generated_nodes(
                config,
                command,
                targets,
            )[m] == key_node(config, command, targets, generated_keys(config)[m]),
        generated_keys(config).no_duplicates(),
        forall|m: int|
            0 <= m < generated_keys(config).len() ==> key_exists(
                config,
                #[trigger] generated_keys(config)[m],
            ),
        forall|key: NodeKey|
            key_exists(config, key) ==> #[trigger] generated_keys(config).contains(key),
{
    let n = config.pipelines.len() as int;
    lemma_pipeline_nodes(config, command, targets, n);
    lemma_pipeline_keys(config, n);
    let inner = pipeline_keys(config, n);
    let keys = generated_keys(config);
    let nodes = generated_nodes(config, command, targets);
    assert forall|m: int| 0 <= m < keys.len() implies #[trigger] nodes[m] == key_node(
        config,
        command,
        targets,
        keys[m],
    ) by {
        if m < inner.len() {
            assert(keys[m] == inner[m]);
            assert(nodes[m] == pipeline_nodes(config, command, n)[m]);
        } else {
            assert(nodes[m].needs =~= key_node(config, command, targets, keys[m]).needs) by {
                assert forall|k: int| 0 <= k < targets.len() implies #[trigger] target_node_name(
                    config,
                    targets[k],
                ) == key_name(target_key(config, targets[k])) by {}
            }
        }
    }
    assert forall|m: int| 0 <= m < keys.len() implies key_exists(config, #[trigger] keys[m]) by {
        if m < inner.len() {
            assert(keys[m] == inner[m]);
        }
    }
    assert forall|a: int, b: int| 0 <= a < b < keys.len() implies keys[a] != keys[b] by {
        assert(keys[a] == inner[a]);
        if b < inner.len() {
            assert(keys[b] == inner[b]);
        }
    }
    assert forall|key: NodeKey| key_exists(config, key) implies #[trigger] keys.contains(key) by {
        if key is Entry {
            assert(keys[inner.len() as int] == key);
        } else {
            assert(inner.contains(key));
            let m = inner.index_of(key);
            assert(keys[m] == key);
        }
    }
}

proof fn lemma_job_names(i: int, j: int, k: int, l: int)
    requires
        0 <= i,
        0 <= j,
        0 <= k,
        0 <= l,
        job_name(i, j) == job_name(k, l),
    ensures
        i == k,
        j == l,
{
    reveal_strlit("__pipeline_job_");
    reveal_strlit("_");
    let a = decimal(i as nat);
    let b = decimal(k as nat);
    let left = job_name(i, j);
    let right = job_name(k, l);
    decimal_has_digits(i as nat);
    decimal_has_digits(j as nat);
    decimal_has_digits(k as nat);
    decimal_has_digits(l as nat);
    let start = "__pipeline_job_"@.len() as int;
    assert forall|t: int| 0 <= t < a.len() implies left[start + t] == #[trigger] a[t] by {}
    assert forall|t: int| 0 <= t < b.len() implies right[start + t] == #[trigger] b[t] by {}
    assert(left[start + a.len()] == '_');
    assert(right[start + b.len()] == '_');
    if a.len() < b.len() {
        assert(right[start + a.len()] == b[a.len() as int]);
        assert(false);
    }
    if b.len() < a.len() {
        assert(left[start + b.len()] == a[b.len() as int]);
        assert(false);
    }
    assert(a =~= b) by {
        assert forall|t: int| 0 <= t < a.len() implies a[t] == b[t] by {
            assert(left[start + t] == a[t]);
            assert(right[start + t] == b[t]);
        }
    }
    decimal_is_injective(i as nat, k as nat);
    let c = decimal(j as nat);
    let d = decimal(l as nat);
    let next = start + a.len() + 1;
    assert(left.skip(next) =~= c);
    assert(right.skip(next) =~= d);
    decimal_is_injective(j as nat, l as nat);
}

proof fn lemma_prefixed(prefix: Seq<char>, i: int, k: int)
    requires
        0 <= i,
        0 <= k,
        prefix + decimal(i as nat) == prefix + decimal(k as nat),
    ensures
        i == k,
{
    assert((prefix + decimal(i as nat)).skip(prefix.len() as int) =~= decimal(i as nat));
    assert((prefix + decimal(k as nat)).skip(prefix.len() as int) =~= decimal(k as nat));
    decimal_is_injective(i as nat, k as nat);
}

/// The character in which the names of the sorts of recipes differ.
spec fn sort_letter(key: NodeKey) -> char {
    match key {
        NodeKey::Gate(_) => 'g',
        NodeKey::Job(_, _) => 'j',
        NodeKey::Done(_) => 'd',
        NodeKey::Entry => 's',
    }
}

proof fn lemma_sort_letter(key: NodeKey)
    ensures
        key_name(key)[11] == sort_letter(key),
{
    reveal_strlit("__pipeline_gate_");
    reveal_strlit("__pipeline_done_");
    reveal_strlit("__pipeline_job_");
    reveal_strlit("__pipeline_selected");
}

/// Different parts of a definition have recipes of different names.
pub proof fn recipe_names_are_distinct(config: ConfigModel, a: NodeKey, b: NodeKey)
    requires
        key_exists(config, a),
        key_exists(config, b),
        key_name(a) == key_name(b),
    ensures
        a == b,
{
    lemma_sort_letter(a);
    lemma_sort_letter(b);
    match (a, b) {
        (NodeKey::Gate(i), NodeKey::Gate(k)) => {
            lemma_prefixed("__pipeline_gate_"@, i, k);
        },
        (NodeKey::Done(i), NodeKey::Done(k)) => {
            lemma_prefixed("__pipeline_done_"@, i, k);
        },
        (NodeKey::Job(i, j), NodeKey::Job(k, l)) => {
            lemma_job_names(i, j, k, l);
        },
        _ => {},
    }
}

/// What exists waits only for what exists.
proof fn lemma_needs_exist(
    config: ConfigModel,
    targets: Seq<TargetModel>,
    key: NodeKey,
    k: int,
)
    requires
        resolved(config),
        selection_problem(config, targets) is None,
        key_exists(config, key),
        0 <= k < key_needs(config, targets, key).len(),
    ensures
        key_exists(config, key_needs(config, targets, key)[k]),
        key_needs(config, targets, key)[k] !is Entry,
{
    match key {
        NodeKey::Gate(i) => {
            let graph = pipeline_graph(config);
            assert(0 <= graph[i][k] < graph.len());
        },
        NodeKey::Job(i, j) => {
            let graph = job_graph(config.pipelines[i].1);
            assert(is_graph(job_graph(config.pipelines[i].1)));
            if k > 0 {
                assert(0 <= graph[j][k - 1] < graph.len());
            }
        },
        NodeKey::Done(_) => {},
        NodeKey::Entry => {
            let f = target_problems(config, targets);
            lemma_no_problem(targets.len() as int, f);
            assert(f(k) is None);
            assert(target_problem(config, targets[k]) is None);
            match targets[k] {
                TargetModel::Pipeline(name) => {
                    lemma_position(config.pipelines, name);
                },
                TargetModel::Job(pipeline, job) => {
                    lemma_position(config.pipelines, pipeline);
                    lemma_position(
                        config.pipelines[position(config.pipelines, pipeline)].1.jobs,
                        job,
                    );
                },
            }
        },
    }
}

pub proof fn lemma_place(
    config: ConfigModel,
    command: CommandModel,
    targets: Seq<TargetModel>,
    key: NodeKey,
)
    requires
        key_exists(config, key),
    ensures
        ({
            let nodes = generated_nodes(config, command, targets);
            let m = first_position(node_names(nodes), key_name(key));
            &&& 0 <= m < nodes.len()
            &&& generated_keys(config)[m] == key
            &&& nodes[m] == key_node(config, command, targets, key)
        }),
{
    lemma_generated(config, command, targets);
    let nodes = generated_nodes(config, command, targets);
    let keys = generated_keys(config);
    let names = node_names(nodes);
    assert(keys.contains(key));
    let at = keys.index_of(key);
    assert(nodes[at] == key_node(config, command, targets, keys[at]));
    assert(names[at] == key_name(key));
    lemma_first_position(names, key_name(key));
    let m = first_position(names, key_name(key));
    assert(names[m] == key_name(key));
    assert(nodes[m] == key_node(config, command, targets, keys[m]));
    assert(key_exists(config, keys[m]));
    recipe_names_are_distinct(config, keys[m], key);
}

/// No two recipes of a generated Justfile have the same name.
pub proof fn generated_names_are_distinct(
    config: ConfigModel,
    command: CommandModel,
    targets: Seq<TargetModel>,
)
    ensures
        node_names(generated_nodes(config, command, targets)).no_duplicates(),
{
    lemma_generated(config, command, targets);
    let nodes = generated_nodes(config, command, targets);
    let keys = generated_keys(config);
    let names = node_names(nodes);
    assert forall|a: int, b: int| 0 <= a < b < names.len() implies names[a] != names[b] by {
        assert(nodes[a] == key_node(config, command, targets, keys[a]));
        assert(nodes[b] == key_node(config, command, targets, keys[b]));
        assert(key_exists(config, keys[a]));
        assert(key_exists(config, keys[b]));
        if names[a] == names[b] {
            recipe_names_are_distinct(config, keys[a], keys[b]);
        }
    }
}

/// Every dependency of a generated recipe is a recipe of the same file, if the
/// selection is part of the definition.
pub proof fn generated_needs_are_defined(
    config: ConfigModel,
    command: CommandModel,
    targets: Seq<TargetModel>,
    m: int,
    k: int,
)
    requires
        resolved(config),
        selection_problem(config, targets) is None,
        0 <= m < generated_nodes(config, command, targets).len(),
        0 <= k < generated_nodes(config, command, targets)[m].needs.len(),
    ensures
        node_names(generated_nodes(config, command, targets)).contains(
            generated_nodes(config, command, targets)[m].needs[k],
        ),
{
    lemma_generated(config, command, targets);
    let nodes = generated_nodes(config, command, targets);
    let key = generated_keys(config)[m];
    assert(nodes[m] == key_node(config, command, targets, key));
    assert(key_exists(config, key));
    lemma_needs_exist(config, targets, key, k);
    let need = key_needs(config, targets, key)[k];
    lemma_place(config, command, targets, need);
    let at = first_position(node_names(nodes), key_name(need));
    assert(node_names(nodes)[at] == nodes[m].needs[k]);
}

spec fn major_rank(config: ConfigModel, key: NodeKey) -> int {
    let graph = pipeline_graph(config);
    match key {
        NodeKey::Gate(i) => height(graph, i),
        NodeKey::Job(i, _) => height(graph, i),
        NodeKey::Done(i) => height(graph, i),
        NodeKey::Entry => heights(graph),
    }
}

spec fn minor_rank(config: ConfigModel, key: NodeKey) -> int {
    match key {
        NodeKey::Gate(_) => 0,
        NodeKey::Job(i, j) => 1 + height(job_graph(config.pipelines[i].1), j),
        NodeKey::Done(i) => 1 + heights(job_graph(config.pipelines[i].1)),
        NodeKey::Entry => 0,
    }
}

proof fn lemma_rank_falls(config: ConfigModel, targets: Seq<TargetModel>, key: NodeKey, k: int)
    requires
        valid_config(config),
        resolved(config),
        selection_problem(config, targets) is None,
        key_exists(config, key),
        0 <= k < key_needs(config, targets, key).len(),
    ensures
        ({
            let need = key_needs(config, targets, key)[k];
            ||| major_rank(config, need) < major_rank(config, key)
            ||| major_rank(config, need) == major_rank(config, key) && minor_rank(config, need)
                < minor_rank(config, key)
        }),
{
    let graph = pipeline_graph(config);
    lemma_heights_fall(graph);
    lemma_needs_exist(config, targets, key, k);
    let need = key_needs(config, targets, key)[k];
    match key {
        NodeKey::Gate(i) => {
            assert(height(graph, graph[i][k]) < height(graph, i));
        },
        NodeKey::Job(i, j) => {
            assert(is_graph(job_graph(config.pipelines[i].1)));
            assert(acyclic(job_graph(config.pipelines[i].1)));
            lemma_heights_fall(job_graph(config.pipelines[i].1));
            let jobs = job_graph(config.pipelines[i].1);
            if k > 0 {
                assert(height(jobs, jobs[j][k - 1]) < height(jobs, j));
            } else {
                assert(0 <= height(jobs, j));
            }
        },
        NodeKey::Done(i) => {
            assert(is_graph(job_graph(config.pipelines[i].1)));
            assert(acyclic(job_graph(config.pipelines[i].1)));
            let jobs = job_graph(config.pipelines[i].1);
            lemma_heights_fall(jobs);
            if jobs.len() > 0 {
                assert(height(jobs, k) < heights(jobs));
            }
        },
        NodeKey::Entry => {
            match need {
                NodeKey::Done(i) => {
                    assert(height(graph, i) < heights(graph));
                },
                NodeKey::Job(i, _) => {
                    assert(height(graph, i) < heights(graph));
                },
                _ => {},
            }
        },
    }
}

/// In a valid definition every dependency names something.
pub proof fn valid_definitions_resolve(config: ConfigModel)
    requires
        valid_config(config),
    ensures
        resolved(config),
{
    lemma_pipeline_graph(config);
    assert forall|i: int| 0 <= i < config.pipelines.len() implies is_graph(
        job_graph((#[trigger] config.pipelines[i]).1),
    ) by {
        lemma_job_graph(config, config.pipelines[i].0, config.pipelines[i].1);
    }
}

/// A valid definition compiles to a graph without cycles.
pub proof fn generated_graph_is_acyclic(
    config: ConfigModel,
    command: CommandModel,
    targets: Seq<TargetModel>,
)
    requires
        valid_config(config),
        selection_problem(config, targets) is None,
    ensures
        acyclic(node_graph(generated_nodes(config, command, targets))),
{
    valid_definitions_resolve(config);
    lemma_generated(config, command, targets);
    let nodes = generated_nodes(config, command, targets);
    let keys = generated_keys(config);
    let graph = node_graph(nodes);
    let major = |m: int| major_rank(config, keys[m]);
    let minor = |m: int| minor_rank(config, keys[m]);
    assert forall|m: int, k: int| 0 <= m < graph.len() && 0 <= k < graph[m].len() implies {
        let to = #[trigger] graph[m][k];
        major(to) < major(m) || (major(to) == major(m) && minor(to) < minor(m))
    } by {
        let key = keys[m];
        assert(nodes[m] == key_node(config, command, targets, key));
        assert(key_exists(config, key));
        lemma_needs_exist(config, targets, key, k);
        let need = key_needs(config, targets, key)[k];
        assert(nodes[m].needs[k] == key_name(need));
        lemma_place(config, command, targets, need);
        lemma_rank_falls(config, targets, key, k);
    }
    falling_ranks_exclude_cycles(graph, major, minor);
}

/// Recipe `a` names recipe `b` as a dependency.
pub open spec fn waits_directly(nodes: Seq<NodeModel>, a: Seq<char>, b: Seq<char>) -> bool {
    exists|m: int|
        0 <= m < nodes.len() && (#[trigger] nodes[m]).name == a && nodes[m].needs.contains(b)
}

/// Just runs `b` to the end before it starts `a`: a chain of dependencies leads
/// from one to the other.
pub open spec fn waits_for(nodes: Seq<NodeModel>, chain: Seq<Seq<char>>) -> bool {
    forall|t: int|
        0 <= t && t + 1 < chain.len() ==> waits_directly(
            nodes,
            #[trigger] chain[t],
            chain[t + 1],
        )
}

pub proof fn lemma_waits(
    config: ConfigModel,
    command: CommandModel,
    targets: Seq<TargetModel>,
    key: NodeKey,
    k: int,
)
    requires
        key_exists(config, key),
        0 <= k < key_needs(config, targets, key).len(),
    ensures
        waits_directly(
            generated_nodes(config, command, targets),
            key_name(key),
            key_name(key_needs(config, targets, key)[k]),
        ),
{
    lemma_place(config, command, targets, key);
    let nodes = generated_nodes(config, command, targets);
    let m = first_position(node_names(nodes), key_name(key));
    let needs = key_needs(config, targets, key);
    assert(nodes[m].needs[k] == key_name(needs[k]));
    assert(nodes[m].needs.contains(key_name(needs[k])));
}

/// Every job of a pipeline waits for every job of a pipeline that its own
/// needs: through its gate and the end of the other.
pub proof fn jobs_wait_for_needed_pipelines(
    config: ConfigModel,
    command: CommandModel,
    targets: Seq<TargetModel>,
    i: int,
    j: int,
    k: int,
    l: int,
)
    requires
        resolved(config),
        0 <= i < config.pipelines.len(),
        0 <= j < config.pipelines[i].1.jobs.len(),
        0 <= k < config.pipelines[i].1.needs.len(),
        0 <= l < config.pipelines[position(
            config.pipelines,
            config.pipelines[i].1.needs[k],
        )].1.jobs.len(),
    ensures
        ({
            let p = position(config.pipelines, config.pipelines[i].1.needs[k]);
            waits_for(
                generated_nodes(config, command, targets),
                seq![job_name(i, j), gate_name(i), done_name(p), job_name(p, l)],
            )
        }),
{
    let p = position(config.pipelines, config.pipelines[i].1.needs[k]);
    let graph = pipeline_graph(config);
    assert(0 <= graph[i][k] < graph.len());
    lemma_waits(config, command, targets, NodeKey::Job(i, j), 0);
    lemma_waits(config, command, targets, NodeKey::Gate(i), k);
    lemma_waits(config, command, targets, NodeKey::Done(p), l);
}

/// Every job waits for the siblings that it needs.
pub proof fn jobs_wait_for_needed_jobs(
    config: ConfigModel,
    command: CommandModel,
    targets: Seq<TargetModel>,
    i: int,
    j: int,
    k: int,
)
    requires
        0 <= i < config.pipelines.len(),
        0 <= j < config.pipelines[i].1.jobs.len(),
        0 <= k < config.pipelines[i].1.jobs[j].1.needs.len(),
    ensures
        waits_directly(
            generated_nodes(config, command, targets),
            job_name(i, j),
            job_name(
                i,
                position(config.pipelines[i].1.jobs, config.pipelines[i].1.jobs[j].1.needs[k]),
            ),
        ),
{
    lemma_waits(config, command, targets, NodeKey::Job(i, j), k + 1);
}

/// A pipeline without jobs of its own ends only after its prerequisites.
pub proof fn aggregate_pipelines_wait_for_needed_pipelines(
    config: ConfigModel,
    command: CommandModel,
    targets: Seq<TargetModel>,
    i: int,
    k: int,
)
    requires
        0 <= i < config.pipelines.len(),
        config.pipelines[i].1.jobs.len() == 0,
        0 <= k < config.pipelines[i].1.needs.len(),
    ensures
        waits_for(
            generated_nodes(config, command, targets),
            seq![
                done_name(i),
                gate_name(i),
                done_name(position(config.pipelines, config.pipelines[i].1.needs[k])),
            ],
        ),
{
    lemma_waits(config, command, targets, NodeKey::Done(i), 0);
    lemma_waits(config, command, targets, NodeKey::Gate(i), k);
}

/// The run waits for everything selected: a whole pipeline by its end, a job by
/// itself.
pub proof fn run_waits_for_selected_targets(
    config: ConfigModel,
    command: CommandModel,
    targets: Seq<TargetModel>,
    k: int,
)
    requires
        0 <= k < targets.len(),
    ensures
        waits_directly(
            generated_nodes(config, command, targets),
            entry_name(),
            target_node_name(config, targets[k]),
        ),
{
    lemma_waits(config, command, targets, NodeKey::Entry, k);
}

/// Several dependencies run in parallel: exactly a recipe that has more than
/// one carries the attribute that tells Just to run them at once.
pub proof fn several_needs_run_in_parallel(node: NodeModel)
    requires
        node.name.len() > 0,
        node.name[0] == '_',
    ensures
        "[parallel]\n"@.is_prefix_of(node_text(node)) <==> node.needs.len() > 1,
{
    let mark = "[parallel]\n"@;
    assert(mark.len() > 0 && mark[0] == '[') by {
        reveal_strlit("[parallel]\n");
    }
    let head = if node.needs.len() > 1 {
        mark
    } else {
        seq![]
    };
    let tail = match node.body {
        Some(body) => "    "@ + body + seq!['\n'],
        None => seq![],
    };
    let named = head + node.name;
    let needing = named + seq![':'] + needs_text(node.needs) + seq!['\n'];
    lemma_starts(named, seq![':'], needs_text(node.needs), seq!['\n']);
    lemma_starts(needing, tail, seq!['\n'], seq![]);
    let text = node_text(node);
    assert(text == needing + tail + seq!['\n']);
    assert(text + seq![] =~= text);
    assert(forall|i: int| 0 <= i < named.len() ==> text[i] == named[i]);
    if node.needs.len() > 1 {
        assert(text.subrange(0, mark.len() as int) =~= mark);
    } else {
        assert(named[0] == '_');
        if mark.is_prefix_of(text) {
            assert(text.subrange(0, mark.len() as int)[0] == text[0]);
        }
    }
}

proof fn lemma_starts(a: Seq<char>, b: Seq<char>, c: Seq<char>, d: Seq<char>)
    ensures
        a.len() <= (a + b + c + d).len(),
        forall|i: int| 0 <= i < a.len() ==> #[trigger] (a + b + c + d)[i] == a[i],
{
}

} // verus!
