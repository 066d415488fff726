//! Which targets of a YAML definition a command line or a hook selects.

use crate::definition::check::{hook_problem, selected_target, valid_config, valid_selectors};
use crate::definition::error::{first_problem, lemma_problem_stays, reports, DefinitionError};
use crate::definition::model::{
    has_key, job_at, job_count, job_entries, keys, lemma_only_key, lemma_position, position,
    trigger_at, trigger_entries, trigger_index, ConfigModel, JobModel, PipelineConfig, PipelineSpec,
};
use crate::definition::selection::{
    adding_keeps_reduced, is_reduced, with_job, with_pipeline, with_target, without_jobs,
    SelectedTarget, Selection, TargetModel,
};
use crate::definition::validate::{invalid, validate_hook};
use crate::hooks::{supported, supported_hooks, SUPPORTED_HOOKS};
use crate::native::{native_views, NativeText};
use crate::text::{concat3, concat5, views};
use vstd::prelude::*;
use vstd::utf8::{decode_utf8, valid_utf8};

verus! {

/// The values of a list in the order of their first occurrence, each once.
pub open spec fn distinct(values: Seq<Seq<char>>) -> Seq<Seq<char>>
    decreases values.len(),
{
    if values.len() == 0 {
        seq![]
    } else {
        let rest = distinct(values.drop_last());
        if rest.contains(values.last()) {
            rest
        } else {
            rest.push(values.last())
        }
    }
}

/// Whole pipelines as targets.
pub open spec fn whole(names: Seq<Seq<char>>) -> Seq<TargetModel> {
    Seq::new(names.len(), |i: int| TargetModel::Pipeline(names[i]))
}

/// The texts of native arguments.
pub open spec fn decoded(arguments: Seq<Seq<u8>>) -> Seq<Seq<char>> {
    Seq::new(arguments.len(), |i: int| decode_utf8(arguments[i]))
}

/// An argument that names a pipeline.
pub open spec fn names_pipeline(config: ConfigModel, argument: Seq<u8>) -> bool {
    valid_utf8(argument) && has_key(config.pipelines, decode_utf8(argument))
}

/// Every argument names a pipeline.
pub open spec fn all_name_pipelines(config: ConfigModel, arguments: Seq<Seq<u8>>) -> bool {
    forall|i: int| 0 <= i < arguments.len() ==> names_pipeline(config, #[trigger] arguments[i])
}

/// The error for an argument that names no pipeline.
pub open spec fn refuses_argument(
    result: Result<Selection, DefinitionError>,
    argument: Seq<u8>,
) -> bool {
    if !valid_utf8(argument) {
        result matches Err(DefinitionError::NonUnicodeTarget(shown)) && shown@ == argument
    } else {
        result matches Err(DefinitionError::Invalid(reason)) && reason@ == "unknown pipeline `"@
            + decode_utf8(argument) + "`"@
    }
}

/// What command-line arguments select: the pipelines they name, each once, or
/// the first one that is declared. The first argument that names none is
/// refused.
pub open spec fn selects(
    config: ConfigModel,
    arguments: Seq<Seq<u8>>,
    result: Result<Selection, DefinitionError>,
) -> bool {
    if arguments.len() == 0 {
        result matches Ok(selection) && selection@ == seq![
            TargetModel::Pipeline(config.pipelines[0].0),
        ]
    } else if all_name_pipelines(config, arguments) {
        result matches Ok(selection) && selection@ == whole(distinct(decoded(arguments)))
    } else {
        exists|i: int|
            0 <= i < arguments.len() && all_name_pipelines(config, arguments.take(i))
                && !names_pipeline(config, #[trigger] arguments[i]) && refuses_argument(
                result,
                arguments[i],
            )
    }
}

proof fn lemma_no_jobs(names: Seq<Seq<char>>, pipeline: Seq<char>)
    ensures
        without_jobs(whole(names), pipeline) == whole(names),
    decreases names.len(),
{
    let targets = whole(names);
    if names.len() > 0 {
        lemma_no_jobs(names.drop_last(), pipeline);
        assert(targets.drop_last() =~= whole(names.drop_last()));
        assert(targets =~= targets.drop_last().push(targets.last()));
    } else {
        assert(without_jobs(targets, pipeline) =~= targets);
    }
}

proof fn lemma_whole_contains(names: Seq<Seq<char>>, name: Seq<char>)
    ensures
        whole(names).contains(TargetModel::Pipeline(name)) <==> names.contains(name),
{
    if names.contains(name) {
        let i = choose|i: int| 0 <= i < names.len() && names[i] == name;
        assert(whole(names)[i] == TargetModel::Pipeline(name));
    }
    if whole(names).contains(TargetModel::Pipeline(name)) {
        let i = choose|i: int|
            0 <= i < whole(names).len() && whole(names)[i] == TargetModel::Pipeline(name);
        assert(names[i] == name);
    }
}

proof fn lemma_add_distinct(values: Seq<Seq<char>>, name: Seq<char>)
    ensures
        with_pipeline(whole(distinct(values)), name) == whole(distinct(values.push(name))),
{
    let sofar = distinct(values);
    lemma_no_jobs(sofar, name);
    lemma_whole_contains(sofar, name);
    assert(values.push(name).drop_last() =~= values);
    if !sofar.contains(name) {
        assert(whole(sofar.push(name)) =~= whole(sofar).push(TargetModel::Pipeline(name)));
    }
}

/// Selecting pipelines by name gives every named pipeline exactly once.
pub proof fn distinct_keeps_every_name(values: Seq<Seq<char>>)
    ensures
        distinct(values).no_duplicates(),
        forall|name: Seq<char>| distinct(values).contains(name) <==> values.contains(name),
        is_reduced(whole(distinct(values))),
    decreases values.len(),
{
    let list = distinct(values);
    if values.len() > 0 {
        let front = values.drop_last();
        let rest = distinct(front);
        distinct_keeps_every_name(front);
        assert forall|name: Seq<char>| list.contains(name) <==> values.contains(name) by {
            if values.contains(name) {
                let i = choose|i: int| 0 <= i < values.len() && values[i] == name;
                if i < front.len() {
                    assert(front[i] == name);
                    assert(front.contains(name));
                }
            }
            if front.contains(name) {
                let i = choose|i: int| 0 <= i < front.len() && front[i] == name;
                assert(values[i] == name);
            }
            assert(values[values.len() - 1] == values.last());
            if !rest.contains(values.last()) {
                assert(list[rest.len() as int] == values.last());
                if rest.contains(name) {
                    let i = choose|i: int| 0 <= i < rest.len() && rest[i] == name;
                    assert(list[i] == name);
                }
                if list.contains(name) && name != values.last() {
                    let i = choose|i: int| 0 <= i < list.len() && list[i] == name;
                    assert(rest[i] == name);
                }
            }
        }
        if !rest.contains(values.last()) {
            assert forall|i: int, j: int|
                0 <= i < list.len() && 0 <= j < list.len() && i != j implies list[i]
                != list[j] by {
                if i < rest.len() {
                    assert(rest.contains(rest[i]));
                }
                if j < rest.len() {
                    assert(rest.contains(rest[j]));
                }
            }
        }
    }
    let targets = whole(list);
    assert forall|i: int, j: int|
        0 <= i < targets.len() && 0 <= j < targets.len() && i != j implies targets[i]
        != targets[j] by {
        assert(list[i] != list[j]);
    }
}

/// The targets that a list of selectors adds.
pub open spec fn from_selectors(
    config: ConfigModel,
    selectors: Seq<Seq<char>>,
    n: int,
) -> Seq<TargetModel>
    decreases n,
{
    if n <= 0 {
        seq![]
    } else {
        let sofar = from_selectors(config, selectors, n - 1);
        match selected_target(config, selectors[n - 1]) {
            Ok(target) => with_target(sofar, target),
            Err(_) => sofar,
        }
    }
}

/// The selection after the first `n` jobs of a pipeline were considered.
pub open spec fn with_triggered_jobs(
    targets: Seq<TargetModel>,
    pipeline: Seq<char>,
    jobs: Seq<(Seq<char>, JobModel)>,
    hook: Seq<char>,
    n: int,
) -> Seq<TargetModel>
    decreases n,
{
    if n <= 0 {
        targets
    } else {
        let sofar = with_triggered_jobs(targets, pipeline, jobs, hook, n - 1);
        if jobs[n - 1].1.triggers.contains(hook) {
            with_job(sofar, pipeline, jobs[n - 1].0)
        } else {
            sofar
        }
    }
}

/// The selection after the first `n` pipelines were considered.
pub open spec fn with_triggered_pipelines(
    config: ConfigModel,
    targets: Seq<TargetModel>,
    hook: Seq<char>,
    n: int,
) -> Seq<TargetModel>
    decreases n,
{
    if n <= 0 {
        targets
    } else {
        let sofar = with_triggered_pipelines(config, targets, hook, n - 1);
        let (name, pipeline) = config.pipelines[n - 1];
        let start = if pipeline.triggers.contains(hook) {
            with_pipeline(sofar, name)
        } else {
            sofar
        };
        with_triggered_jobs(start, name, pipeline.jobs, hook, pipeline.jobs.len() as int)
    }
}

/// The selectors that the definition lists for a hook.
pub open spec fn selectors_for(config: ConfigModel, hook: Seq<char>) -> Seq<Seq<char>> {
    if has_key(config.triggers, hook) {
        config.triggers[position(config.triggers, hook)].1
    } else {
        seq![]
    }
}

/// What a hook selects.
pub open spec fn hook_selection(config: ConfigModel, hook: Seq<char>) -> Seq<TargetModel> {
    let selectors = selectors_for(config, hook);
    with_triggered_pipelines(
        config,
        from_selectors(config, selectors, selectors.len() as int),
        hook,
        config.pipelines.len() as int,
    )
}

/// The definition names `target` as something to run for `hook`.
pub open spec fn triggered(config: ConfigModel, hook: Seq<char>, target: TargetModel) -> bool {
    ||| exists|i: int|
        0 <= i < selectors_for(config, hook).len() && selected_target(
            config,
            #[trigger] selectors_for(config, hook)[i],
        ) == Ok::<TargetModel, Seq<char>>(target)
    ||| exists|i: int| #[trigger] triggered_by_pipeline(config, hook, target, i)
}

/// The `i`-th pipeline, or one of its jobs, names the hook itself.
pub open spec fn triggered_by_pipeline(
    config: ConfigModel,
    hook: Seq<char>,
    target: TargetModel,
    i: int,
) -> bool {
    &&& 0 <= i < config.pipelines.len()
    &&& {
        ||| target == TargetModel::Pipeline(config.pipelines[i].0)
            && config.pipelines[i].1.triggers.contains(hook)
        ||| exists|j: int|
            0 <= j < config.pipelines[i].1.jobs.len() && (
            #[trigger] config.pipelines[i].1.jobs[j]).1.triggers.contains(hook) && target
                == TargetModel::Job(config.pipelines[i].0, config.pipelines[i].1.jobs[j].0)
    }
}

/// The target runs: it is listed, or its whole pipeline is.
pub open spec fn covered(targets: Seq<TargetModel>, target: TargetModel) -> bool {
    targets.contains(target) || (target matches TargetModel::Job(pipeline, _) && targets.contains(
        TargetModel::Pipeline(pipeline),
    ))
}

/// What is listed is triggered and the list is reduced.
spec fn fits(config: ConfigModel, hook: Seq<char>, targets: Seq<TargetModel>) -> bool {
    is_reduced(targets) && forall|t: TargetModel| #[trigger]
        targets.contains(t) ==> triggered(config, hook, t)
}

/// Everything that `before` covers, `after` covers.
spec fn covers_more(before: Seq<TargetModel>, after: Seq<TargetModel>) -> bool {
    forall|t: TargetModel| #[trigger] covered(before, t) ==> covered(after, t)
}

proof fn lemma_members_of_added(targets: Seq<TargetModel>, target: TargetModel)
    ensures
        forall|t: TargetModel| #[trigger]
            with_target(targets, target).contains(t) ==> targets.contains(t) || t == target,
{
    let after = with_target(targets, target);
    assert forall|t: TargetModel| #[trigger] after.contains(t) implies targets.contains(t) || t
        == target by {
        match target {
            TargetModel::Pipeline(pipeline) => {
                crate::definition::selection::lemma_without_jobs(targets, pipeline);
                let kept = without_jobs(targets, pipeline);
                let i = choose|i: int| 0 <= i < after.len() && after[i] == t;
                if i < kept.len() {
                    assert(kept[i] == t);
                    assert(kept.contains(t));
                }
            },
            TargetModel::Job(_, _) => {
                let i = choose|i: int| 0 <= i < after.len() && after[i] == t;
                if i < targets.len() {
                    assert(targets[i] == t);
                }
            },
        }
    }
}

proof fn lemma_add_fits(
    config: ConfigModel,
    hook: Seq<char>,
    targets: Seq<TargetModel>,
    target: TargetModel,
)
    requires
        fits(config, hook, targets),
        triggered(config, hook, target),
    ensures
        fits(config, hook, with_target(targets, target)),
        covers_more(targets, with_target(targets, target)),
        covered(with_target(targets, target), target),
{
    adding_keeps_reduced(targets, target);
    lemma_members_of_added(targets, target);
    let after = with_target(targets, target);
    assert forall|t: TargetModel| #[trigger] covered(targets, t) implies covered(after, t) by {
        if targets.contains(t) {
            if !after.contains(t) {
                let pipeline = match t {
                    TargetModel::Job(p, _) => p,
                    TargetModel::Pipeline(p) => p,
                };
                assert(target == TargetModel::Pipeline(pipeline));
            }
        } else if let TargetModel::Job(pipeline, _) = t {
            assert(targets.contains(TargetModel::Pipeline(pipeline)));
            assert(after.contains(TargetModel::Pipeline(pipeline)));
        }
    }
}

proof fn lemma_from_selectors(config: ConfigModel, hook: Seq<char>, n: int)
    requires
        0 <= n <= selectors_for(config, hook).len(),
    ensures
        fits(config, hook, from_selectors(config, selectors_for(config, hook), n)),
        forall|i: int, target: TargetModel|
            #![trigger selected_target(config, selectors_for(config, hook)[i]), covered(from_selectors(config, selectors_for(config, hook), n), target)]
            0 <= i < n && selected_target(config, selectors_for(config, hook)[i]) == Ok::<
                TargetModel,
                Seq<char>,
            >(target) ==> covered(
                from_selectors(config, selectors_for(config, hook), n),
                target,
            ),
    decreases n,
{
    let selectors = selectors_for(config, hook);
    if n > 0 {
        lemma_from_selectors(config, hook, n - 1);
        let sofar = from_selectors(config, selectors, n - 1);
        let after = from_selectors(config, selectors, n);
        if let Ok(target) = selected_target(config, selectors[n - 1]) {
            assert(triggered(config, hook, target));
            lemma_add_fits(config, hook, sofar, target);
        }
        assert forall|i: int, target: TargetModel|
            #![trigger selected_target(config, selectors[i]), covered(after, target)]
            0 <= i < n && selected_target(config, selectors[i]) == Ok::<TargetModel, Seq<char>>(
                target,
            ) implies covered(after, target) by {
            if i < n - 1 {
                assert(covered(sofar, target));
            }
        }
    } else {
        let none = from_selectors(config, selectors, n);
        assert forall|t: TargetModel| !#[trigger] none.contains(t) by {}
    }
}

proof fn lemma_triggered_jobs(
    config: ConfigModel,
    hook: Seq<char>,
    targets: Seq<TargetModel>,
    p: int,
    n: int,
)
    requires
        fits(config, hook, targets),
        0 <= p < config.pipelines.len(),
        0 <= n <= config.pipelines[p].1.jobs.len(),
    ensures
        ({
            let (name, pipeline) = config.pipelines[p];
            let after = with_triggered_jobs(targets, name, pipeline.jobs, hook, n);
            &&& fits(config, hook, after)
            &&& covers_more(targets, after)
            &&& forall|j: int|
                0 <= j < n && (#[trigger] pipeline.jobs[j]).1.triggers.contains(hook) ==> covered(
                    after,
                    TargetModel::Job(name, pipeline.jobs[j].0),
                )
        }),
    decreases n,
{
    let (name, pipeline) = config.pipelines[p];
    let after = with_triggered_jobs(targets, name, pipeline.jobs, hook, n);
    if n > 0 {
        lemma_triggered_jobs(config, hook, targets, p, n - 1);
        let sofar = with_triggered_jobs(targets, name, pipeline.jobs, hook, n - 1);
        if pipeline.jobs[n - 1].1.triggers.contains(hook) {
            let target = TargetModel::Job(name, pipeline.jobs[n - 1].0);
            assert(triggered_by_pipeline(config, hook, target, p));
            assert(triggered(config, hook, target));
            lemma_add_fits(config, hook, sofar, target);
        }
        assert forall|j: int| 0 <= j < n && (#[trigger] pipeline.jobs[j]).1.triggers.contains(
            hook,
        ) implies covered(after, TargetModel::Job(name, pipeline.jobs[j].0)) by {
            if j < n - 1 {
                assert(covered(sofar, TargetModel::Job(name, pipeline.jobs[j].0)));
            }
        }
        assert(covers_more(targets, after)) by {
            assert forall|t: TargetModel| #[trigger] covered(targets, t) implies covered(
                after,
                t,
            ) by {
                assert(covered(sofar, t));
            }
        }
    }
}

proof fn lemma_triggered_pipelines(
    config: ConfigModel,
    hook: Seq<char>,
    targets: Seq<TargetModel>,
    n: int,
)
    requires
        fits(config, hook, targets),
        0 <= n <= config.pipelines.len(),
    ensures
        fits(config, hook, with_triggered_pipelines(config, targets, hook, n)),
        covers_more(targets, with_triggered_pipelines(config, targets, hook, n)),
        forall|i: int, target: TargetModel|
            i < n && #[trigger] triggered_by_pipeline(config, hook, target, i) ==> covered(
                with_triggered_pipelines(config, targets, hook, n),
                target,
            ),
    decreases n,
{
    let after = with_triggered_pipelines(config, targets, hook, n);
    if n > 0 {
        lemma_triggered_pipelines(config, hook, targets, n - 1);
        let sofar = with_triggered_pipelines(config, targets, hook, n - 1);
        let p = n - 1;
        let (name, pipeline) = config.pipelines[p];
        let target = TargetModel::Pipeline(name);
        let start = if pipeline.triggers.contains(hook) {
            with_pipeline(sofar, name)
        } else {
            sofar
        };
        if pipeline.triggers.contains(hook) {
            assert(triggered_by_pipeline(config, hook, target, p));
            assert(triggered(config, hook, target));
            lemma_add_fits(config, hook, sofar, target);
        }
        lemma_triggered_jobs(config, hook, start, p, pipeline.jobs.len() as int);
        assert forall|t: TargetModel| #[trigger] covered(sofar, t) implies covered(after, t) by {
            assert(covered(start, t));
        }
        assert(covers_more(targets, after)) by {
            assert forall|t: TargetModel| #[trigger] covered(targets, t) implies covered(
                after,
                t,
            ) by {
                assert(covered(sofar, t));
            }
        }
        assert forall|i: int, t: TargetModel|
            i < n && #[trigger] triggered_by_pipeline(config, hook, t, i) implies covered(
            after,
            t,
        ) by {
            if i < p {
                assert(covered(sofar, t));
            } else if t == target && pipeline.triggers.contains(hook) {
                assert(covered(start, t));
            } else {
                let j = choose|j: int|
                    0 <= j < pipeline.jobs.len() && (
                    #[trigger] pipeline.jobs[j]).1.triggers.contains(hook) && t
                        == TargetModel::Job(name, pipeline.jobs[j].0);
                assert(pipeline.jobs[j].1.triggers.contains(hook));
            }
        }
    }
}

/// A hook selects exactly what the definition triggers by it: the selection is
/// reduced, lists nothing else and covers all of it, with a whole pipeline in
/// place of its jobs.
pub proof fn hook_selection_is_the_union_of_triggers(config: ConfigModel, hook: Seq<char>)
    ensures
        is_reduced(hook_selection(config, hook)),
        forall|target: TargetModel| #[trigger]
            hook_selection(config, hook).contains(target) ==> triggered(config, hook, target),
        forall|target: TargetModel| #[trigger]
            triggered(config, hook, target) ==> covered(hook_selection(config, hook), target),
{
    let selectors = selectors_for(config, hook);
    let start = from_selectors(config, selectors, selectors.len() as int);
    lemma_from_selectors(config, hook, selectors.len() as int);
    lemma_triggered_pipelines(config, hook, start, config.pipelines.len() as int);
    let all = hook_selection(config, hook);
    assert forall|target: TargetModel| #[trigger] triggered(config, hook, target) implies covered(
        all,
        target,
    ) by {
        if exists|i: int|
            0 <= i < selectors.len() && selected_target(config, #[trigger] selectors[i]) == Ok::<
                TargetModel,
                Seq<char>,
            >(target) {
            assert(covered(start, target));
        } else {
            let i = choose|i: int| #[trigger] triggered_by_pipeline(config, hook, target, i);
            assert(triggered_by_pipeline(config, hook, target, i));
        }
    }
}

/// The definition mentions the hook somewhere.
pub open spec fn declares(config: ConfigModel, hook: Seq<char>) -> bool {
    ||| has_key(config.triggers, hook)
    ||| exists|i: int| #[trigger] pipeline_declares(config, hook, i)
}

/// The `i`-th pipeline or one of its jobs mentions the hook.
pub open spec fn pipeline_declares(config: ConfigModel, hook: Seq<char>, i: int) -> bool {
    &&& 0 <= i < config.pipelines.len()
    &&& config.pipelines[i].1.triggers.contains(hook) || exists|j: int|
        0 <= j < config.pipelines[i].1.jobs.len() && (
        #[trigger] config.pipelines[i].1.jobs[j]).1.triggers.contains(hook)
}

/// The declared hooks among the first `n` supported ones, in their order.
pub open spec fn declared_among(config: ConfigModel, n: int) -> Seq<Seq<char>>
    decreases n,
{
    if n <= 0 {
        seq![]
    } else {
        let rest = declared_among(config, n - 1);
        if declares(config, supported_hooks()[n - 1]) {
            rest.push(supported_hooks()[n - 1])
        } else {
            rest
        }
    }
}

/// The hooks that a definition asks for, in the documented order.
pub open spec fn declared_hooks(config: ConfigModel) -> Seq<Seq<char>> {
    declared_among(config, supported_hooks().len() as int)
}

proof fn lemma_declared_among(config: ConfigModel, hook: Seq<char>, n: int)
    requires
        0 <= n <= supported_hooks().len(),
    ensures
        declared_among(config, n).contains(hook) <==> supported_hooks().take(n).contains(hook)
            && declares(config, hook),
    decreases n,
{
    let list = declared_among(config, n);
    let seen = supported_hooks().take(n);
    if n > 0 {
        lemma_declared_among(config, hook, n - 1);
        let rest = declared_among(config, n - 1);
        let front = supported_hooks().take(n - 1);
        let item = supported_hooks()[n - 1];
        assert(seen =~= front.push(item));
        assert(seen[n - 1] == item);
        if front.contains(hook) {
            let i = choose|i: int| 0 <= i < front.len() && front[i] == hook;
            assert(seen[i] == hook);
        }
        if seen.contains(hook) && hook != item {
            let i = choose|i: int| 0 <= i < seen.len() && seen[i] == hook;
            assert(front[i] == hook);
        }
        if declares(config, item) {
            assert(list[rest.len() as int] == item);
            if rest.contains(hook) {
                let i = choose|i: int| 0 <= i < rest.len() && rest[i] == hook;
                assert(list[i] == hook);
            }
            if list.contains(hook) && hook != item {
                let i = choose|i: int| 0 <= i < list.len() && list[i] == hook;
                assert(rest[i] == hook);
            }
        }
    }
}

/// A hook is managed exactly when it is supported and the definition mentions
/// it. In particular every supported hook that selects something is managed.
pub proof fn managed_hooks_are_the_declared_ones(config: ConfigModel, hook: Seq<char>)
    ensures
        declared_hooks(config).contains(hook) <==> supported(hook) && declares(config, hook),
        supported(hook) && hook_selection(config, hook).len() > 0 ==> declared_hooks(
            config,
        ).contains(hook),
{
    let n = supported_hooks().len() as int;
    lemma_declared_among(config, hook, n);
    assert(supported_hooks().take(n) =~= supported_hooks());
    if hook_selection(config, hook).len() > 0 {
        let target = hook_selection(config, hook)[0];
        assert(hook_selection(config, hook).contains(target));
        hook_selection_is_the_union_of_triggers(config, hook);
        assert(triggered(config, hook, target));
        if !has_key(config.triggers, hook) {
            assert(selectors_for(config, hook).len() == 0);
            let i = choose|i: int| #[trigger] triggered_by_pipeline(config, hook, target, i);
            assert(triggered_by_pipeline(config, hook, target, i));
            assert(pipeline_declares(config, hook, i));
        }
    }
}

/// In a valid definition every selector of a hook stands for something.
pub proof fn valid_definitions_have_valid_selectors(config: ConfigModel, hook: Seq<char>)
    requires
        valid_config(config),
    ensures
        valid_selectors(config, selectors_for(config, hook)),
{
    lemma_position(config.triggers, hook);
    let at = position(config.triggers, hook);
    if at < config.triggers.len() {
        assert(valid_selectors(config, config.triggers[at].1));
    }
}

/// What is wrong with a selected target.
pub open spec fn target_problem(config: ConfigModel, target: TargetModel) -> Option<Seq<char>> {
    match target {
        TargetModel::Pipeline(name) => if has_key(config.pipelines, name) {
            None
        } else {
            Some("unknown selected pipeline `"@ + name + "`"@)
        },
        TargetModel::Job(pipeline, job) => if !has_key(config.pipelines, pipeline) {
            Some("unknown selected pipeline `"@ + pipeline + "`"@)
        } else if !has_key(config.pipelines[position(config.pipelines, pipeline)].1.jobs, job) {
            Some("unknown selected job `"@ + pipeline + "::"@ + job + "`"@)
        } else {
            None
        },
    }
}

pub open spec fn target_problems(config: ConfigModel, targets: Seq<TargetModel>) -> spec_fn(
    int,
) -> Option<Seq<char>> {
    |i: int| target_problem(config, targets[i])
}

/// The first problem of a selection.
pub open spec fn selection_problem(config: ConfigModel, targets: Seq<TargetModel>) -> Option<
    Seq<char>,
> {
    first_problem(targets.len() as int, target_problems(config, targets))
}

fn list_contains(list: &Vec<String>, value: &str) -> (found: bool)
    ensures
        found == views(list@).contains(value@),
{
    let ghost all = views(list@);
    let mut i: usize = 0;
    while i < list.len()
        invariant
            i <= list.len(),
            all == views(list@),
            forall|k: int| 0 <= k < i ==> all[k] != value@,
        decreases list.len() - i,
    {
        if *list[i].as_str() == *value {
            proof {
                assert(all[i as int] == value@);
            }
            return true;
        }
        proof {
            assert(all[i as int] == list@[i as int]@);
        }
        i += 1;
    }
    false
}

impl PipelineSpec {
    fn push_triggered_jobs(&self, name: &str, hook: &str, selection: &mut Selection)
        ensures
            final(selection)@ == with_triggered_jobs(
                old(selection)@,
                name@,
                self@.jobs,
                hook@,
                self@.jobs.len() as int,
            ),
    {
        let ghost before = selection@;
        let count = job_count(&self.jobs);
        let mut j: usize = 0;
        while j < count
            invariant
                j <= count,
                count == self@.jobs.len(),
                count == job_entries(self.jobs).len(),
                selection@ == with_triggered_jobs(before, name@, self@.jobs, hook@, j as int),
            decreases count - j,
        {
            if let Some((job_name, job)) = job_at(&self.jobs, j) {
                proof {
                    assert(self@.jobs[j as int] == (job_name@, job@));
                }
                if list_contains(&job.triggers, hook) {
                    selection.push_job(name, job_name.as_str());
                }
            }
            j += 1;
        }
    }

    fn mentions_hook(&self, hook: &str) -> (found: bool)
        ensures
            found == (self@.triggers.contains(hook@) || exists|j: int|
                0 <= j < self@.jobs.len() && (#[trigger] self@.jobs[j]).1.triggers.contains(hook@)),
    {
        if list_contains(&self.triggers, hook) {
            return true;
        }
        let count = job_count(&self.jobs);
        let mut j: usize = 0;
        while j < count
            invariant
                j <= count,
                count == self@.jobs.len(),
                count == job_entries(self.jobs).len(),
                forall|k: int| 0 <= k < j ==> !(#[trigger] self@.jobs[k]).1.triggers.contains(hook@),
            decreases count - j,
        {
            if let Some((job_name, job)) = job_at(&self.jobs, j) {
                proof {
                    assert(self@.jobs[j as int] == (job_name@, job@));
                }
                if list_contains(&job.triggers, hook) {
                    return true;
                }
            }
            j += 1;
        }
        false
    }
}

impl PipelineConfig {
    /// The pipelines that command-line arguments name; without arguments the
    /// first one that is declared.
    pub fn select_pipelines(&self, arguments: &Vec<NativeText>) -> (result: Result<
        Selection,
        DefinitionError,
    >)
        requires
            arguments@.len() == 0 ==> self@.pipelines.len() > 0,
        ensures
            selects(self@, native_views(arguments@), result),
    {
        let ghost all = native_views(arguments@);
        let mut selection = Selection::new();
        if arguments.len() == 0 {
            let (name, _) = self.pipeline_by_position(0);
            return Ok(Selection::pipeline(name.as_str()));
        }
        proof {
            assert(decoded(all.take(0)) =~= seq![]);
            assert(distinct(decoded(all.take(0))) =~= seq![]);
            assert(selection@ =~= whole(distinct(decoded(all.take(0)))));
        }
        let mut i: usize = 0;
        while i < arguments.len()
            invariant
                i <= arguments.len(),
                all == native_views(arguments@),
                all_name_pipelines(self@, all.take(i as int)),
                selection@ == whole(distinct(decoded(all.take(i as int)))),
            decreases arguments.len() - i,
        {
            let ghost argument = all[i as int];
            proof {
                assert(argument == arguments@[i as int]@);
            }
            match arguments[i].to_text() {
                None => {
                    proof {
                        assert(!names_pipeline(self@, all[i as int]));
                    }
                    return Err(DefinitionError::NonUnicodeTarget(arguments[i].clone()));
                },
                Some(name) => {
                    if self.pipeline_position(name.as_str()).is_none() {
                        proof {
                            assert(!names_pipeline(self@, all[i as int]));
                        }
                        return Err(
                            invalid(concat3("unknown pipeline `", name.as_str(), "`")),
                        );
                    }
                    proof {
                        let seen = all.take(i as int);
                        let next = all.take(i as int + 1);
                        assert(names_pipeline(self@, argument));
                        assert(next =~= seen.push(argument));
                        assert(decoded(next) =~= decoded(seen).push(name@));
                        lemma_add_distinct(decoded(seen), name@);
                        assert forall|k: int| 0 <= k < next.len() implies names_pipeline(
                            self@,
                            #[trigger] next[k],
                        ) by {
                            if k < i {
                                assert(seen[k] == next[k]);
                            }
                        }
                    }
                    selection.push_pipeline(name.as_str());
                },
            }
            i += 1;
        }
        proof {
            assert(all.take(i as int) =~= all);
        }
        Ok(selection)
    }

    fn push_selectors(&self, selectors: &Vec<String>, selection: &mut Selection)
        requires
            old(selection)@ == Seq::<TargetModel>::empty(),
        ensures
            final(selection)@ == from_selectors(
                self@,
                views(selectors@),
                selectors.len() as int,
            ),
    {
        let ghost all = views(selectors@);
        let mut i: usize = 0;
        while i < selectors.len()
            invariant
                i <= selectors.len(),
                all == views(selectors@),
                selection@ == from_selectors(self@, all, i as int),
            decreases selectors.len() - i,
        {
            proof {
                assert(all[i as int] == selectors@[i as int]@);
            }
            match self.parse_selector(selectors[i].as_str()) {
                Ok(target) => selection.push_target(&target),
                Err(_) => {},
            }
            i += 1;
        }
    }

    /// What a hook runs. The selectors listed for the hook must be valid.
    pub fn selection_for_hook(&self, hook: &str) -> (result: Result<Selection, DefinitionError>)
        requires
            hook_problem(hook@) is None ==> valid_selectors(self@, selectors_for(self@, hook@)),
        ensures
            match hook_problem(hook@) {
                Some(text) => result matches Err(DefinitionError::Invalid(reason)) && reason@
                    == text,
                None => result matches Ok(selection) && selection@ == hook_selection(self@, hook@),
            },
    {
        match validate_hook(hook) {
            Ok(()) => {},
            Err(error) => {
                return Err(error);
            },
        }
        let mut selection = Selection::new();
        let listed = trigger_index(&self.triggers, hook);
        proof {
            assert(keys(self@.triggers) =~= keys(trigger_entries(self.triggers)));
            if let Some(i) = listed {
                lemma_only_key(trigger_entries(self.triggers), hook@, i as int);
            }
        }
        if let Some(index) = listed {
            if let Some((_, selectors)) = trigger_at(&self.triggers, index) {
                proof {
                    assert(selectors_for(self@, hook@) == views(selectors@));
                }
                self.push_selectors(selectors, &mut selection);
            }
        } else {
            proof {
                assert(selection@ =~= from_selectors(self@, seq![], 0));
            }
        }
        let ghost start = selection@;
        let count = self.pipeline_total();
        let mut i: usize = 0;
        while i < count
            invariant
                i <= count,
                count == self@.pipelines.len(),
                selection@ == with_triggered_pipelines(self@, start, hook@, i as int),
            decreases count - i,
        {
            let (name, pipeline) = self.pipeline_by_position(i);
            if list_contains(&pipeline.triggers, hook) {
                selection.push_pipeline(name.as_str());
            }
            pipeline.push_triggered_jobs(name.as_str(), hook, &mut selection);
            i += 1;
        }
        Ok(selection)
    }

    fn mentions_hook(&self, hook: &str) -> (found: bool)
        ensures
            found == declares(self@, hook@),
    {
        let listed = trigger_index(&self.triggers, hook);
        proof {
            assert(keys(self@.triggers) =~= keys(trigger_entries(self.triggers)));
            if let Some(i) = listed {
                lemma_only_key(trigger_entries(self.triggers), hook@, i as int);
            }
        }
        if listed.is_some() {
            return true;
        }
        let count = self.pipeline_total();
        let mut i: usize = 0;
        while i < count
            invariant
                i <= count,
                count == self@.pipelines.len(),
                !has_key(self@.triggers, hook@),
                forall|k: int| 0 <= k < i ==> !#[trigger] pipeline_declares(self@, hook@, k),
            decreases count - i,
        {
            let (_, pipeline) = self.pipeline_by_position(i);
            if pipeline.mentions_hook(hook) {
                proof {
                    assert(pipeline_declares(self@, hook@, i as int));
                }
                return true;
            }
            proof {
                assert(!pipeline_declares(self@, hook@, i as int));
            }
            i += 1;
        }
        false
    }

    /// The hooks that the definition asks for, in the documented order.
    pub fn managed_hooks(&self) -> (hooks: Vec<String>)
        ensures
            views(hooks@) == declared_hooks(self@),
    {
        let mut hooks: Vec<String> = Vec::new();
        proof {
            assert(views(hooks@) =~= declared_among(self@, 0));
        }
        let mut i: usize = 0;
        while i < SUPPORTED_HOOKS.len()
            invariant
                i <= SUPPORTED_HOOKS@.len(),
                views(hooks@) == declared_among(self@, i as int),
            decreases SUPPORTED_HOOKS@.len() - i,
        {
            let hook = SUPPORTED_HOOKS[i];
            proof {
                assert(supported_hooks()[i as int] == hook@);
            }
            if self.mentions_hook(hook) {
                let name = hook.to_owned();
                proof {
                    assert(views(hooks@.push(name)) =~= views(hooks@).push(name@));
                }
                hooks.push(name);
            }
            i += 1;
        }
        hooks
    }

    fn validate_target(&self, target: &SelectedTarget) -> (result: Result<(), DefinitionError>)
        ensures
            reports(result, target_problem(self@, target@)),
    {
        match target {
            SelectedTarget::Pipeline(name) => {
                if self.pipeline_position(name.as_str()).is_none() {
                    return Err(
                        invalid(concat3("unknown selected pipeline `", name.as_str(), "`")),
                    );
                }
            },
            SelectedTarget::Job(selector) => {
                let name = selector.pipeline.as_str();
                match self.pipeline_position(name) {
                    None => {
                        return Err(invalid(concat3("unknown selected pipeline `", name, "`")));
                    },
                    Some(index) => {
                        let (_, pipeline) = self.pipeline_by_position(index);
                        let job = selector.job.as_str();
                        if pipeline.job_position(job).is_none() {
                            return Err(
                                invalid(concat5("unknown selected job `", name, "::", job, "`")),
                            );
                        }
                    },
                }
            },
        }
        Ok(())
    }

    /// Checks that every selected target is part of the definition.
    pub fn validate_selection(&self, selection: &Selection) -> (result: Result<
        (),
        DefinitionError,
    >)
        ensures
            reports(result, selection_problem(self@, selection@)),
    {
        let ghost f = target_problems(self@, selection@);
        let mut i: usize = 0;
        while i < selection.targets.len()
            invariant
                i <= selection.targets.len(),
                f == target_problems(self@, selection@),
                first_problem(i as int, f) is None,
            decreases selection.targets.len() - i,
        {
            let checked = self.validate_target(&selection.targets[i]);
            proof {
                assert(f(i as int) == target_problem(self@, selection.targets@[i as int]@));
                if f(i as int) is Some {
                    lemma_problem_stays(i as int + 1, selection.targets.len() as int, f);
                }
            }
            if checked.is_err() {
                return checked;
            }
            i += 1;
        }
        Ok(())
    }
}

} // verus!
