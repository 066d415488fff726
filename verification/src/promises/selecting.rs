//! What a hook runs.

use crate::definition::error::DefinitionError;
use crate::definition::model::{ConfigModel, PipelineConfig};
use crate::definition::project::{ControlBoundary, Preparation, Project, RunOptions};
use crate::definition::selection::{
    lemma_without_jobs, with_target, without_jobs, Selection, TargetModel,
};
use crate::definition::targets::{
    covered, declares, hook_selection, hook_selection_is_the_union_of_triggers,
    managed_hooks_are_the_declared_ones, pipeline_declares, selectors_for, triggered,
    triggered_by_pipeline,
};
use crate::dispatch::candidates::{hook_targets, picks, targets_of, CandidateRun, HookTargets};
use crate::dispatch::{declared_control_scope, hook_control_scope, ControlScope};
use crate::error::PipelineError;
use crate::hooks::{
    all_supported_hooks, is_supported_hook, supported_hook_list, supported_hooks, SUPPORTED_HOOKS,
};
use crate::names::NameSet;
use crate::native::{path_names, rooted, HostPath};
use crate::promises::compiling::names_are_distinct;
use crate::promises::validating::{
    has_job, has_pipeline, lemma_key, lemma_selector, proper_definition, stands_for,
};
use crate::text::views;
use vstd::prelude::*;

verus! {

/// The hooks of Git, as its manual lists them.
pub open spec fn git_hooks() -> Seq<Seq<char>> {
    seq![
        "applypatch-msg"@,
        "pre-applypatch"@,
        "post-applypatch"@,
        "pre-commit"@,
        "pre-merge-commit"@,
        "prepare-commit-msg"@,
        "commit-msg"@,
        "post-commit"@,
        "pre-rebase"@,
        "post-checkout"@,
        "post-merge"@,
        "pre-push"@,
        "pre-receive"@,
        "update"@,
        "proc-receive"@,
        "post-receive"@,
        "post-update"@,
        "reference-transaction"@,
        "push-to-checkout"@,
        "pre-auto-gc"@,
        "post-rewrite"@,
        "sendemail-validate"@,
        "fsmonitor-watchman"@,
        "p4-changelist"@,
        "p4-prepare-changelist"@,
        "p4-post-changelist"@,
        "p4-pre-submit"@,
        "post-index-change"@,
    ]
}

pub proof fn lemma_git_hooks()
    ensures
        supported_hooks() == git_hooks(),
{
    assert(git_hooks().len() == 28);
    assert(git_hooks()[0] == SUPPORTED_HOOKS@[0]@);
    assert(git_hooks()[1] == SUPPORTED_HOOKS@[1]@);
    assert(git_hooks()[2] == SUPPORTED_HOOKS@[2]@);
    assert(git_hooks()[3] == SUPPORTED_HOOKS@[3]@);
    assert(git_hooks()[4] == SUPPORTED_HOOKS@[4]@);
    assert(git_hooks()[5] == SUPPORTED_HOOKS@[5]@);
    assert(git_hooks()[6] == SUPPORTED_HOOKS@[6]@);
    assert(git_hooks()[7] == SUPPORTED_HOOKS@[7]@);
    assert(git_hooks()[8] == SUPPORTED_HOOKS@[8]@);
    assert(git_hooks()[9] == SUPPORTED_HOOKS@[9]@);
    assert(git_hooks()[10] == SUPPORTED_HOOKS@[10]@);
    assert(git_hooks()[11] == SUPPORTED_HOOKS@[11]@);
    assert(git_hooks()[12] == SUPPORTED_HOOKS@[12]@);
    assert(git_hooks()[13] == SUPPORTED_HOOKS@[13]@);
    assert(git_hooks()[14] == SUPPORTED_HOOKS@[14]@);
    assert(git_hooks()[15] == SUPPORTED_HOOKS@[15]@);
    assert(git_hooks()[16] == SUPPORTED_HOOKS@[16]@);
    assert(git_hooks()[17] == SUPPORTED_HOOKS@[17]@);
    assert(git_hooks()[18] == SUPPORTED_HOOKS@[18]@);
    assert(git_hooks()[19] == SUPPORTED_HOOKS@[19]@);
    assert(git_hooks()[20] == SUPPORTED_HOOKS@[20]@);
    assert(git_hooks()[21] == SUPPORTED_HOOKS@[21]@);
    assert(git_hooks()[22] == SUPPORTED_HOOKS@[22]@);
    assert(git_hooks()[23] == SUPPORTED_HOOKS@[23]@);
    assert(git_hooks()[24] == SUPPORTED_HOOKS@[24]@);
    assert(git_hooks()[25] == SUPPORTED_HOOKS@[25]@);
    assert(git_hooks()[26] == SUPPORTED_HOOKS@[26]@);
    assert(git_hooks()[27] == SUPPORTED_HOOKS@[27]@);
    assert(supported_hooks() =~= git_hooks());
}

/// The hooks that can be managed are those of Git.
pub proof fn gits_own_hooks_can_be_managed(
    name: &str,
    known: bool,
    list: Vec<String>,
    all: NameSet,
)
    requires
        call_ensures(is_supported_hook, (name,), known),
        call_ensures(supported_hook_list, (), list),
        call_ensures(all_supported_hooks, (), all),
    ensures
        known <==> git_hooks().contains(name@),
        views(list@) == git_hooks(),
        all@.contains(name@) <==> git_hooks().contains(name@),
{
    lemma_git_hooks();
}

/// The definition gives a hook this target: by a selector that it lists for the
/// hook, or because the pipeline or the job itself names the hook.
pub open spec fn gives(config: ConfigModel, hook: Seq<char>, target: TargetModel) -> bool {
    ||| exists|t: int, s: int| #[trigger] lists(config, hook, t, s, target)
    ||| exists|p: int| #[trigger] pipeline_asks(config, hook, p, target)
    ||| exists|p: int, j: int| #[trigger] job_asks(config, hook, p, j, target)
}

pub open spec fn lists(
    config: ConfigModel,
    hook: Seq<char>,
    t: int,
    s: int,
    target: TargetModel,
) -> bool {
    &&& 0 <= t < config.triggers.len()
    &&& config.triggers[t].0 == hook
    &&& 0 <= s < config.triggers[t].1.len()
    &&& stands_for(config, config.triggers[t].1[s], target)
}

pub open spec fn pipeline_asks(
    config: ConfigModel,
    hook: Seq<char>,
    p: int,
    target: TargetModel,
) -> bool {
    &&& 0 <= p < config.pipelines.len()
    &&& config.pipelines[p].1.triggers.contains(hook)
    &&& target == TargetModel::Pipeline(config.pipelines[p].0)
}

pub open spec fn job_asks(
    config: ConfigModel,
    hook: Seq<char>,
    p: int,
    j: int,
    target: TargetModel,
) -> bool {
    &&& 0 <= p < config.pipelines.len()
    &&& 0 <= j < config.pipelines[p].1.jobs.len()
    &&& config.pipelines[p].1.jobs[j].1.triggers.contains(hook)
    &&& target == TargetModel::Job(config.pipelines[p].0, config.pipelines[p].1.jobs[j].0)
}

/// A selection runs a target: by itself, or as part of its pipeline.
pub open spec fn runs_target(targets: Seq<TargetModel>, target: TargetModel) -> bool {
    ||| exists|i: int| 0 <= i < targets.len() && #[trigger] targets[i] == target
    ||| target matches TargetModel::Job(pipeline, job) && exists|i: int|
        0 <= i < targets.len() && #[trigger] targets[i] == TargetModel::Pipeline(pipeline)
}

/// Hooks are listed once each.
pub open spec fn hooks_are_distinct(config: ConfigModel) -> bool {
    forall|s: int, t: int|
        0 <= s < t < config.triggers.len() ==> (#[trigger] config.triggers[s]).0 != (
        #[trigger] config.triggers[t]).0
}

proof fn lemma_gives(config: ConfigModel, hook: Seq<char>, target: TargetModel)
    requires
        names_are_distinct(config),
        hooks_are_distinct(config),
        proper_definition(config),
    ensures
        gives(config, hook, target) <==> triggered(config, hook, target),
{
    crate::definition::model::lemma_position(config.triggers, hook);
    let at = crate::definition::model::position(config.triggers, hook);
    lemma_key(config.triggers, hook);
    if exists|t: int, s: int| #[trigger] lists(config, hook, t, s, target) {
        let (t, s) = choose|t: int, s: int| #[trigger] lists(config, hook, t, s, target);
        assert(config.triggers[t].0 == hook);
        if t < at {
            assert(config.triggers[t].0 != config.triggers[at].0);
        }
        if at < t {
            assert(config.triggers[at].0 != config.triggers[t].0);
        }
        lemma_selector(config, config.triggers[t].1[s], target);
        assert(selectors_for(config, hook)[s] == config.triggers[t].1[s]);
    }
    if exists|p: int| #[trigger] pipeline_asks(config, hook, p, target) {
        let p = choose|p: int| #[trigger] pipeline_asks(config, hook, p, target);
        assert(triggered_by_pipeline(config, hook, target, p));
    }
    if exists|p: int, j: int| #[trigger] job_asks(config, hook, p, j, target) {
        let (p, j) = choose|p: int, j: int| #[trigger] job_asks(config, hook, p, j, target);
        assert(config.pipelines[p].1.jobs[j].1.triggers.contains(hook));
        assert(triggered_by_pipeline(config, hook, target, p));
    }
    if triggered(config, hook, target) {
        let listed = selectors_for(config, hook);
        if exists|i: int|
            0 <= i < listed.len() && crate::definition::check::selected_target(
                config,
                #[trigger] listed[i],
            ) == Ok::<TargetModel, Seq<char>>(target) {
            let i = choose|i: int|
                0 <= i < listed.len() && crate::definition::check::selected_target(
                    config,
                    #[trigger] listed[i],
                ) == Ok::<TargetModel, Seq<char>>(target);
            lemma_selector(config, listed[i], target);
            assert(lists(config, hook, at, i, target));
        } else {
            let p = choose|p: int| #[trigger] triggered_by_pipeline(config, hook, target, p);
            if config.pipelines[p].1.triggers.contains(hook) && target == TargetModel::Pipeline(
                config.pipelines[p].0,
            ) {
                assert(pipeline_asks(config, hook, p, target));
            } else {
                let j = choose|j: int|
                    0 <= j < config.pipelines[p].1.jobs.len() && (
                    #[trigger] config.pipelines[p].1.jobs[j]).1.triggers.contains(hook) && target
                        == TargetModel::Job(config.pipelines[p].0, config.pipelines[p].1.jobs[j].0);
                assert(job_asks(config, hook, p, j, target));
            }
        }
    }
}

/// A hook of Git runs everything that the definition gives it, and nothing else.
/// Nothing is listed twice, and no job beside its whole pipeline. A name that is
/// no hook of Git is refused.
pub proof fn hooks_run_what_the_definition_gives_them(
    project: &Project,
    hook: &str,
    config: ConfigModel,
    result: Result<Selection, DefinitionError>,
    target: TargetModel,
    s: int,
    t: int,
)
    requires
        project@.config == Some(config),
        names_are_distinct(config),
        hooks_are_distinct(config),
        proper_definition(config),
        call_ensures(Project::selection_for_hook, (project, hook), result),
    ensures
        result is Ok <==> git_hooks().contains(hook@),
        result matches Ok(selection) ==> {
            let targets = selection@;
            &&& gives(config, hook@, target) ==> runs_target(targets, target)
            &&& 0 <= s < targets.len() ==> gives(config, hook@, targets[s])
            &&& 0 <= s < targets.len() && 0 <= t < targets.len() && s != t ==> targets[s]
                != targets[t] && !(targets[s] matches TargetModel::Job(pipeline, job) && targets[t]
                == TargetModel::Pipeline(pipeline))
        },
{
    lemma_git_hooks();
    hook_selection_is_the_union_of_triggers(config, hook@);
    lemma_gives(config, hook@, target);
    if let Ok(selection) = result {
        let targets = selection@;
        assert(targets == hook_selection(config, hook@));
        if gives(config, hook@, target) {
            assert(covered(targets, target));
        }
        if 0 <= s < targets.len() {
            assert(targets.contains(targets[s]));
            lemma_gives(config, hook@, targets[s]);
        }
        if 0 <= s < targets.len() && 0 <= t < targets.len() && s != t {
            assert(targets.contains(targets[t]));
            assert(targets.contains(targets[s]));
        }
    }
}

/// A hook is mentioned: a list stands under its name, or a pipeline or a job
/// names it.
pub open spec fn mentions(config: ConfigModel, hook: Seq<char>) -> bool {
    ||| exists|t: int| 0 <= t < config.triggers.len() && (#[trigger] config.triggers[t]).0 == hook
    ||| exists|p: int, target: TargetModel| #[trigger] pipeline_asks(config, hook, p, target)
    ||| exists|p: int, j: int, target: TargetModel| #[trigger] job_asks(config, hook, p, j, target)
}

proof fn lemma_mentions(config: ConfigModel, hook: Seq<char>)
    ensures
        mentions(config, hook) <==> declares(config, hook),
{
    lemma_key(config.triggers, hook);
    if exists|p: int, target: TargetModel| #[trigger] pipeline_asks(config, hook, p, target) {
        let (p, target) = choose|p: int, target: TargetModel| #[trigger]
            pipeline_asks(config, hook, p, target);
        assert(pipeline_declares(config, hook, p));
    }
    if exists|p: int, j: int, target: TargetModel| #[trigger] job_asks(config, hook, p, j, target) {
        let (p, j, target) = choose|p: int, j: int, target: TargetModel| #[trigger]
            job_asks(config, hook, p, j, target);
        assert(config.pipelines[p].1.jobs[j].1.triggers.contains(hook));
        assert(pipeline_declares(config, hook, p));
    }
    if exists|p: int| #[trigger] pipeline_declares(config, hook, p) {
        let p = choose|p: int| #[trigger] pipeline_declares(config, hook, p);
        if config.pipelines[p].1.triggers.contains(hook) {
            assert(pipeline_asks(
                config,
                hook,
                p,
                TargetModel::Pipeline(config.pipelines[p].0),
            ));
        } else {
            let j = choose|j: int|
                0 <= j < config.pipelines[p].1.jobs.len() && (
                #[trigger] config.pipelines[p].1.jobs[j]).1.triggers.contains(hook);
            assert(job_asks(
                config,
                hook,
                p,
                j,
                TargetModel::Job(config.pipelines[p].0, config.pipelines[p].1.jobs[j].0),
            ));
        }
    }
}

/// A project handles the hooks of Git that its definition mentions, or all of
/// them if it is a Pipelinefile.
pub proof fn projects_handle_what_they_mention(
    project: &Project,
    hooks: Vec<String>,
    hook: Seq<char>,
    scope: ControlScope,
)
    requires
        call_ensures(Project::managed_hooks, (project,), hooks),
        call_ensures(declared_control_scope, (project,), scope),
    ensures
        project@.config is None ==> views(hooks@) == git_hooks(),
        project@.config matches Some(config) ==> (views(hooks@).contains(hook)
            <==> git_hooks().contains(hook) && mentions(config, hook)),
        scope is Definition <==> hooks@.len() == 0,
{
    lemma_git_hooks();
    assert(views(hooks@).len() == hooks@.len());
    if let Some(config) = project@.config {
        managed_hooks_are_the_declared_ones(config, hook);
        lemma_mentions(config, hook);
    } else {
        assert(git_hooks().len() == 28);
    }
}

/// All that a hook would load is controlled where it runs something; otherwise
/// only the definition is.
pub proof fn hooks_that_run_nothing_control_the_definition(
    project: &Project,
    hook: &str,
    result: Result<ControlScope, PipelineError>,
    selection: Result<Selection, DefinitionError>,
)
    requires
        call_ensures(hook_control_scope, (project, hook), result),
        call_ensures(Project::selection_for_hook, (project, hook), selection),
    ensures
        project@.config is None ==> result == Ok::<ControlScope, PipelineError>(
            ControlScope::Everything,
        ),
        project@.config is Some && selection is Err ==> result is Err,
        project@.config is Some && selection is Ok ==> result == Ok::<ControlScope, PipelineError>(
            if selection->Ok_0@.len() == 0 {
                ControlScope::Definition
            } else {
                ControlScope::Everything
            },
        ),
{
}

/// Every target of a selection is part of the definition.
pub open spec fn all_exist(config: ConfigModel, targets: Seq<TargetModel>) -> bool {
    forall|i: int| 0 <= i < targets.len() ==> exists_in(config, #[trigger] targets[i])
}

pub open spec fn exists_in(config: ConfigModel, target: TargetModel) -> bool {
    match target {
        TargetModel::Pipeline(name) => has_pipeline(config, name),
        TargetModel::Job(name, job) => exists|p: int|
            0 <= p < config.pipelines.len() && (#[trigger] config.pipelines[p]).0 == name
                && has_job(config.pipelines[p].1, job),
    }
}

proof fn lemma_exists_in(config: ConfigModel, target: TargetModel)
    requires
        names_are_distinct(config),
    ensures
        exists_in(config, target) <==> crate::definition::targets::target_problem(config, target)
            is None,
{
    match target {
        TargetModel::Pipeline(name) => {
            lemma_key(config.pipelines, name);
        },
        TargetModel::Job(name, job) => {
            lemma_key(config.pipelines, name);
            crate::definition::model::lemma_position(config.pipelines, name);
            let at = crate::definition::model::position(config.pipelines, name);
            if crate::definition::model::has_key(config.pipelines, name) {
                lemma_key(config.pipelines[at].1.jobs, job);
                if exists_in(config, target) {
                    let p = choose|p: int|
                        0 <= p < config.pipelines.len() && (#[trigger] config.pipelines[p]).0
                            == name && has_job(config.pipelines[p].1, job);
                    let all = crate::definition::model::keys(config.pipelines);
                    assert(all[p] == all[at]);
                }
            }
        },
    }
}

/// A selection is valid exactly if everything that it selects exists.
pub proof fn selections_must_exist(
    config: &PipelineConfig,
    selection: &Selection,
    result: Result<(), DefinitionError>,
)
    requires
        names_are_distinct(config@),
        call_ensures(PipelineConfig::validate_selection, (config, selection), result),
    ensures
        result is Ok <==> all_exist(config@, selection@),
{
    let f = crate::definition::targets::target_problems(config@, selection@);
    let n = selection@.len() as int;
    assert forall|i: int| 0 <= i < n implies (f(i) is None <==> exists_in(
        config@,
        #[trigger] selection@[i],
    )) by {
        lemma_exists_in(config@, selection@[i]);
    }
    lemma_first_problem(n, f);
    if all_exist(config@, selection@) {
        assert forall|i: int| 0 <= i < n implies #[trigger] f(i) is None by {
            assert(exists_in(config@, selection@[i]));
        }
    }
    if forall|i: int| 0 <= i < n ==> #[trigger] f(i) is None {
        assert forall|i: int| 0 <= i < n implies exists_in(config@, #[trigger] selection@[i]) by {
            assert(f(i) is None);
        }
    }
}

proof fn lemma_first_problem(n: int, f: spec_fn(int) -> Option<Seq<char>>)
    requires
        0 <= n,
    ensures
        crate::definition::error::first_problem(n, f) is None <==> forall|i: int|
            0 <= i < n ==> #[trigger] f(i) is None,
    decreases n,
{
    if n > 0 {
        lemma_first_problem(n - 1, f);
    }
}

/// A whole pipeline takes the place of its jobs, and leaves everything else.
pub proof fn pipelines_take_the_place_of_their_jobs(
    targets: Seq<TargetModel>,
    pipeline: Seq<char>,
    target: TargetModel,
)
    ensures
        ({
            let all = with_target(targets, TargetModel::Pipeline(pipeline));
            let whole = TargetModel::Pipeline(pipeline);
            let part = target matches TargetModel::Job(owner, job) && owner == pipeline;
            &&& all.contains(whole)
            &&& target != whole ==> (all.contains(target) <==> targets.contains(target) && !part)
        }),
{
    lemma_without_jobs(targets, pipeline);
    let whole = TargetModel::Pipeline(pipeline);
    let kept = without_jobs(targets, pipeline);
    let all = with_target(targets, whole);
    if !kept.contains(whole) {
        assert(all[kept.len() as int] == whole);
        if kept.contains(target) {
            let i = choose|i: int| 0 <= i < kept.len() && kept[i] == target;
            assert(all[i] == target);
        }
        if all.contains(target) && target != whole {
            let i = choose|i: int| 0 <= i < all.len() && all[i] == target;
            assert(kept[i] == target);
        }
    }
}

/// A job is added behind what is there, unless it or its whole pipeline is there.
pub proof fn jobs_are_added_once(
    targets: Seq<TargetModel>,
    pipeline: Seq<char>,
    job: Seq<char>,
    i: int,
)
    ensures
        ({
            let all = with_target(targets, TargetModel::Job(pipeline, job));
            let there = runs_target(targets, TargetModel::Job(pipeline, job));
            &&& there ==> all == targets
            &&& !there ==> all.len() == targets.len() + 1 && all.last() == TargetModel::Job(
                pipeline,
                job,
            )
            &&& 0 <= i < targets.len() ==> all[i] == targets[i]
        }),
{
    let wanted = TargetModel::Job(pipeline, job);
    let whole = TargetModel::Pipeline(pipeline);
    if targets.contains(wanted) {
        let k = choose|k: int| 0 <= k < targets.len() && targets[k] == wanted;
        assert(targets[k] == wanted);
    }
    if targets.contains(whole) {
        let k = choose|k: int| 0 <= k < targets.len() && targets[k] == whole;
        assert(targets[k] == whole);
    }
}

/// A selection starts with nothing, with a pipeline or with a job.
pub proof fn selections_start_with_what_they_name(
    name: &str,
    job: &str,
    nothing: Selection,
    pipeline: Selection,
    one: Selection,
    empty: bool,
)
    requires
        call_ensures(Selection::new, (), nothing),
        call_ensures(Selection::pipeline, (name,), pipeline),
        call_ensures(Selection::job, (name, job), one),
        call_ensures(Selection::is_empty, (&nothing,), empty),
    ensures
        empty,
        nothing@.len() == 0,
        pipeline@.len() == 1 && pipeline@[0] == TargetModel::Pipeline(name@),
        one@.len() == 1 && one@[0] == TargetModel::Job(name@, job@),
{
}

/// Arguments select what they would run.
pub proof fn arguments_select_what_they_run(
    project: &Project,
    just: &HostPath,
    options: &RunOptions,
    prepared: Result<Preparation, DefinitionError>,
    selected: Result<Selection, DefinitionError>,
)
    requires
        project@.config is Some,
        call_ensures(Project::prepare, (project, just, options), prepared),
        call_ensures(Project::select, (project, &options.arguments), selected),
    ensures
        prepared is Ok <==> selected is Ok,
        selected matches Ok(selection) ==> (prepared matches Ok(Preparation::Render(other))
            && other@ == selection@),
{
    let all = crate::native::native_views(options.arguments@);
    let config = project@.config->Some_0;
    if crate::definition::targets::all_name_pipelines(config, all) {
        assert forall|i: int| 0 <= i < all.len() implies crate::definition::targets::names_pipeline(
            config,
            #[trigger] all[i],
        ) by {}
    }
}

/// The control files of a project are its definition and, for YAML, its Justfile.
pub proof fn projects_are_controlled_by_their_files(
    project: &Project,
    justfile: Option<Result<HostPath, DefinitionError>>,
    result: Result<Vec<HostPath>, DefinitionError>,
)
    requires
        project@.config is Some ==> justfile is Some,
        call_ensures(Project::control_paths, (project, justfile), result),
    ensures
        project@.config is None ==> (result matches Ok(list) && list@.len() == 1 && list@[0]@
            == project@.path),
        project@.config is Some && justfile->Some_0 is Ok ==> (result matches Ok(list)
            && list@.len() == 2 && list@[0]@ == project@.path && list@[1]@
            == justfile->Some_0->Ok_0@),
        project@.config is Some && justfile->Some_0 is Err ==> result is Err,
{
    if let Ok(list) = result {
        let all = crate::native::path_views(list@);
        assert(all.len() == list@.len());
        assert(all[0] == list@[0]@);
        if project@.config is Some {
            assert(all[1] == list@[1]@);
        }
    }
}

/// A path lies in a directory: its components begin with those of the directory.
pub open spec fn lies_in(path: Seq<u8>, directory: Seq<u8>) -> bool {
    path_names(path).len() >= path_names(directory).len() && forall|i: int|
        0 <= i < path_names(directory).len() ==> path_names(path)[i] == #[trigger] path_names(
            directory,
        )[i]
}

/// The control files are the definition and, for YAML, the Justfile. The
/// definition lies in the boundary, as it is written and as it resolves.
pub proof fn control_files_stay_in_their_boundary(
    project: &Project,
    boundary: &ControlBoundary,
    justfile: Option<Result<HostPath, DefinitionError>>,
    result: Result<Vec<HostPath>, DefinitionError>,
    definition: Result<HostPath, DefinitionError>,
)
    requires
        project@.config is Some ==> justfile is Some,
        rooted(project@.path),
        rooted(boundary.root@),
        boundary.resolved matches Ok(target) ==> rooted(target@),
        call_ensures(
            Project::control_paths_with_boundary,
            (project, boundary, justfile),
            result,
        ),
        call_ensures(Project::definition_path_with_boundary, (project, boundary), definition),
    ensures
        ({
            let inside = lies_in(project@.path, boundary.root@) && boundary.resolved is Ok
                && lies_in(boundary.resolved->Ok_0@, boundary.root@);
            &&& definition is Ok <==> inside
            &&& definition matches Ok(path) ==> path@ == project@.path
            &&& result is Ok <==> inside && (project@.config is Some ==> justfile->Some_0 is Ok)
            &&& result matches Ok(list) ==> {
                &&& list@.len() == (if project@.config is Some {
                    2int
                } else {
                    1
                })
                &&& list@[0]@ == project@.path
                &&& project@.config is Some ==> list@[1]@ == justfile->Some_0->Ok_0@
            }
        }),
{
    lemma_lies_in(project@.path, boundary.root@);
    if let Ok(target) = boundary.resolved {
        lemma_lies_in(target@, boundary.root@);
    }
    if let Ok(list) = result {
        let all = crate::native::path_views(list@);
        assert(all.len() == list@.len());
        assert(all[0] == list@[0]@);
        if project@.config is Some {
            assert(all[1] == list@[1]@);
        }
    }
}

pub proof fn lemma_lies_in(path: Seq<u8>, directory: Seq<u8>)
    requires
        rooted(path),
        rooted(directory),
    ensures
        crate::native::path_within(path, directory) <==> lies_in(path, directory),
{
    let names = path_names(path);
    let wanted = path_names(directory);
    if lies_in(path, directory) {
        assert(wanted =~= names.take(wanted.len() as int));
    }
    if wanted.is_prefix_of(names) {
        assert forall|i: int| 0 <= i < wanted.len() implies names[i] == #[trigger] wanted[i] by {
            assert(names.take(wanted.len() as int)[i] == wanted[i]);
        }
    }
}

/// The candidates of a run are the projects that have something for the hook, in
/// order, each with what it selects. A project that fails, fails the run.
pub proof fn candidates_have_something_to_run(
    hook: &str,
    missing_allowed: bool,
    projects: &Vec<&Project>,
    state: CandidateRun,
    i: int,
    targets: Result<HookTargets, PipelineError>,
    result: Result<i32, PipelineError>,
)
    requires
        call_ensures(CandidateRun::new, (hook, missing_allowed, projects), state),
        0 <= i < projects@.len(),
        call_ensures(hook_targets, (projects@[i], hook, missing_allowed), targets),
        targets is Err ==> call_ensures(CandidateRun::finish, (state,), result),
    ensures
        targets is Err ==> state@.phase is Failed && result is Err,
        targets is Ok && !(targets->Ok_0 is Nothing) && !(state@.phase is Failed) ==> exists|k: int|
            0 <= k < state@.picked.len() && (#[trigger] state@.picked[k]).candidate == i && (
            targets->Ok_0 matches HookTargets::Selected(selection) ==> state@.picked[k].selection
                == Some(selection@)) && (targets->Ok_0 is Recipe ==> state@.picked[k].selection
                is None),
        targets is Ok && targets->Ok_0 is Nothing ==> forall|k: int|
            0 <= k < state@.picked.len() ==> (#[trigger] state@.picked[k]).candidate != i,
{
    let all = crate::dispatch::candidates::project_views(projects@);
    assert(all[i] == projects@[i]@);
    lemma_picks(all, hook@, missing_allowed, i, all.len() as int);
}

proof fn lemma_picks(
    projects: Seq<crate::definition::project::ProjectModel>,
    hook: Seq<char>,
    missing_allowed: bool,
    i: int,
    n: int,
)
    requires
        0 <= i < projects.len(),
        0 <= n <= projects.len(),
    ensures
        i < n && targets_of(projects[i], hook, missing_allowed) is Err ==> picks(
            projects,
            hook,
            missing_allowed,
            n,
        ) is Err,
        picks(projects, hook, missing_allowed, n) matches Ok(list) ==> {
            &&& i < n && !(targets_of(projects[i], hook, missing_allowed)->Ok_0 is Nothing)
                ==> exists|k: int|
                0 <= k < list.len() && (#[trigger] list[k]).candidate == i && (targets_of(
                    projects[i],
                    hook,
                    missing_allowed,
                )->Ok_0 matches crate::dispatch::candidates::TargetsView::Selected(selection)
                    ==> list[k].selection == Some(selection)) && (targets_of(
                    projects[i],
                    hook,
                    missing_allowed,
                )->Ok_0 is Recipe ==> list[k].selection is None)
            &&& targets_of(projects[i], hook, missing_allowed)->Ok_0 is Nothing || n <= i
                ==> forall|k: int| 0 <= k < list.len() ==> (#[trigger] list[k]).candidate != i
        },
    decreases n,
{
    if n > 0 {
        lemma_picks(projects, hook, missing_allowed, i, n - 1);
        if let Ok(list) = picks(projects, hook, missing_allowed, n) {
            let front = picks(projects, hook, missing_allowed, n - 1)->Ok_0;
            let here = targets_of(projects[i], hook, missing_allowed)->Ok_0;
            if i == n - 1 && !(here is Nothing) {
                assert(list[front.len() as int].candidate == i);
            }
            if i < n - 1 && !(here is Nothing) {
                let k = choose|k: int|
                    0 <= k < front.len() && (#[trigger] front[k]).candidate == i && (
                    here matches crate::dispatch::candidates::TargetsView::Selected(selection)
                        ==> front[k].selection == Some(selection)) && (here is Recipe
                        ==> front[k].selection is None);
                assert(list[k] == front[k]);
            }
            if here is Nothing || n <= i {
                assert forall|k: int| 0 <= k < list.len() implies (
                #[trigger] list[k]).candidate != i by {
                    if k < front.len() {
                        assert(list[k] == front[k]);
                    }
                }
            }
        }
    }
}

} // verus!
