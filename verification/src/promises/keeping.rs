//! What values tell of themselves, and what counts where nothing is said.

use crate::cli::{install_modes, job_limit, AddArgs, RunArgs};
use crate::definition::limits::JobLimit;
use crate::definition::model::PipelineConfig;
use crate::definition::project::{DefinitionKind, PreparedRun, Project, RunOptions, StdinSource};
use crate::definition::selection::Selection;
use crate::dispatch::candidates::{CandidatePhaseView, CandidateRun};
use crate::hooks::materialize::MaterializedTree;
use crate::hooks::repository::Repository;
use crate::hooks::request::InstallModes;
use crate::just_runtime::config::{RuntimeAttempt, RuntimeError};
use crate::just_runtime::version::JustVersion;
use crate::names::NameSet;
use crate::native::{HostPath, NativeText};
use crate::policy::{Policy, PolicyError};
use vstd::prelude::*;

verus! {

/// Two policies allow the same.
pub open spec fn same_policy(a: Policy, b: Policy) -> bool {
    &&& a.version == b.version
    &&& a.hooks.enabled == b.hooks.enabled
    &&& forall|hook: Seq<char>|
        a.hooks.disabled@.contains(hook) <==> #[trigger] b.hooks.disabled@.contains(hook)
    &&& a.hooks.incoming == b.hooks.incoming
    &&& a.hooks.trusted_ref is Some <==> b.hooks.trusted_ref is Some
    &&& a.hooks.trusted_ref is Some ==> a.hooks.trusted_ref->Some_0@
        == b.hooks.trusted_ref->Some_0@
    &&& a.hooks.parallel_refs == b.hooks.parallel_refs
    &&& a.hooks.missing_trigger == b.hooks.missing_trigger
    &&& a.runtime.container_fallback == b.runtime.container_fallback
}

/// Where no file says anything, the policy is the default one; it allows
/// everything.
pub proof fn without_files_the_default_policy_counts(
    policy: Policy,
    default: Policy,
    copy: Policy,
)
    requires
        call_ensures(
            Policy::from_layers,
            (None, None),
            Ok::<Policy, PolicyError>(policy),
        ),
        call_ensures(Policy::default, (), default),
        call_ensures(Policy::clone, (&default,), copy),
    ensures
        same_policy(policy, default),
        same_policy(copy, default),
        default.version == 1,
        default.hooks.enabled,
        default.hooks.parallel_refs,
        default.hooks.missing_trigger is Allow,
        default.hooks.incoming is Project,
        default.runtime.container_fallback,
{
    crate::promises::merging::merged_policies_are_agreed(
        None,
        None,
        Ok::<Policy, PolicyError>(policy),
    );
    assert forall|hook: Seq<char>|
        policy.hooks.disabled@.contains(hook) <==> #[trigger] default.hooks.disabled@.contains(
            hook,
        ) by {
        if policy.hooks.disabled@.contains(hook) {
            assert(crate::policy::disabled_by(None, None, hook));
        }
    }
}

/// Where no option is given, both executables are installed as it fits, and Just
/// runs as many jobs as it likes.
pub proof fn without_options_the_defaults_count(
    arguments: AddArgs,
    modes: InstallModes,
    default: InstallModes,
    run: RunArgs,
    limit: JobLimit,
    options: RunOptions,
)
    requires
        call_ensures(AddArgs::default, (), arguments),
        call_ensures(install_modes, (&arguments,), modes),
        call_ensures(InstallModes::default, (), default),
        call_ensures(RunArgs::default, (), run),
        call_ensures(job_limit, (run.jobs, run.cap_jobs), limit),
        call_ensures(RunOptions::default, (), options),
    ensures
        modes == default,
        limit == options.job_limit,
        options.no_deps == run.no_deps,
        options.arguments@.len() == run.arguments@.len(),
        options.environment@.len() == 0,
        options.working_directory is None,
        options.stdin is Inherit,
{
}

/// A run tells what is run, with which arguments, where, with which variables and
/// from which input.
pub proof fn runs_tell_what_they_run(
    run: &PreparedRun,
    program: &HostPath,
    arguments: &Vec<NativeText>,
    directory: &HostPath,
    environment: &Vec<(NativeText, NativeText)>,
    stdin: &StdinSource,
    i: int,
)
    requires
        call_ensures(PreparedRun::program, (run,), program),
        call_ensures(PreparedRun::arguments, (run,), arguments),
        call_ensures(PreparedRun::working_directory, (run,), directory),
        call_ensures(PreparedRun::environment, (run,), environment),
        call_ensures(PreparedRun::stdin, (run,), stdin),
    ensures
        run@.program == program@,
        run@.working_directory == directory@,
        run@.stdin == stdin@,
        run@.arguments.len() == arguments@.len(),
        run@.environment.len() == environment@.len(),
        0 <= i < arguments@.len() ==> run@.arguments[i] == arguments@[i]@,
        0 <= i < environment@.len() ==> run@.environment[i] == (
            environment@[i].0@,
            environment@[i].1@,
        ),
{
    let all = crate::native::native_views(arguments@);
    assert(all.len() == arguments@.len());
    if 0 <= i < arguments@.len() {
        assert(all[i] == arguments@[i]@);
    }
    let list = crate::definition::project::variable_views(environment@);
    assert(list.len() == environment@.len());
    if 0 <= i < environment@.len() {
        assert(list[i] == (environment@[i].0@, environment@[i].1@));
    }
}

/// A project tells its definition, its directory, and of which kind it is.
pub proof fn projects_tell_what_they_are(
    project: &Project,
    path: &HostPath,
    root: &HostPath,
    kind: DefinitionKind,
    yaml: Option<&PipelineConfig>,
    copy: Project,
)
    requires
        call_ensures(Project::path, (project,), path),
        call_ensures(Project::root, (project,), root),
        call_ensures(Project::kind, (project,), kind),
        call_ensures(Project::yaml, (project,), yaml),
        call_ensures(Project::clone, (project,), copy),
    ensures
        path@ == project@.path,
        root@ == project@.root,
        kind is Yaml <==> yaml is Some,
        kind is Pipelinefile <==> project@.config is None,
        yaml matches Some(config) ==> project@.config == Some(config@),
        copy@ == project@,
{
}

/// A copy of a repository is the same repository.
pub proof fn copied_repositories_are_the_same(repository: &Repository, copy: Repository)
    requires
        call_ensures(Repository::clone, (repository,), copy),
    ensures
        copy.git_dir@ == repository.git_dir@,
        copy.common_dir@ == repository.common_dir@,
        copy.invocation_dir@ == repository.invocation_dir@,
        copy.bare == repository.bare,
        copy.work_tree is Some <==> repository.work_tree is Some,
        repository.work_tree is Some ==> copy.work_tree->Some_0@ == repository.work_tree->Some_0@,
{
}

/// A tree tells where it is, and where its index is.
pub proof fn trees_tell_where_they_are(
    tree: &MaterializedTree,
    path: &HostPath,
    index: &HostPath,
)
    requires
        call_ensures(MaterializedTree::path, (tree,), path),
        call_ensures(MaterializedTree::index_path, (tree,), index),
    ensures
        path@ == tree.root@,
        index@ == tree.index@,
{
}

/// A set tells its names, and how many they are.
pub proof fn sets_tell_their_names(
    set: &NameSet,
    list: &Vec<String>,
    count: usize,
    empty: bool,
    copy: NameSet,
    i: int,
)
    requires
        call_ensures(NameSet::as_list, (set,), list),
        call_ensures(NameSet::len, (set,), count),
        call_ensures(NameSet::is_empty, (set,), empty),
        call_ensures(NameSet::clone, (set,), copy),
    ensures
        count == list@.len(),
        empty <==> count == 0,
        set@.len() == count,
        0 <= i < list@.len() ==> set@[i] == list@[i]@,
        copy@ == set@,
{
    let all = crate::text::views(list@);
    assert(all.len() == list@.len());
    if 0 <= i < list@.len() {
        assert(all[i] == list@[i]@);
    }
}

/// An unavailable Just tells every attempt.
pub proof fn unavailable_runtimes_tell_their_attempts(
    minimum: JustVersion,
    list: Vec<RuntimeAttempt>,
    reason: String,
    attempts: &[RuntimeAttempt],
    none: &[RuntimeAttempt],
)
    requires
        call_ensures(
            RuntimeError::attempts,
            (&RuntimeError::Unavailable { minimum_version: minimum, attempts: list },),
            attempts,
        ),
        call_ensures(RuntimeError::attempts, (&RuntimeError::Configuration(reason),), none),
    ensures
        attempts@ == list@,
        none@.len() == 0,
{
}

/// What a candidate selects is what is prepared for it.
pub proof fn candidates_are_prepared_with_their_selection(
    state: &CandidateRun,
    selection: Option<&Selection>,
    k: int,
)
    requires
        call_ensures(CandidateRun::selection, (state,), selection),
        state@.phase == CandidatePhaseView::Prepare(k),
    ensures
        selection is Some <==> state@.picked[k].selection is Some,
        selection matches Some(found) ==> state@.picked[k].selection == Some(found@),
{
}

} // verus!
