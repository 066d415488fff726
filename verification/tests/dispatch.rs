use indexmap::IndexMap;
use pipeline::definition::error::DefinitionError;
use pipeline::definition::model::{JobSpec, PipelineConfig, PipelineSpec};
use pipeline::definition::project::{
    ControlBoundary, DefinitionFile, DefinitionKind, Project, StdinSource, YamlContents,
};
use pipeline::definition::search::{found_justfile, FileFacts};
use pipeline::definition::selection::Selection;
use pipeline::dispatch::candidates::{
    candidate_options, hook_targets, hook_trigger, CandidateReply, CandidateRun, CandidateStep,
    HookTargets, Trigger,
};
use pipeline::dispatch::execute::{ExecuteReply, ExecuteStep, Execution};
use pipeline::dispatch::input::{
    check_ref_input, update_from_arguments, update_from_checkout, update_references, update_source,
    updates_from_refs, UpdateSource,
};
use pipeline::dispatch::manage::{
    needs_declared, AddReply, AddStep, Addition, Declaration, DeclareReply, DeclareStep,
};
use pipeline::dispatch::receive::{
    receive_success, Acceptance, Chosen, ReceiveReply, ReceiveRun, ReceiveStep,
};
use pipeline::dispatch::single::{
    hook_route, HookRoute, HookRun, RunReply, RunStep,
};
use pipeline::dispatch::{
    add_commit_environment, add_git_environment, add_ref_environment, added_message, combined_code,
    declared_control_scope, discover_optional, exit_code, hook_control_scope, hook_query,
    incoming_environment, install_fallback, missing_trigger, pipelinefile_has_hook,
    removed_message, runs_together, verify_tracked_paths, ControlScope,
};
use pipeline::error::PipelineError;
use pipeline::hooks::error::HookError;
use pipeline::hooks::repository::Repository;
use pipeline::hooks::request::{HookSelection, InstallMode, InstallModes};
use pipeline::just_runtime::command::CommandOutput;
use pipeline::names::NameSet;
use pipeline::native::{HostPath, NativeText};
use pipeline::policy::{IncomingPolicy, MissingTriggerPolicy, Policy, PolicyError};

fn path(text: &str) -> HostPath {
    HostPath::from_text(text)
}

fn native(words: &[&str]) -> Vec<NativeText> {
    words.iter().map(|word| NativeText::from_text(word)).collect()
}

fn message(error: PipelineError) -> String {
    error.message()
}

fn project(hooks: &[&str]) -> Project {
    let mut jobs = IndexMap::new();
    jobs.insert(
        "build".to_owned(),
        JobSpec {
            just: "build".to_owned(),
            needs: Vec::new(),
            triggers: Vec::new(),
        },
    );
    let mut pipelines = IndexMap::new();
    pipelines.insert(
        "check".to_owned(),
        PipelineSpec {
            needs: Vec::new(),
            triggers: Vec::new(),
            jobs,
        },
    );
    let mut triggers = IndexMap::new();
    for hook in hooks {
        triggers.insert((*hook).to_owned(), vec!["check".to_owned()]);
    }
    open(
        "pipeline.yml",
        DefinitionKind::Yaml,
        Some(YamlContents::Parsed(PipelineConfig {
            version: 1,
            triggers,
            pipelines,
        })),
    )
}

fn open(name: &str, kind: DefinitionKind, contents: Option<YamlContents>) -> Project {
    let file = DefinitionFile {
        path: path("/root").join(name),
        root: path("/root"),
        kind,
    };
    Project::open(file, contents).ok().unwrap()
}

fn pipelinefile() -> Project {
    open("Pipelinefile", DefinitionKind::Pipelinefile, None)
}

fn repository(work_tree: Option<&str>) -> Repository {
    Repository {
        invocation_dir: path("/w"),
        git_dir: path("/w/.git"),
        common_dir: path("/w/.git"),
        work_tree: work_tree.map(path),
        bare: work_tree.is_none(),
    }
}

fn policy(incoming: IncomingPolicy, missing_trigger: MissingTriggerPolicy) -> Policy {
    let mut policy = Policy::default();
    policy.hooks.incoming = incoming;
    policy.hooks.missing_trigger = missing_trigger;
    if incoming == IncomingPolicy::Trusted {
        policy.hooks.trusted_ref = Some("refs/heads/policy".to_owned());
    }
    policy
}

fn shown(variables: &[(NativeText, NativeText)]) -> Vec<String> {
    variables
        .iter()
        .map(|(name, value)| format!("{}={}", name.shown(), value.shown()))
        .collect()
}

#[test]
fn yaml_without_a_hook_trigger_does_not_require_a_justfile() {
    let boundary = ControlBoundary {
        root: path("/root"),
        resolved: Ok(path("/root/pipeline.yml")),
    };
    let untriggered = project(&[]);
    assert_eq!(
        hook_control_scope(&untriggered, "pre-commit").unwrap(),
        ControlScope::Definition
    );
    assert_eq!(
        untriggered.definition_path_with_boundary(&boundary).ok().unwrap(),
        path("/root/pipeline.yml")
    );

    let triggered = project(&["pre-commit"]);
    assert_eq!(
        hook_control_scope(&triggered, "pre-commit").unwrap(),
        ControlScope::Everything
    );
    let facts = FileFacts {
        is_file: Ok(false),
        resolved: Ok(path("/root")),
    };
    let justfile = found_justfile(triggered.root(), None, &facts, Some(&path("/root")));
    assert!(matches!(
        triggered.control_paths_with_boundary(&boundary, Some(justfile)),
        Err(DefinitionError::JustfileNotFound { .. })
    ));
}

#[test]
fn control_scopes_follow_the_triggers() {
    assert_eq!(
        hook_control_scope(&pipelinefile(), "anything").unwrap(),
        ControlScope::Everything
    );
    assert!(hook_control_scope(&project(&[]), "anything").is_err());
    assert_eq!(declared_control_scope(&project(&[])), ControlScope::Definition);
    assert_eq!(
        declared_control_scope(&project(&["update"])),
        ControlScope::Everything
    );
    assert_eq!(
        declared_control_scope(&pipelinefile()),
        ControlScope::Everything
    );
}

#[test]
fn exit_codes_include_signals() {
    assert_eq!(exit_code(Some(7), None), 7);
    assert_eq!(exit_code(None, Some(9)), 137);
    assert_eq!(exit_code(None, None), 129);
}

#[test]
fn missing_triggers_follow_the_policy() {
    let lenient = policy(IncomingPolicy::Project, MissingTriggerPolicy::Allow);
    let strict = policy(IncomingPolicy::Project, MissingTriggerPolicy::Deny);
    assert_eq!(missing_trigger(&lenient, "update").unwrap(), 0);
    assert_eq!(
        message(missing_trigger(&strict, "update").unwrap_err()),
        "no Pipeline trigger is declared for Git hook `update`"
    );
}

#[test]
fn recipes_learn_about_git_and_the_push() {
    let mut environment = Vec::new();
    add_git_environment(&mut environment, &repository(None), &path("/t"), None);
    assert_eq!(
        shown(&environment),
        ["GIT_DIR=/w/.git", "GIT_COMMON_DIR=/w/.git", "GIT_WORK_TREE=/t"]
    );
    let mut environment = Vec::new();
    add_ref_environment(&mut environment, &vec!["a".to_owned(), "b".to_owned()]);
    add_commit_environment(&mut environment, "c0ffee");
    add_git_environment(
        &mut environment,
        &repository(None),
        &path("/t"),
        Some(&path("/i")),
    );
    assert_eq!(
        shown(&environment),
        [
            "PIPELINE_REF_COUNT=2",
            "PIPELINE_REF_0=a",
            "PIPELINE_REF_1=b",
            "PIPELINE_COMMIT=c0ffee",
            "GIT_DIR=/w/.git",
            "GIT_COMMON_DIR=/w/.git",
            "GIT_WORK_TREE=/t",
            "GIT_INDEX_FILE=/i",
            "GIT_LFS_SKIP_SMUDGE=1"
        ]
    );
}

#[test]
fn incoming_recipes_see_the_hook_and_the_push() {
    let base = vec![(
        NativeText::from_text("PIPELINE_HOOK"),
        NativeText::from_text("update"),
    )];
    let environment = incoming_environment(
        &base,
        &vec!["refs/x".to_owned()],
        "c0ffee",
        &repository(None),
        &path("/t"),
        &path("/i"),
    );
    assert_eq!(
        shown(&environment),
        [
            "PIPELINE_HOOK=update",
            "PIPELINE_REF_COUNT=1",
            "PIPELINE_REF_0=refs/x",
            "PIPELINE_COMMIT=c0ffee",
            "GIT_DIR=/w/.git",
            "GIT_COMMON_DIR=/w/.git",
            "GIT_WORK_TREE=/t",
            "GIT_INDEX_FILE=/i",
            "GIT_LFS_SKIP_SMUDGE=1"
        ]
    );
}

#[test]
fn just_is_asked_for_a_hook_recipe() {
    let words: Vec<String> = hook_query(&pipelinefile(), &path("/t"))
        .iter()
        .map(|word| word.shown())
        .collect();
    assert_eq!(
        words,
        [
            "--justfile",
            "/root/Pipelinefile",
            "--working-directory",
            "/t",
            "--show",
            "hook"
        ]
    );
    let answer = |code: i32, stderr: &str| {
        pipelinefile_has_hook(
            &path("/P"),
            &CommandOutput {
                code: Some(code),
                status: String::new(),
                stdout: Vec::new(),
                stderr: stderr.as_bytes().to_vec(),
            },
        )
    };
    assert!(answer(0, "").unwrap());
    assert!(!answer(1, "error: Justfile does not contain recipe `hook`\n").unwrap());
    assert!(!answer(1, "unknown recipe `hook`").unwrap());
    assert!(!answer(1, "Unknown recipe `hook`").unwrap());
    assert_eq!(
        message(answer(1, " syntax error\n").unwrap_err()),
        "could not inspect /P: syntax error"
    );
}

#[test]
fn control_files_must_be_tracked() {
    let paths = vec![path("/a"), path("/b")];
    assert!(verify_tracked_paths(&paths, vec![Ok(true), Ok(true)]).is_ok());
    assert_eq!(
        message(verify_tracked_paths(&paths, vec![Ok(true), Ok(false)]).unwrap_err()),
        "hook control file is not tracked by Git: /b"
    );
    let failed = verify_tracked_paths(
        &paths,
        vec![Err(HookError::Io("disk".to_owned())), Ok(false)],
    );
    assert_eq!(message(failed.unwrap_err()), "disk");
}

#[test]
fn reports_count_in_words() {
    assert_eq!(added_message(0), "Added 0 Pipeline-managed Git hooks.");
    assert_eq!(added_message(1), "Added 1 Pipeline-managed Git hook.");
    assert_eq!(removed_message(12), "Removed 12 Pipeline-managed Git hooks.");
}

#[test]
fn the_first_failure_counts() {
    assert_eq!(combined_code(&vec![0, 3, 0, 5]), 3);
    assert_eq!(combined_code(&vec![0, 0]), 0);
    assert_eq!(combined_code(&Vec::new()), 0);
    assert!(runs_together(true, 2));
    assert!(!runs_together(true, 1));
    assert!(!runs_together(false, 5));
}

#[test]
fn explicit_links_fetch_no_image() {
    let modes = |just: InstallMode| InstallModes::new(InstallMode::Auto, None, Some(just));
    let mut allowed = Policy::default();
    assert!(install_fallback(&allowed, modes(InstallMode::Copy)));
    assert!(!install_fallback(&allowed, modes(InstallMode::Link)));
    allowed.runtime.container_fallback = false;
    assert!(!install_fallback(&allowed, modes(InstallMode::Auto)));
}

#[test]
fn updates_come_from_where_the_hook_has_them() {
    assert_eq!(update_source("pre-receive", false), UpdateSource::Input);
    assert_eq!(update_source("post-receive", false), UpdateSource::Input);
    assert_eq!(
        update_source("reference-transaction", true),
        UpdateSource::Input
    );
    assert_eq!(
        update_source("reference-transaction", false),
        UpdateSource::Nowhere
    );
    assert_eq!(update_source("update", true), UpdateSource::Arguments);
    assert_eq!(update_source("post-update", true), UpdateSource::References);
    assert_eq!(
        update_source("push-to-checkout", false),
        UpdateSource::Checkout
    );
    assert!(check_ref_input(16 * 1024 * 1024).is_ok());
    assert_eq!(
        message(check_ref_input(16 * 1024 * 1024 + 1).unwrap_err()),
        "Git hook input exceeds 16 MiB"
    );
}

#[test]
fn arguments_describe_updates() {
    let update = update_from_arguments(&native(&["refs/x", "a", "b"])).unwrap();
    assert_eq!(
        (
            update.reference.as_str(),
            update.old_oid.as_str(),
            update.new_oid.as_str()
        ),
        ("refs/x", "a", "b")
    );
    assert_eq!(
        message(update_from_arguments(&native(&["refs/x"])).unwrap_err()),
        "the update hook requires REF OLD-OID NEW-OID arguments"
    );
    let odd = NativeText { bytes: vec![0xff] };
    for (place, what) in [(0, "reference"), (1, "old object ID"), (2, "new object ID")] {
        let mut arguments = native(&["r", "a", "b"]);
        arguments[place] = odd.clone();
        assert_eq!(
            message(update_from_arguments(&arguments).unwrap_err()),
            format!("Git supplied a non-UTF-8 {what}")
        );
    }
    let update = update_from_checkout(&native(&["abc"])).unwrap();
    assert_eq!(update.reference, "HEAD");
    assert_eq!(update.new_oid, "abc");
    assert!(update_from_checkout(&Vec::new()).is_err());
    let arguments = vec![
        NativeText::from_text("a"),
        odd,
        NativeText::from_text("b"),
    ];
    let updates = updates_from_refs(&arguments, &vec![Some("1".to_owned()), None, None]);
    assert_eq!(updates.len(), 1);
    assert_eq!(update_references(&updates), ["a"]);
}

#[test]
fn hooks_take_their_routes() {
    for hook in [
        "pre-receive",
        "update",
        "post-receive",
        "post-update",
        "push-to-checkout",
    ] {
        assert_eq!(hook_route(hook, false, true), HookRoute::Receive);
    }
    assert_eq!(
        hook_route("reference-transaction", true, false),
        HookRoute::Receive
    );
    assert_eq!(
        hook_route("reference-transaction", false, true),
        HookRoute::WorkTree
    );
    assert_eq!(hook_route("proc-receive", true, false), HookRoute::Protocol);
    assert_eq!(
        hook_route("fsmonitor-watchman", false, true),
        HookRoute::Monitor
    );
    assert_eq!(hook_route("pre-commit", true, false), HookRoute::Bare);
}

fn answer(step: &RunStep, found: bool, has_trigger: bool, seen: &mut Vec<RunStep>) -> RunReply {
    let reply = match step {
        RunStep::Materialize(_) => RunReply::Done,
        RunStep::Discover => RunReply::Answer(found),
        RunStep::Control { tracking: false } => RunReply::Done,
        RunStep::Control { tracking: true } => RunReply::Listed {
            paths: vec![HostPath::from_text("/w/pipeline.yml")],
            answers: vec![Ok(true)],
        },
        RunStep::Trigger => RunReply::Answer(has_trigger),
        RunStep::Run => RunReply::Code(5),
        RunStep::PassThrough | RunStep::ReportEverything => RunReply::Code(0),
        RunStep::End => unreachable!(),
    };
    seen.push(step.clone());
    reply
}

fn run(
    mut hook_run: HookRun,
    found: bool,
    has_trigger: bool,
) -> (Vec<RunStep>, Result<i32, PipelineError>) {
    let mut seen = Vec::new();
    loop {
        let step = hook_run.step();
        if step == RunStep::End {
            return (seen, hook_run.finish());
        }
        let reply = answer(&step, found, has_trigger, &mut seen);
        hook_run = hook_run.advance(reply);
    }
}

#[test]
fn worktree_hooks_run_what_is_tracked() {
    let lenient = policy(IncomingPolicy::Project, MissingTriggerPolicy::Allow);
    let start = || HookRun::new(HookRoute::WorkTree, "pre-commit", &lenient, true);
    let (seen, result) = run(start(), true, true);
    assert_eq!(
        seen,
        [
            RunStep::Discover,
            RunStep::Control { tracking: true },
            RunStep::Run
        ]
    );
    assert_eq!(result.unwrap(), 5);
    let (seen, result) = run(start(), false, false);
    assert_eq!(seen, [RunStep::Discover]);
    assert_eq!(result.unwrap(), 0);
    let mut disabled = Policy::default();
    disabled.hooks.enabled = false;
    let (seen, result) = run(
        HookRun::new(HookRoute::WorkTree, "pre-commit", &disabled, true),
        true,
        true,
    );
    assert!(seen.is_empty());
    assert_eq!(result.unwrap(), 0);
}

#[test]
fn untracked_control_files_stop_a_worktree_hook() {
    let lenient = policy(IncomingPolicy::Project, MissingTriggerPolicy::Allow);
    let paths = || {
        vec![
            HostPath::from_text("/w/pipeline.yml"),
            HostPath::from_text("/w/extra.yml"),
        ]
    };
    for (route, hook) in [
        (HookRoute::WorkTree, "pre-commit"),
        (HookRoute::Monitor, "fsmonitor-watchman"),
    ] {
        let controlled = |answers: Vec<Result<bool, HookError>>| {
            HookRun::new(route, hook, &lenient, true)
                .advance(RunReply::Answer(true))
                .advance(RunReply::Listed {
                    paths: paths(),
                    answers,
                })
        };
        assert_eq!(
            message(controlled(vec![Ok(true), Ok(false)]).finish().unwrap_err()),
            "hook control file is not tracked by Git: /w/extra.yml"
        );
        assert_eq!(
            message(
                controlled(vec![Err(HookError::Io("no index".to_owned())), Ok(false)])
                    .finish()
                    .unwrap_err()
            ),
            "no index"
        );
        assert!(controlled(vec![Ok(true), Ok(true)]).step() != RunStep::End);
    }
    let search = Declaration::new(true).advance(DeclareReply::Answer(true));
    assert_eq!(search.step(), DeclareStep::Control { tracking: true });
    let refused = search.advance(DeclareReply::Listed {
        hooks: vec!["update".to_owned()],
        paths: paths(),
        answers: vec![Ok(false), Ok(true)],
    });
    assert_eq!(
        message(refused.finish().unwrap_err()),
        "hook control file is not tracked by Git: /w/pipeline.yml"
    );
    let accepted = Declaration::new(true)
        .advance(DeclareReply::Answer(true))
        .advance(DeclareReply::Listed {
            hooks: vec!["update".to_owned()],
            paths: paths(),
            answers: vec![Ok(true), Ok(true)],
        });
    assert_eq!(accepted.finish().unwrap().as_list(), &["update"]);
}

#[test]
fn bare_hooks_use_the_revision_of_the_policy() {
    let trusted = policy(IncomingPolicy::Trusted, MissingTriggerPolicy::Deny);
    let (seen, result) = run(
        HookRun::new(HookRoute::Bare, "post-checkout", &trusted, false),
        false,
        false,
    );
    assert_eq!(
        seen,
        [
            RunStep::Materialize("refs/heads/policy".to_owned()),
            RunStep::Discover
        ]
    );
    assert_eq!(
        message(result.unwrap_err()),
        "no Pipeline trigger is declared for Git hook `post-checkout`"
    );
    let lenient = policy(IncomingPolicy::Project, MissingTriggerPolicy::Allow);
    let unborn = || RunReply::NotMaterialized(HookError::InvalidRevision("HEAD".to_owned()));
    let done = HookRun::new(HookRoute::Bare, "post-checkout", &lenient, false).advance(unborn());
    assert_eq!(done.finish().unwrap(), 0);
    let failed = HookRun::new(HookRoute::Bare, "post-checkout", &trusted, false).advance(unborn());
    assert_eq!(
        message(failed.finish().unwrap_err()),
        "revision does not resolve to a commit: \"HEAD\""
    );
}

#[test]
fn protocol_hooks_always_answer_git() {
    let lenient = policy(IncomingPolicy::Project, MissingTriggerPolicy::Allow);
    let skip = policy(IncomingPolicy::Skip, MissingTriggerPolicy::Deny);
    let start = |rules: &Policy| HookRun::new(HookRoute::Protocol, "proc-receive", rules, true);
    let (seen, result) = run(start(&lenient), true, false);
    assert_eq!(
        seen,
        [
            RunStep::Materialize("HEAD".to_owned()),
            RunStep::Discover,
            RunStep::Control { tracking: false },
            RunStep::Trigger,
            RunStep::PassThrough
        ]
    );
    assert_eq!(result.unwrap(), 0);
    let (seen, _) = run(start(&skip), true, true);
    assert_eq!(seen, [RunStep::PassThrough]);
    let (seen, result) = run(start(&lenient), true, true);
    assert_eq!(seen.last(), Some(&RunStep::Run));
    assert_eq!(result.unwrap(), 5);
    let monitor = HookRun::new(HookRoute::Monitor, "fsmonitor-watchman", &lenient, false);
    let (seen, _) = run(monitor, true, true);
    assert_eq!(seen, [RunStep::ReportEverything]);
    let failed = HookRun::new(HookRoute::Monitor, "fsmonitor-watchman", &lenient, true)
        .advance(RunReply::Error(PipelineError::Io("disk".to_owned())));
    assert_eq!(message(failed.finish().unwrap_err()), "disk");
}

#[test]
fn definitions_have_targets_for_hooks() {
    assert!(matches!(
        hook_targets(&pipelinefile(), "update", false),
        Ok(HookTargets::Recipe)
    ));
    match hook_targets(&project(&["update"]), "update", false) {
        Ok(HookTargets::Selected(selection)) => {
            assert_eq!(selection, Selection::pipeline("check"))
        }
        _ => panic!("the pipeline is triggered"),
    }
    assert!(matches!(
        hook_targets(&project(&[]), "update", true),
        Ok(HookTargets::Nothing)
    ));
    assert!(hook_targets(&project(&[]), "update", false).is_err());
    assert_eq!(
        hook_trigger(&pipelinefile(), "update").unwrap(),
        Trigger::Recipe
    );
    assert_eq!(
        hook_trigger(&project(&["update"]), "update").unwrap(),
        Trigger::Known(true)
    );
    assert_eq!(
        hook_trigger(&project(&[]), "update").unwrap(),
        Trigger::Known(false)
    );
    let options = candidate_options(true, Vec::new(), StdinSource::Null, path("/t"));
    assert_eq!(options.arguments, native(&["hook"]));
    assert_eq!(options.working_directory, Some(path("/t")));
    let options = candidate_options(false, Vec::new(), StdinSource::Inherit, path("/t"));
    assert!(options.arguments.is_empty() && !options.no_deps);
}

#[test]
fn candidates_are_selected_prepared_and_executed() {
    let (recipe, idle, selected) = (pipelinefile(), project(&[]), project(&["update"]));
    let run = CandidateRun::new("update", true, &vec![&recipe, &idle, &selected]);
    assert_eq!(run.step(), CandidateStep::Resolve);
    let run = run.advance(CandidateReply::Done);
    assert_eq!(run.step(), CandidateStep::Inspect(0));
    assert!(run.selection().is_none());
    let run = run.advance(CandidateReply::Answer(false));
    assert_eq!(run.step(), CandidateStep::Prepare(2));
    assert_eq!(run.selection(), Some(&Selection::pipeline("check")));
    let run = run.advance(CandidateReply::Done);
    assert_eq!(run.step(), CandidateStep::Execute);
    let run = run.advance(CandidateReply::Code(4));
    assert_eq!(run.step(), CandidateStep::End);
    assert_eq!(run.finish().unwrap(), 4);
}

#[test]
fn idle_candidates_follow_the_policy() {
    let (recipe, idle) = (pipelinefile(), project(&[]));
    let none = Vec::new();
    let one = vec![&recipe];
    assert_eq!(CandidateRun::new("update", true, &none).finish().unwrap(), 0);
    assert!(CandidateRun::new("update", false, &none).finish().is_err());
    assert_eq!(
        CandidateRun::new("update", true, &vec![&idle]).finish().unwrap(),
        0
    );
    let mixed = CandidateRun::new("update", false, &vec![&recipe, &idle]);
    assert_eq!(
        message(mixed.finish().unwrap_err()),
        "no Pipeline trigger is declared for Git hook `update`"
    );
    let run = CandidateRun::new("update", false, &one)
        .advance(CandidateReply::Done)
        .advance(CandidateReply::Answer(false));
    assert_eq!(
        message(run.finish().unwrap_err()),
        "no Pipeline trigger is declared for Git hook `update`"
    );
    let run = CandidateRun::new("update", true, &one)
        .advance(CandidateReply::Done)
        .advance(CandidateReply::Answer(false));
    assert_eq!(run.finish().unwrap(), 0);
    let run = CandidateRun::new("update", true, &one)
        .advance(CandidateReply::Done)
        .advance(CandidateReply::Answer(true));
    assert_eq!(run.step(), CandidateStep::Prepare(0));
    assert!(run.selection().is_none());
}

#[test]
fn incoming_commits_are_judged_one_by_one() {
    let rules = policy(IncomingPolicy::Project, MissingTriggerPolicy::Allow);
    let run = ReceiveRun::new("pre-receive", &rules);
    assert_eq!(run.step(), ReceiveStep::Read);
    let run = run.advance(ReceiveReply::Commits(vec!["a".to_owned(), "b".to_owned()]));
    assert_eq!(run.step(), ReceiveStep::Tree("a".to_owned()));
    let run = run.advance(ReceiveReply::Done);
    assert_eq!(run.step(), ReceiveStep::Discover);
    let run = run.advance(ReceiveReply::Answer(false));
    assert_eq!(run.step(), ReceiveStep::Tree("b".to_owned()));
    let run = run.advance(ReceiveReply::Done);
    let run = run.advance(ReceiveReply::Answer(true));
    assert_eq!(run.step(), ReceiveStep::Control);
    let run = run.advance(ReceiveReply::Done);
    assert_eq!(
        run.step(),
        ReceiveStep::Run {
            candidates: vec![Chosen {
                commit: 1,
                trusted: false
            }],
            parallel: true
        }
    );
    let run = run.advance(ReceiveReply::Code(0));
    assert_eq!(run.step(), ReceiveStep::Accept);
    let run = run.advance(ReceiveReply::Code(0));
    assert_eq!(run.finish().unwrap(), 0);
}

#[test]
fn strict_policies_want_a_definition_in_every_commit() {
    let rules = policy(IncomingPolicy::Project, MissingTriggerPolicy::Deny);
    let run = ReceiveRun::new("update", &rules)
        .advance(ReceiveReply::Commits(vec!["a".to_owned()]))
        .advance(ReceiveReply::Done)
        .advance(ReceiveReply::Answer(false));
    assert_eq!(
        message(run.finish().unwrap_err()),
        "no Pipeline definition found for update at commit a"
    );
}

#[test]
fn trusted_definitions_replace_incoming_ones() {
    let mut rules = policy(IncomingPolicy::Trusted, MissingTriggerPolicy::Allow);
    rules.hooks.parallel_refs = false;
    let run = ReceiveRun::new("update", &rules)
        .advance(ReceiveReply::Commits(vec!["a".to_owned(), "b".to_owned()]));
    assert_eq!(
        run.step(),
        ReceiveStep::TrustedTree("refs/heads/policy".to_owned())
    );
    let run = run.advance(ReceiveReply::Done);
    assert_eq!(run.step(), ReceiveStep::TrustedDiscover);
    let run = run.advance(ReceiveReply::Answer(true));
    assert_eq!(run.step(), ReceiveStep::TrustedControl);
    let run = run.advance(ReceiveReply::Done);
    assert_eq!(run.step(), ReceiveStep::Tree("a".to_owned()));
    let run = run.advance(ReceiveReply::Done);
    assert_eq!(run.step(), ReceiveStep::Tree("b".to_owned()));
    let run = run.advance(ReceiveReply::Done);
    let choice = |commit: usize| Chosen {
        commit,
        trusted: true,
    };
    assert_eq!(
        run.step(),
        ReceiveStep::Run {
            candidates: vec![choice(0), choice(1)],
            parallel: false
        }
    );
    let run = run.advance(ReceiveReply::Code(3));
    assert_eq!(run.finish().unwrap(), 3);
}

#[test]
fn skipped_and_empty_pushes_are_accepted() {
    let skip = policy(IncomingPolicy::Skip, MissingTriggerPolicy::Deny);
    let run = ReceiveRun::new("update", &skip);
    assert_eq!(run.step(), ReceiveStep::Accept);
    let rules = policy(IncomingPolicy::Project, MissingTriggerPolicy::Deny);
    let run = ReceiveRun::new("update", &rules).advance(ReceiveReply::Commits(Vec::new()));
    assert_eq!(run.step(), ReceiveStep::Accept);
}

#[test]
fn accepting_a_checkout_updates_the_worktree() {
    let home = repository(Some("/w"));
    assert!(matches!(
        receive_success(&home, "update", &native(&["x"])),
        Ok(Acceptance::Nothing)
    ));
    match receive_success(&home, "push-to-checkout", &native(&["abc"])) {
        Ok(Acceptance::Update(arguments)) => assert_eq!(
            arguments,
            native(&[
                "--git-dir=/w/.git",
                "--work-tree=/w",
                "read-tree",
                "-u",
                "-m",
                "HEAD",
                "abc"
            ])
        ),
        _ => panic!("the worktree is updated"),
    }
    assert_eq!(
        message(receive_success(&repository(None), "push-to-checkout", &native(&["x"])).unwrap_err()),
        "push-to-checkout requires a non-bare worktree"
    );
    assert_eq!(
        message(receive_success(&home, "push-to-checkout", &Vec::new()).unwrap_err()),
        "the push-to-checkout hook requires a new object ID"
    );
}

#[test]
fn errors_from_below_keep_their_messages() {
    let cases = [
        (
            PipelineError::Definition(DefinitionError::Invalid("x".to_owned())),
            "invalid pipeline definition: x",
        ),
        (
            PipelineError::Policy(PolicyError::InvalidTrustedRef),
            "hooks.trusted-ref must not be empty",
        ),
        (
            PipelineError::Hook(HookError::Io("y".to_owned())),
            "y",
        ),
        (PipelineError::Io("z".to_owned()), "z"),
        (PipelineError::Message("m".to_owned()), "m"),
    ];
    for (error, text) in cases {
        assert_eq!(message(error), text);
    }
}

#[test]
fn runs_in_a_queue_stop_at_a_failure() {
    let execution = Execution::new(false, 3);
    assert_eq!(execution.step(), ExecuteStep::Run(0));
    let execution = execution.advance(ExecuteReply::Code(0));
    assert_eq!(execution.step(), ExecuteStep::Run(1));
    let execution = execution.advance(ExecuteReply::Code(6));
    assert_eq!(execution.step(), ExecuteStep::End);
    assert_eq!(execution.finish().unwrap(), 6);
    assert_eq!(Execution::new(true, 0).finish().unwrap(), 0);
    let failed = Execution::new(true, 1).advance(ExecuteReply::Error(PipelineError::Definition(
        DefinitionError::Invalid("x".to_owned()),
    )));
    assert_eq!(
        message(failed.finish().unwrap_err()),
        "invalid pipeline definition: x"
    );
}

#[test]
fn runs_that_go_together_are_all_waited_for() {
    let execution = Execution::new(true, 2)
        .advance(ExecuteReply::Started)
        .advance(ExecuteReply::Started);
    assert_eq!(execution.step(), ExecuteStep::Wait(0));
    let execution = execution.advance(ExecuteReply::Code(3));
    assert_eq!(execution.step(), ExecuteStep::Wait(1));
    let execution = execution.advance(ExecuteReply::Code(4));
    assert_eq!(execution.finish().unwrap(), 3);
    let execution = Execution::new(true, 3)
        .advance(ExecuteReply::Started)
        .advance(ExecuteReply::Started)
        .advance(ExecuteReply::NotStarted(PipelineError::Io("no fork".to_owned())));
    assert_eq!(execution.step(), ExecuteStep::Reap(0));
    let execution = execution.advance(ExecuteReply::Reaped);
    assert_eq!(execution.step(), ExecuteStep::Reap(1));
    let execution = execution.advance(ExecuteReply::Reaped);
    assert_eq!(message(execution.finish().unwrap_err()), "no fork");
}

#[test]
fn declared_hooks_come_from_a_checked_definition() {
    let search = Declaration::new(false);
    assert_eq!(search.step(), DeclareStep::Materialize);
    let search = search.advance(DeclareReply::Done);
    assert_eq!(search.step(), DeclareStep::Discover);
    let search = search.advance(DeclareReply::Answer(true));
    assert_eq!(search.step(), DeclareStep::Control { tracking: false });
    let search = search.advance(DeclareReply::Hooks(vec![
        "update".to_owned(),
        "pre-push".to_owned(),
    ]));
    assert_eq!(
        search.finish().unwrap().as_list(),
        &["pre-push", "update"]
    );
    let unborn = Declaration::new(false).advance(DeclareReply::NotMaterialized(
        HookError::InvalidRevision("HEAD".to_owned()),
    ));
    assert!(unborn.finish().unwrap().is_empty());
    let undefined = Declaration::new(true).advance(DeclareReply::Answer(false));
    assert!(undefined.finish().unwrap().is_empty());
    let failed = Declaration::new(false).advance(DeclareReply::NotMaterialized(HookError::Io(
        "full".to_owned(),
    )));
    assert_eq!(message(failed.finish().unwrap_err()), "full");
}

#[test]
fn additions_check_the_repository_before_they_look_for_just() {
    let mut selected = NameSet::new();
    let modes = InstallModes::new(InstallMode::Link, None, None);
    assert_eq!(
        Addition::new(&selected, modes).finish().unwrap(),
        "No hooks selected."
    );
    selected.insert("update");
    let addition = Addition::new(&selected, modes);
    assert_eq!(addition.step(), AddStep::Preflight);
    let addition = addition.advance(AddReply::Done);
    assert_eq!(addition.step(), AddStep::LoadPolicy);
    let addition = addition.advance(AddReply::Policy(Policy::default()));
    assert_eq!(
        addition.step(),
        AddStep::ResolveJust {
            container_fallback: false
        }
    );
    let addition = addition.advance(AddReply::Done);
    assert_eq!(addition.step(), AddStep::Install);
    let addition = addition.advance(AddReply::Added(1));
    assert_eq!(
        addition.finish().unwrap(),
        "Added 1 Pipeline-managed Git hook."
    );
    let refused = Addition::new(&selected, InstallModes::default()).advance(AddReply::Error(
        PipelineError::Hook(HookError::Io("locked".to_owned())),
    ));
    assert_eq!(message(refused.finish().unwrap_err()), "locked");
    assert!(needs_declared(&HookSelection::Managed));
    assert!(!needs_declared(&HookSelection::All));
}

#[test]
fn a_missing_definition_is_no_error_where_it_is_optional() {
    assert!(discover_optional(Ok(pipelinefile())).unwrap().is_some());
    let missing = DefinitionError::NotFound { start: path("/w") };
    assert!(discover_optional(Err(missing)).unwrap().is_none());
    let other = DefinitionError::NotAFile(path("/w/pipeline.yml"));
    assert!(matches!(
        discover_optional(Err(other)),
        Err(PipelineError::Definition(DefinitionError::NotAFile(_)))
    ));
}

#[test]
fn selections_can_be_copied() {
    let selection = Selection::pipeline("check");
    assert_eq!(selection.clone(), selection);
    assert!(Selection::default().is_empty());
}
