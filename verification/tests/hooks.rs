use pipeline::hooks::error::{code_text, HookError};
use pipeline::hooks::git::{
    canonicalize_existing, discovery_directory, ensure_git_success, git_text,
    reject_configured_hooks_path, GitOutput,
};
use pipeline::hooks::install::{FileMode, InstallJob, SourceFacts, TargetLink};
use pipeline::hooks::installation::{InstallReply, InstallStep, Installation};
use pipeline::hooks::materialize::{Materialization, MaterializedTree, TreeReply, TreeStep};
use pipeline::hooks::ownership::{
    hook_path, hook_wrapper, installed_managed_hooks, is_managed_hook, FileProbe, HookFile,
    MANAGED_HOOK_MARKER,
};
use pipeline::hooks::removal::{Removal, RemovalReply, RemovalReport, RemovalStep};
use pipeline::hooks::repository::{
    bare_query, common_dir_query, git_dir_query, top_level_query, work_tree_among,
    work_tree_candidates, DiscoveryReplies, Elsewhere, Repository, TrackedQuery, WorkTreeProbe,
    WorkTreeReplies,
};
use pipeline::hooks::request::{HookSelection, InstallMode, InstallModes};
use pipeline::hooks::updates::{
    hook_environment, incoming_commits, is_zero_oid, parse_ref_updates, RefUpdate,
};
use pipeline::hooks::{
    all_supported_hooks, is_supported_hook, supported_hook_list, validate_hooks, SUPPORTED_HOOKS,
};
use pipeline::names::NameSet;
use pipeline::native::{HostPath, NativeText};
use std::collections::BTreeMap;

fn path(text: &str) -> HostPath {
    HostPath::from_text(text)
}

fn native(words: &[&str]) -> Vec<NativeText> {
    words.iter().map(|word| NativeText::from_text(word)).collect()
}

fn set(names: &[&str]) -> NameSet {
    NameSet::from_names(&names.iter().map(|name| (*name).to_owned()).collect())
}

fn repository(root: &str) -> Repository {
    Repository {
        invocation_dir: path(root),
        git_dir: path(root),
        common_dir: path(root),
        work_tree: None,
        bare: true,
    }
}

fn file(contents: &str) -> HookFile {
    HookFile {
        probe: FileProbe::File,
        contents: Ok(contents.as_bytes().to_vec()),
    }
}

fn missing() -> HookFile {
    HookFile {
        probe: FileProbe::Missing,
        contents: Err("gone".to_owned()),
    }
}

fn managed_text() -> String {
    format!("#!/bin/sh\n{MANAGED_HOOK_MARKER}\n")
}

fn all_files(installed: &[(&str, String)]) -> Vec<HookFile> {
    SUPPORTED_HOOKS
        .iter()
        .map(|hook| {
            match installed.iter().find(|(name, _)| name == hook) {
                Some((_, contents)) => file(contents),
                None => missing(),
            }
        })
        .collect()
}

fn reply(code: i32, stdout: &str) -> Result<GitOutput, String> {
    Ok(GitOutput {
        code: Some(code),
        stdout: stdout.as_bytes().to_vec(),
        stderr: b"trouble\n".to_vec(),
    })
}

#[test]
fn selection_defaults_to_all_and_managed_is_an_intersection_on_remove() {
    let files = all_files(&[("pre-commit", managed_text())]);
    let declared = set(&["pre-commit", "pre-push"]);

    assert_eq!(
        HookSelection::from_cli(&Vec::new(), false)
            .unwrap()
            .for_add(&declared)
            .unwrap(),
        all_supported_hooks()
    );
    assert_eq!(
        HookSelection::Managed.for_remove(&files, &declared).unwrap(),
        set(&["pre-commit"])
    );
}

#[test]
fn rejects_managed_plus_names_and_unknown_names() {
    assert!(matches!(
        HookSelection::from_cli(&vec!["pre-commit".to_owned()], true),
        Err(HookError::ManagedWithExplicitHooks)
    ));
    assert!(matches!(
        HookSelection::from_cli(&vec!["made-up".to_owned()], false),
        Err(HookError::UnsupportedHook(_))
    ));
}

#[test]
fn wrappers_are_owned_executable_and_preserve_dispatch_arguments() {
    let unchanged = || InstallReply::Examined {
        source: SourceFacts {
            canonical: Ok(path("/pipeline")),
            mode: Ok(FileMode {
                is_file: true,
                mode: 0o755,
            }),
        },
        link: TargetLink {
            exists: true,
            is_link: Ok(true),
            leads_to: Ok(path("/pipeline")),
        },
    };
    let installation = Installation::new(InstallJob {
        repository: repository("/r.git"),
        hooks: set(&["commit-msg"]),
        pipeline_source: path("/pipeline"),
        just_source: path("/pipeline"),
        pipeline_mode: InstallMode::Link,
        just_mode: InstallMode::Link,
        pipeline_dir_existed: true,
        hooks_dir_existed: true,
    })
    .advance(InstallReply::Done)
    .advance(InstallReply::Done)
    .advance(unchanged())
    .advance(unchanged());
    match installation.step() {
        InstallStep::StageWrapper {
            target,
            contents,
            mode,
        } => {
            assert_eq!(target, path("/r.git/hooks/commit-msg"));
            assert!(is_managed_hook(&file(&contents)).unwrap());
            assert_ne!(mode & 0o111, 0);
            assert_eq!(mode, 0o755);
            assert!(contents.contains("__hook commit-msg \"$@\""));
            assert!(contents.starts_with("#!/bin/sh\n"));
        }
        _ => panic!("the wrapper is staged"),
    }
}

#[test]
fn parses_and_deduplicates_incoming_commits() {
    let updates =
        parse_ref_updates(b"0000 1111 refs/heads/main\n2222 0000 refs/heads/old\n").unwrap();
    assert_eq!(updates.len(), 2);
    assert!(is_zero_oid(&updates[0].old_oid));
    assert!(is_zero_oid(&updates[1].new_oid));
}

#[test]
fn removing_last_wrapper_removes_binaries_but_keeps_policy() {
    let home = repository("/r.git");
    let mut disk: BTreeMap<String, String> = BTreeMap::new();
    disk.insert(home.installed_pipeline().shown(), "#!/bin/sh\n".to_owned());
    disk.insert(home.installed_just().shown(), "#!/bin/sh\n".to_owned());
    disk.insert(home.policy_path().shown(), "version: 1\n".to_owned());
    disk.insert(
        hook_path(&home, "pre-commit").shown(),
        hook_wrapper("pre-commit"),
    );

    let report = run_removal(&home, set(&["pre-commit"]), &mut disk).unwrap();
    assert!(report.removed_binaries);
    assert_eq!(report.hooks, set(&["pre-commit"]));
    assert!(!disk.contains_key(&home.installed_pipeline().shown()));
    assert!(!disk.contains_key(&home.installed_just().shown()));
    assert!(disk.contains_key(&home.policy_path().shown()));
}

fn look(disk: &BTreeMap<String, String>, at: &HostPath) -> HookFile {
    match disk.get(&at.shown()) {
        Some(contents) => file(contents),
        None => missing(),
    }
}

fn run_removal(
    home: &Repository,
    hooks: NameSet,
    disk: &mut BTreeMap<String, String>,
) -> Result<RemovalReport, HookError> {
    let mut removal = Removal::new(home.clone(), hooks)?;
    loop {
        let answer = match removal.step() {
            RemovalStep::Inspect(at) => RemovalReply::Found(look(disk, &at)),
            RemovalStep::Delete(at) => {
                assert!(disk.remove(&at.shown()).is_some());
                RemovalReply::Done
            }
            RemovalStep::Survey => RemovalReply::Surveyed(
                SUPPORTED_HOOKS
                    .iter()
                    .map(|hook| look(disk, &hook_path(home, hook)))
                    .collect(),
            ),
            RemovalStep::DeleteIfPresent(at) => {
                disk.remove(&at.shown());
                RemovalReply::Done
            }
            RemovalStep::RemoveDirectory(_) => RemovalReply::Refused("not empty".to_owned()),
            RemovalStep::End => return removal.finish(),
        };
        removal = removal.advance(answer);
    }
}

#[test]
fn unmanaged_hooks_are_never_removed() {
    let home = repository("/r.git");
    let mut disk: BTreeMap<String, String> = BTreeMap::new();
    let own = hook_path(&home, "pre-commit").shown();
    let foreign = hook_path(&home, "update").shown();
    disk.insert(own.clone(), hook_wrapper("pre-commit"));
    disk.insert(foreign.clone(), "#!/bin/sh\n".to_owned());
    let before = disk.clone();
    let error = run_removal(&home, set(&["pre-commit", "update"]), &mut disk).unwrap_err();
    assert_eq!(
        error.message(),
        "refusing to replace or remove unmanaged hook /r.git/hooks/update"
    );
    assert_eq!(disk, before);
    let report = run_removal(&home, set(&["pre-commit"]), &mut disk).unwrap();
    assert!(report.removed_binaries);
    assert!(disk.contains_key(&foreign) && !disk.contains_key(&own));
}

#[test]
fn executables_stay_while_a_hook_is_installed() {
    let home = repository("/r.git");
    let mut disk: BTreeMap<String, String> = BTreeMap::new();
    for hook in ["pre-commit", "update"] {
        disk.insert(hook_path(&home, hook).shown(), hook_wrapper(hook));
    }
    disk.insert(home.installed_just().shown(), String::new());
    let report = run_removal(&home, set(&["update"]), &mut disk).unwrap();
    assert_eq!(
        report,
        RemovalReport {
            hooks: set(&["update"]),
            removed_binaries: false
        }
    );
    assert!(disk.contains_key(&home.installed_just().shown()));
    assert!(matches!(
        run_removal(&home, set(&["nothing"]), &mut disk),
        Err(HookError::UnsupportedHook(_))
    ));
}

#[test]
fn a_managed_hook_carries_the_marker_on_a_line_of_its_own() {
    assert!(is_managed_hook(&file(&managed_text())).unwrap());
    assert!(!is_managed_hook(&file("#!/bin/sh\n# managed-by: pipelines\n")).unwrap());
    assert!(!is_managed_hook(&file("")).unwrap());
    assert!(!is_managed_hook(&missing()).unwrap());
    let link = HookFile {
        probe: FileProbe::Symlink,
        contents: Ok(managed_text().into_bytes()),
    };
    assert!(!is_managed_hook(&link).unwrap());
    let unreadable = HookFile {
        probe: FileProbe::File,
        contents: Err("denied".to_owned()),
    };
    assert_eq!(is_managed_hook(&unreadable).unwrap_err().message(), "denied");
    let unknown = HookFile {
        probe: FileProbe::Unknown("no access".to_owned()),
        contents: Err("denied".to_owned()),
    };
    assert_eq!(is_managed_hook(&unknown).unwrap_err().message(), "no access");
}

#[test]
fn wrappers_are_exactly_this_script() {
    assert!(hook_wrapper("update").contains(MANAGED_HOOK_MARKER));
    assert_eq!(
        hook_path(&repository("/r.git"), "update").shown(),
        "/r.git/hooks/update"
    );
    let files = all_files(&[
        ("update", hook_wrapper("update")),
        ("pre-commit", managed_text()),
        ("pre-push", "#!/bin/sh\n".to_owned()),
    ]);
    assert_eq!(
        installed_managed_hooks(&files).unwrap(),
        set(&["pre-commit", "update"])
    );
}

#[test]
fn hook_names_are_the_documented_ones() {
    assert_eq!(supported_hook_list().len(), 28);
    assert_eq!(all_supported_hooks().len(), 28);
    assert!(is_supported_hook("fsmonitor-watchman"));
    assert!(!is_supported_hook("post-fsmonitor"));
    assert!(validate_hooks(&supported_hook_list()).is_ok());
    let error = validate_hooks(&vec!["update".to_owned(), "nope".to_owned()]).unwrap_err();
    assert_eq!(error.message(), "unsupported Git hook \"nope\"");
}

#[test]
fn explicit_and_declared_selections() {
    let declared = set(&["pre-push"]);
    let explicit = HookSelection::from_cli(
        &vec!["update".to_owned(), "pre-commit".to_owned(), "update".to_owned()],
        false,
    )
    .unwrap();
    assert_eq!(
        explicit.for_add(&declared).unwrap(),
        set(&["pre-commit", "update"])
    );
    let managed = HookSelection::from_cli(&Vec::new(), true).unwrap();
    assert_eq!(managed.for_add(&declared).unwrap(), declared);
    assert!(managed.for_add(&set(&["unknown"])).is_err());
    let files = all_files(&[("update", managed_text())]);
    assert_eq!(
        HookSelection::All.for_remove(&files, &declared).unwrap(),
        set(&["update"])
    );
}

#[test]
fn install_modes_fall_back_to_the_default() {
    let modes = InstallModes::new(InstallMode::Link, None, Some(InstallMode::Copy));
    assert_eq!(modes.pipeline, InstallMode::Link);
    assert_eq!(modes.just, InstallMode::Copy);
    assert_eq!(InstallMode::default(), InstallMode::Auto);
}

#[test]
fn reference_updates_need_three_fields() {
    let updates = parse_ref_updates(b"\n  a b refs/x  \n").unwrap();
    assert_eq!(
        updates,
        [RefUpdate {
            old_oid: "a".to_owned(),
            new_oid: "b".to_owned(),
            reference: "refs/x".to_owned(),
        }]
    );
    for input in [&b"a b\n"[..], b"a b c d\n", b"\xff a b\n"] {
        let error = parse_ref_updates(input).unwrap_err();
        assert_eq!(error.message(), "invalid Git reference update input");
    }
    assert!(parse_ref_updates(b"").unwrap().is_empty());
    assert!(!is_zero_oid(""));
    assert!(!is_zero_oid("0010"));
}

#[test]
fn incoming_commits_are_distinct_and_ascending() {
    let updates = parse_ref_updates(b"0 b r1\n0 a r2\n0 c r3\nx 0 r4\n0 t r5\n").unwrap();
    let replies = || {
        vec![
            Some(Ok("bbb".to_owned())),
            Some(Ok("aaa".to_owned())),
            Some(Ok("bbb".to_owned())),
            None,
            Some(Err(HookError::InvalidRevision("t".to_owned()))),
        ]
    };
    assert_eq!(incoming_commits(&updates, replies()).unwrap(), ["aaa", "bbb"]);
    let mut broken = replies();
    broken[1] = Some(Err(HookError::GitNonUtf8("git rev-parse".to_owned())));
    let error = incoming_commits(&updates, broken).unwrap_err();
    assert_eq!(error.message(), "git rev-parse returned non-UTF-8 output");
}

#[test]
fn hooks_see_their_name_and_arguments() {
    let arguments = vec![NativeText::from_text("a"), NativeText { bytes: vec![0xff] }];
    let variables = hook_environment("update", &arguments).unwrap();
    let names: Vec<String> = variables.iter().map(|(name, _)| name.shown()).collect();
    assert_eq!(
        names,
        [
            "PIPELINE_HOOK",
            "PIPELINE_HOOK_ARGC",
            "PIPELINE_HOOK_ARG_0",
            "PIPELINE_HOOK_ARG_1"
        ]
    );
    assert_eq!(variables[1].1.shown(), "2");
    assert_eq!(variables[3].1, arguments[1]);
    assert!(hook_environment("nope", &arguments).is_err());
}

#[test]
fn git_replies_are_read() {
    let query = vec!["rev-parse".to_owned(), "--git-dir".to_owned()];
    assert_eq!(git_text(&query, &reply(0, "  /r\n")).unwrap(), "/r");
    assert_eq!(
        git_text(&query, &reply(128, "")).unwrap_err().message(),
        "git rev-parse --git-dir failed (status Some(128)): trouble"
    );
    assert_eq!(
        git_text(&query, &Err("no git".to_owned())).unwrap_err().message(),
        "could not run git: no git"
    );
    let odd = Ok(GitOutput {
        code: Some(0),
        stdout: vec![0xff],
        stderr: Vec::new(),
    });
    assert_eq!(
        git_text(&query, &odd).unwrap_err().message(),
        "git rev-parse --git-dir returned non-UTF-8 output"
    );
    assert!(ensure_git_success("git read-tree", &reply(0, "")).is_ok());
    assert!(ensure_git_success("git read-tree", &reply(1, "")).is_err());
    assert_eq!(code_text(None), "None");
    assert_eq!(code_text(Some(-3)), "Some(-3)");
}

#[test]
fn a_configured_hooks_directory_is_refused() {
    assert!(reject_configured_hooks_path(&reply(1, "")).is_ok());
    let error = reject_configured_hooks_path(&reply(0, "my \"hooks\"\n")).unwrap_err();
    assert_eq!(
        error.message(),
        "core.hooksPath is configured as \"my \\\"hooks\\\"\"; Pipeline only installs into Git's standard hooks directory"
    );
    assert!(matches!(
        reject_configured_hooks_path(&reply(2, "")),
        Err(HookError::GitFailed { .. })
    ));
}

#[test]
fn discovery_starts_in_a_directory() {
    assert_eq!(
        discovery_directory(&path("/a/b"), true, true).unwrap(),
        path("/a/b")
    );
    assert_eq!(
        discovery_directory(&path("/a/b"), false, true).unwrap(),
        path("/a")
    );
    let error = discovery_directory(&path("/a/b"), false, false).unwrap_err();
    assert_eq!(error.message(), "not a Git repository: /a/b");
    let error = canonicalize_existing(&path("/a"), Err("gone".to_owned())).unwrap_err();
    assert_eq!(error.message(), "could not canonicalize /a: gone");
}

fn replies() -> DiscoveryReplies {
    DiscoveryReplies {
        git_dir: reply(0, "/w/.git\n"),
        common_dir: reply(0, "/w/.git\n"),
        bare: reply(0, "false\n"),
        hooks_path: reply(1, ""),
        resolved_git_dir: Ok(path("/w/.git")),
        resolved_common_dir: Ok(path("/w/.git")),
        work_tree: WorkTreeReplies {
            top_level: reply(0, "/w\n"),
            resolved_top_level: Ok(path("/w")),
            elsewhere: None,
        },
        resolved_invocation_dir: Ok(path("/w/sub")),
    }
}

#[test]
fn repositories_are_assembled_from_what_git_says() {
    let found = Repository::discover(&path("/w/sub"), replies()).unwrap();
    assert!(!found.bare);
    assert_eq!(found.work_tree, Some(path("/w")));
    assert_eq!(found.root(), &path("/w"));
    assert_eq!(found.hooks_dir(), path("/w/.git/hooks"));
    assert_eq!(found.pipeline_dir(), path("/w/.git/pipeline"));
    assert_eq!(found.installed_pipeline(), path("/w/.git/pipeline/pipeline"));
    assert_eq!(found.installed_just(), path("/w/.git/pipeline/just"));
    assert_eq!(found.policy_path(), path("/w/.git/pipeline/config.yml"));
    assert_eq!(found.git_dir_option(), "--git-dir=/w/.git");
    let bare = Repository::discover(
        &path("/w/sub"),
        DiscoveryReplies {
            bare: reply(0, "true\n"),
            ..replies()
        },
    )
    .unwrap();
    assert!(bare.bare && bare.work_tree.is_none());
    assert_eq!(bare.root(), &path("/w/.git"));
    let outside = Repository::discover(
        &path("/x"),
        DiscoveryReplies {
            git_dir: reply(128, ""),
            ..replies()
        },
    );
    assert!(outside.is_err());
    let configured = Repository::discover(
        &path("/x"),
        DiscoveryReplies {
            hooks_path: reply(0, "h\n"),
            ..replies()
        },
    );
    assert!(matches!(configured, Err(HookError::ConfiguredHooksPath(_))));
}

#[test]
fn tracking_is_asked_about_inside_the_work_tree() {
    let found = Repository::discover(&path("/w"), replies()).unwrap();
    assert_eq!(
        found.tracked_query(&path("/w/a/b"), None).unwrap(),
        TrackedQuery::Ask(native(&[
            "-C",
            "/w",
            "ls-files",
            "--error-unmatch",
            "--",
            "a/b"
        ]))
    );
    match found.tracked_query(&path("c"), None).unwrap() {
        TrackedQuery::Ask(arguments) => assert_eq!(arguments[5], NativeText::from_text("c")),
        TrackedQuery::Known(_) => panic!("Git knows what is tracked"),
    }
    let error = found.tracked_query(&path("/elsewhere"), None).unwrap_err();
    assert_eq!(
        error.message(),
        "path /elsewhere is outside repository worktree /w"
    );
    let bare = repository("/r");
    assert_eq!(
        bare.tracked_query(&path("/r/x"), None).unwrap(),
        TrackedQuery::Known(false)
    );
    let tree = path("/tmp/tree");
    assert_eq!(
        bare.tracked_query(&path("/tmp/tree/x"), Some(&tree)).unwrap(),
        TrackedQuery::Known(true)
    );
    assert_eq!(
        bare.tracked_query(&path("/tmp/trees"), Some(&tree)).unwrap(),
        TrackedQuery::Known(false)
    );
    assert!(Repository::is_tracked(&reply(0, "x\n")).unwrap());
    assert!(!Repository::is_tracked(&reply(1, "")).unwrap());
    assert!(Repository::is_tracked(&reply(128, "")).is_err());
}

#[test]
fn revisions_resolve_to_commits() {
    let home = repository("/r");
    assert_eq!(
        home.commit_query("HEAD").unwrap(),
        native(&[
            "--git-dir=/r",
            "rev-parse",
            "--verify",
            "--end-of-options",
            "HEAD^{commit}"
        ])
    );
    let error = home.commit_query(" ").unwrap_err();
    assert_eq!(
        error.message(),
        "revision does not resolve to a commit: \" \""
    );
    assert_eq!(
        Repository::resolve_commit("HEAD", &reply(0, "abc\n")).unwrap(),
        "abc"
    );
    assert!(Repository::resolve_commit("HEAD", &reply(128, "")).is_err());
}

#[test]
fn work_trees_are_looked_for_beside_their_git_directory() {
    let candidates = work_tree_candidates(
        &path("/w/.git"),
        Some("/linked/.git\n"),
        &reply(0, "../tree\n"),
    )
    .unwrap();
    let shown: Vec<String> = candidates.iter().map(|place| place.shown()).collect();
    assert_eq!(shown, ["/w", "/linked", "/w/.git/../tree"]);
    let probes = vec![
        WorkTreeProbe {
            resolved: None,
            git_dir: None,
        },
        WorkTreeProbe {
            resolved: Some(path("/other")),
            git_dir: Some(path("/other/.git")),
        },
        WorkTreeProbe {
            resolved: Some(path("/linked")),
            git_dir: Some(path("/w/.git")),
        },
    ];
    assert_eq!(
        work_tree_among(&path("/w/.git"), &probes).unwrap(),
        path("/linked")
    );
    let error = work_tree_among(&path("/w/.git"), &Vec::new()).unwrap_err();
    assert_eq!(
        error.message(),
        "could not locate the worktree belonging to Git directory /w/.git"
    );
}

#[test]
fn git_names_the_work_tree_before_any_other_place() {
    let beside = || Elsewhere {
        pointer: None,
        configured: reply(1, ""),
        probes: vec![WorkTreeProbe {
            resolved: Some(path("/w")),
            git_dir: Some(path("/w/.git")),
        }],
    };
    let search = |top_level: Result<GitOutput, String>,
                  resolved_top_level: Result<HostPath, String>,
                  elsewhere: Elsewhere| {
        let work_tree = WorkTreeReplies {
            top_level,
            resolved_top_level,
            elsewhere: Some(elsewhere),
        };
        Repository::discover(
            &path("/w/sub"),
            DiscoveryReplies {
                work_tree,
                ..replies()
            },
        )
    };
    assert_eq!(
        search(reply(0, "/named\n"), Ok(path("/real")), beside())
            .unwrap()
            .work_tree,
        Some(path("/real"))
    );
    assert_eq!(
        search(reply(0, "/named\n"), Err("gone".to_owned()), beside())
            .unwrap_err()
            .message(),
        "could not canonicalize /named: gone"
    );
    let unnamed = || reply(128, "");
    assert_eq!(
        search(unnamed(), Err("unnamed".to_owned()), beside())
            .unwrap()
            .work_tree,
        Some(path("/w"))
    );
    let mut lost = beside();
    lost.probes[0].git_dir = Some(path("/other"));
    assert!(matches!(
        search(unnamed(), Err("unnamed".to_owned()), lost),
        Err(HookError::WorkTreeNotFound(_))
    ));
    let mut silent = beside();
    silent.configured = Err("no git".to_owned());
    assert!(matches!(
        search(unnamed(), Err("unnamed".to_owned()), silent),
        Err(HookError::GitStart { .. })
    ));
}

#[test]
fn queries_are_spelled_for_git() {
    assert_eq!(
        git_dir_query(),
        ["rev-parse", "--path-format=absolute", "--git-dir"]
    );
    assert_eq!(
        common_dir_query(),
        ["rev-parse", "--path-format=absolute", "--git-common-dir"]
    );
    assert_eq!(bare_query(), ["rev-parse", "--is-bare-repository"]);
    assert_eq!(
        top_level_query(),
        ["rev-parse", "--show-toplevel"]
    );
}

#[test]
fn every_hook_error_has_its_message() {
    let at = path("/p");
    let cases = [
        (
            HookError::ManagedWithExplicitHooks,
            "--managed cannot be combined with explicit hook names",
        ),
        (
            HookError::LinkSourceNotInPath {
                command: "just".to_owned(),
                path: at.clone(),
            },
            "cannot link just from /p: the same executable is not available from PATH",
        ),
        (
            HookError::LinkTargetIsSource(at.clone()),
            "cannot replace /p with a symlink to itself; run Pipeline from another PATH location",
        ),
        (
            HookError::ExecutableSource {
                path: at.clone(),
                source: "gone".to_owned(),
            },
            "could not use executable source /p: gone",
        ),
        (
            HookError::NotExecutable(at.clone()),
            "file is not executable: /p",
        ),
        (
            HookError::InvalidInstallPath(at.clone()),
            "invalid installation path: /p",
        ),
        (
            HookError::InstallTransaction("why".to_owned()),
            "hook installation transaction failed: why",
        ),
        (HookError::Io("disk".to_owned()), "disk"),
    ];
    for (error, message) in cases {
        assert_eq!(error.message(), message);
    }
}

fn check_out(
    revision: &str,
    commit: &str,
    broken: &str,
) -> (Vec<String>, Result<MaterializedTree, HookError>) {
    let mut calls = Vec::new();
    let mut checkout = Materialization::new(&repository("/r"), revision);
    loop {
        let answer = match checkout.step() {
            TreeStep::Git {
                arguments,
                environment,
            } => {
                let words: Vec<String> = environment
                    .iter()
                    .map(|(name, value)| format!("{}={}", name.shown(), value.shown()))
                    .chain(arguments.iter().map(|word| word.shown()))
                    .collect();
                let code = if words.iter().any(|word| word == broken) {
                    128
                } else {
                    0
                };
                calls.push(words.join(" "));
                TreeReply::Ran(reply(code, commit))
            }
            TreeStep::MakeTemporary => TreeReply::Directory(path("/tmp/t")),
            TreeStep::MakeDirectory(place) => {
                calls.push(place.shown());
                TreeReply::Done
            }
            TreeStep::End => return (calls, checkout.finish()),
        };
        checkout = checkout.advance(answer);
    }
}

#[test]
fn commits_are_checked_out_with_an_index_of_their_own() {
    let (calls, tree) = check_out("main", "abc\n", "nothing");
    assert_eq!(
        calls,
        [
            "--git-dir=/r rev-parse --verify --end-of-options main^{commit}",
            "/tmp/t/worktree",
            "GIT_INDEX_FILE=/tmp/t/index --git-dir=/r read-tree -- abc",
            "GIT_INDEX_FILE=/tmp/t/index GIT_LFS_SKIP_SMUDGE=1 --git-dir=/r --work-tree=/tmp/t/worktree checkout-index --all --force",
        ]
    );
    let tree = tree.unwrap();
    assert_eq!(tree.path(), &path("/tmp/t/worktree"));
    assert_eq!(tree.index_path(), &path("/tmp/t/index"));
    assert_eq!(tree.commit, "abc");
}

#[test]
fn failed_checkouts_say_why() {
    let cases = [
        (
            check_out(" ", "abc", "nothing").1,
            "revision does not resolve to a commit: \" \"",
        ),
        (
            check_out("main", "abc", "rev-parse").1,
            "revision does not resolve to a commit: \"main\"",
        ),
        (
            check_out("main", "\n", "nothing").1,
            "revision does not resolve to a commit: \"main\"",
        ),
        (
            check_out("main", "abc", "read-tree").1,
            "git read-tree failed (status Some(128)): trouble",
        ),
        (
            check_out("main", "abc", "checkout-index").1,
            "git checkout-index failed (status Some(128)): trouble",
        ),
    ];
    for (result, message) in cases {
        assert_eq!(result.unwrap_err().message(), message);
    }
    let refused = Materialization::new(&repository("/r"), "main")
        .advance(TreeReply::Ran(reply(0, "abc")))
        .advance(TreeReply::Refused("full".to_owned()));
    assert_eq!(refused.finish().unwrap_err().message(), "full");
}

#[test]
fn removed_hooks_are_taken_from_those_that_are_there() {
    let home = repository("/r.git");
    let mut disk: BTreeMap<String, String> = BTreeMap::new();
    for hook in ["pre-commit", "pre-push", "update"] {
        disk.insert(hook_path(&home, hook).shown(), hook_wrapper(hook));
    }
    let survey = |disk: &BTreeMap<String, String>| {
        let files = SUPPORTED_HOOKS
            .iter()
            .map(|hook| look(disk, &hook_path(&home, hook)))
            .collect();
        installed_managed_hooks(&files).unwrap()
    };
    assert_eq!(survey(&disk), set(&["pre-commit", "pre-push", "update"]));
    let report = run_removal(&home, set(&["commit-msg", "update"]), &mut disk).unwrap();
    assert_eq!(report.hooks, set(&["update"]));
    assert_eq!(survey(&disk), set(&["pre-commit", "pre-push"]));
}
