use pipeline::hooks::error::HookError;
use pipeline::hooks::install::{
    executable_source, is_executable, plan_install, preflight_install, resolve_in_path,
    resolve_install_mode, resolve_target_install_mode, same_file_or_path, staging_of,
    validate_hook_destinations, validate_install_layout, ExecutableFacts, FileId, FileMode,
    InstallJob, InstallPlan, InstallReport, InstallSources, LayoutProbes, PathLookup, SourceFacts, Staging,
    TargetLink,
};
use pipeline::hooks::installation::{InstallReply, InstallStep, Installation};
use pipeline::hooks::ownership::{
    hook_path, hook_wrapper, installed_managed_hooks, FileProbe, HookFile, MANAGED_HOOK_MARKER,
};
use pipeline::hooks::repository::Repository;
use pipeline::hooks::supported_hook_list;
use pipeline::hooks::request::{InstallMode, InstallModes};
use pipeline::hooks::transaction::{StagedEntry, StepReply, Transaction, TransactionStep};
use pipeline::names::NameSet;
use pipeline::native::HostPath;
use std::collections::BTreeMap;

type Disk = BTreeMap<String, String>;

fn path(text: &str) -> HostPath {
    HostPath::from_text(text)
}

fn set(names: &[&str]) -> NameSet {
    NameSet::from_names(&names.iter().map(|name| (*name).to_owned()).collect())
}

fn repository(root: &str) -> Repository {
    Repository {
        invocation_dir: path(root),
        git_dir: path(root),
        common_dir: path(root),
        work_tree: None,
        bare: true,
    }
}

fn look(disk: &Disk, at: &HostPath) -> HookFile {
    match disk.get(&at.shown()) {
        Some(contents) => HookFile {
            probe: FileProbe::File,
            contents: Ok(contents.clone().into_bytes()),
        },
        None => HookFile {
            probe: FileProbe::Missing,
            contents: Err("gone".to_owned()),
        },
    }
}

fn perform(step: &TransactionStep, disk: &mut Disk, unreachable_dir: &str) -> StepReply {
    match step {
        TransactionStep::Inspect(at) => StepReply::Found(look(disk, at)),
        TransactionStep::Reserve(at) => StepReply::Vacant(path(&format!("{}.backup", at.shown()))),
        TransactionStep::Rename { from, to } => {
            if to.shown().starts_with(unreachable_dir) {
                return StepReply::Failed("no such directory".to_owned());
            }
            match disk.remove(&from.shown()) {
                Some(contents) => {
                    disk.insert(to.shown(), contents);
                    StepReply::Done
                }
                None => StepReply::Failed("no such file".to_owned()),
            }
        }
        TransactionStep::Remove(at) => {
            disk.remove(&at.shown());
            StepReply::Done
        }
        _ => unreachable!(),
    }
}

fn run_transaction(entries: Vec<StagedEntry>, disk: &mut Disk) -> (Transaction, Option<String>) {
    let mut transaction = Transaction::new(entries);
    loop {
        match transaction.step() {
            TransactionStep::Commit => return (transaction, None),
            TransactionStep::Abort(reason) => return (transaction, Some(reason)),
            step => {
                let reply = perform(&step, disk, "/second-parent");
                transaction = transaction.advance(reply);
            }
        }
    }
}

fn staged(temporary: &str, target: &str, require_managed: bool) -> StagedEntry {
    StagedEntry {
        temporary: path(temporary),
        target: path(target),
        require_managed,
    }
}

fn executable_at(canonical: &str) -> SourceFacts {
    SourceFacts {
        canonical: Ok(path(canonical)),
        mode: Ok(FileMode {
            is_file: true,
            mode: 0o100755,
        }),
    }
}

fn nowhere() -> PathLookup {
    PathLookup {
        found: None,
        found_id: None,
        source_id: None,
    }
}

fn facts(source: SourceFacts) -> ExecutableFacts {
    ExecutableFacts {
        source,
        target_is_link: Ok(false),
        lookup: nowhere(),
    }
}

fn free_layout() -> LayoutProbes {
    LayoutProbes {
        pipeline_dir: FileProbe::Missing,
        hooks_dir: FileProbe::Directory,
        pipeline: FileProbe::Missing,
        just: FileProbe::Missing,
    }
}

#[test]
fn unmanaged_collision_is_checked_before_any_wrapper_changes() {
    let home = repository("/r.git");
    let mut disk = Disk::new();
    let unmanaged = hook_path(&home, "pre-push");
    disk.insert(unmanaged.shown(), "#!/bin/sh\nexit 0\n".to_owned());
    let hooks = vec!["pre-commit".to_owned(), "pre-push".to_owned()];
    let files: Vec<HookFile> = hooks
        .iter()
        .map(|hook| look(&disk, &hook_path(&home, hook)))
        .collect();

    assert!(matches!(
        validate_hook_destinations(&home, &hooks, &files),
        Err(HookError::UnmanagedHook(path)) if path == unmanaged
    ));
}

#[test]
fn commit_rechecks_hook_ownership() {
    let mut disk = Disk::new();
    disk.insert(
        "/r.git/hooks/pre-commit".to_owned(),
        "#!/bin/sh\necho unmanaged\n".to_owned(),
    );
    let mut only = job(true, true);
    only.hooks = set(&["pre-commit"]);
    let error = install(only, &mut disk, "/none").unwrap_err();
    assert!(matches!(&error, HookError::InstallTransaction(_)));
    assert!(error.message().contains("unmanaged hook"));
    assert_eq!(
        disk["/r.git/hooks/pre-commit"],
        "#!/bin/sh\necho unmanaged\n"
    );
}

#[test]
fn transaction_restores_earlier_targets_when_a_later_commit_fails() {
    let mut disk = Disk::new();
    disk.insert("/first".to_owned(), "old\n".to_owned());
    disk.insert("/first.tmp".to_owned(), "new\n".to_owned());
    disk.insert("/moved-parent/second.tmp".to_owned(), "second\n".to_owned());
    let (transaction, failure) = run_transaction(
        vec![
            staged("/first.tmp", "/first", false),
            staged("/moved-parent/second.tmp", "/second-parent/second", false),
        ],
        &mut disk,
    );
    assert_eq!(failure.as_deref(), Some("no such directory"));
    assert!(transaction.restored());
    assert_eq!(disk["/first"], "old\n");
}

#[test]
fn committed_entries_stand_at_their_targets() {
    let mut disk = Disk::new();
    disk.insert("/a".to_owned(), "old\n".to_owned());
    disk.insert("/a.tmp".to_owned(), "new\n".to_owned());
    disk.insert("/b.tmp".to_owned(), "b\n".to_owned());
    let (transaction, failure) = run_transaction(
        vec![staged("/a.tmp", "/a", false), staged("/b.tmp", "/b", true)],
        &mut disk,
    );
    assert_eq!(failure, None);
    assert!(transaction.restored());
    assert_eq!(disk["/a"], "new\n");
    assert_eq!(disk["/b"], "b\n");
    assert_eq!(disk["/a.backup"], "old\n");
    let (_, failure) = run_transaction(Vec::new(), &mut disk);
    assert_eq!(failure, None);
}

#[test]
fn what_cannot_be_put_back_is_named() {
    let transaction = Transaction::new(vec![
        staged("/a.tmp", "/a", false),
        staged("/b.tmp", "/b", false),
    ]);
    let there = || {
        StepReply::Found(HookFile {
            probe: FileProbe::File,
            contents: Ok(Vec::new()),
        })
    };
    let transaction = transaction
        .advance(there())
        .advance(StepReply::Vacant(path("/a.old")))
        .advance(StepReply::Done)
        .advance(StepReply::Done)
        .advance(there())
        .advance(StepReply::Vacant(path("/b.old")))
        .advance(StepReply::Done)
        .advance(StepReply::Failed("full".to_owned()));
    assert_eq!(
        transaction.step(),
        TransactionStep::Rename {
            from: path("/b.old"),
            to: path("/b")
        }
    );
    let transaction = transaction.advance(StepReply::Stuck {
        error: "busy".to_owned(),
        keep_error: None,
    });
    let transaction = transaction.advance(StepReply::Stuck {
        error: "locked".to_owned(),
        keep_error: Some("lost".to_owned()),
    });
    assert!(!transaction.restored());
    assert_eq!(
        transaction.step(),
        TransactionStep::Abort(
            "hook installation transaction failed: full; restoring /b also failed: busy; original retained at /b.old; rollback also failed for /a: locked; original retained at /a.old; could not preserve backup: lost"
                .to_owned()
        )
    );
}

#[test]
fn invalid_second_binary_source_is_checked_before_any_installation() {
    let home = repository("/r.git");
    let sources = InstallSources {
        pipeline: path("/source-pipeline"),
        just: path("/missing-just"),
    };
    let hooks = set(&["pre-commit"]);
    let absent = vec![look(&Disk::new(), &hook_path(&home, "pre-commit"))];
    let result = plan_install(
        &home,
        &hooks,
        &absent,
        &free_layout(),
        &sources,
        &facts(executable_at("/source-pipeline")),
        &facts(SourceFacts {
            canonical: Err("No such file or directory".to_owned()),
            mode: Err("No such file or directory".to_owned()),
        }),
        InstallModes::new(InstallMode::Copy, None, None),
    );
    assert_eq!(
        result.err().unwrap().message(),
        "could not use executable source /missing-just: No such file or directory"
    );
}

#[test]
fn explicit_copy_replaces_an_existing_link() {
    let link = TargetLink {
        exists: true,
        is_link: Ok(true),
        leads_to: Ok(path("/source")),
    };
    let free = TargetLink {
        exists: false,
        is_link: Err("gone".to_owned()),
        leads_to: Err("gone".to_owned()),
    };
    let source = path("/source");
    let target = path("/target");
    assert_eq!(
        staging_of(&source, &target, InstallMode::Link, &free).unwrap(),
        Staging::Link
    );
    assert_eq!(
        staging_of(&source, &target, InstallMode::Link, &link).unwrap(),
        Staging::Nothing
    );
    assert_eq!(
        staging_of(&source, &target, InstallMode::Copy, &link).unwrap(),
        Staging::Copy
    );
}

#[test]
fn explicit_modes_replace_hardlinks_and_noncanonical_symlinks() {
    let hardlink = TargetLink {
        exists: true,
        is_link: Ok(false),
        leads_to: Err("no link".to_owned()),
    };
    assert_eq!(
        staging_of(
            &path("/source"),
            &path("/copy-target"),
            InstallMode::Copy,
            &hardlink
        )
        .unwrap(),
        Staging::Copy
    );
    let relative = TargetLink {
        exists: true,
        is_link: Ok(true),
        leads_to: Ok(path("source")),
    };
    assert_eq!(
        staging_of(
            &path("/source"),
            &path("/link-target"),
            InstallMode::Link,
            &relative
        )
        .unwrap(),
        Staging::Link
    );
    assert_eq!(
        staging_of(&path("/same"), &path("/same"), InstallMode::Copy, &hardlink).unwrap(),
        Staging::Nothing
    );
}

#[test]
fn an_installed_executable_is_never_linked_to_itself() {
    let target = path("/pipeline");
    let resolve = |mode: InstallMode| {
        resolve_target_install_mode(
            "pipeline",
            &target,
            &executable_at("/pipeline"),
            &target,
            &Ok(false),
            &nowhere(),
            mode,
        )
    };
    assert_eq!(resolve(InstallMode::Auto).unwrap(), InstallMode::Copy);
    assert!(matches!(
        resolve(InstallMode::Link),
        Err(HookError::LinkTargetIsSource(path)) if path == target
    ));
}

#[test]
fn executables_in_the_path_are_linked() {
    let id = |inode: u64| Some(FileId { device: 1, inode });
    let source = path("/opt/just");
    let lookup = |found: Option<&str>, found_id: Option<FileId>| PathLookup {
        found: found.map(path),
        found_id,
        source_id: Some(FileId {
            device: 1,
            inode: 7,
        }),
    };
    let resolve = |lookup: &PathLookup, mode: InstallMode| {
        resolve_install_mode("just", &source, &executable_at("/opt/just"), lookup, mode)
    };
    let there = lookup(Some("/usr/bin/just"), id(7));
    let other = lookup(Some("/usr/bin/just"), id(8));
    assert_eq!(resolve(&there, InstallMode::Auto).unwrap(), InstallMode::Link);
    assert_eq!(resolve(&there, InstallMode::Link).unwrap(), InstallMode::Link);
    assert_eq!(resolve(&there, InstallMode::Copy).unwrap(), InstallMode::Copy);
    assert_eq!(resolve(&other, InstallMode::Auto).unwrap(), InstallMode::Copy);
    assert!(matches!(
        resolve(&lookup(None, None), InstallMode::Link),
        Err(HookError::LinkSourceNotInPath { .. })
    ));
    assert!(same_file_or_path(&path("/a"), None, &path("/a/."), None));
    assert!(!same_file_or_path(&path("/a"), id(1), &path("/b"), None));
}

#[test]
fn the_path_is_searched_in_order() {
    let mode = |bits: u32| {
        Some(FileMode {
            is_file: true,
            mode: bits,
        })
    };
    let directories = vec![path("/a"), path("/b"), path("/c")];
    assert_eq!(
        resolve_in_path("just", &directories, &vec![mode(0o644), mode(0o711), mode(0o755)]),
        Some(path("/b/just"))
    );
    assert_eq!(
        resolve_in_path("just", &directories, &vec![None, None, mode(0o600)]),
        None
    );
    assert!(!is_executable(FileMode {
        is_file: false,
        mode: 0o755
    }));
}

#[test]
fn sources_are_resolved_executable_files() {
    assert_eq!(
        executable_source(&path("just"), &executable_at("/opt/just")).unwrap(),
        path("/opt/just")
    );
    let plain = SourceFacts {
        canonical: Ok(path("/opt/just")),
        mode: Ok(FileMode {
            is_file: true,
            mode: 0o644,
        }),
    };
    assert_eq!(
        executable_source(&path("just"), &plain).unwrap_err().message(),
        "file is not executable: /opt/just"
    );
}

#[test]
fn every_place_of_an_installation_is_checked() {
    let home = repository("/r.git");
    assert!(validate_install_layout(&home, &free_layout()).is_ok());
    let cases = [
        (
            LayoutProbes {
                pipeline_dir: FileProbe::File,
                ..free_layout()
            },
            "invalid installation path: /r.git/pipeline",
        ),
        (
            LayoutProbes {
                hooks_dir: FileProbe::Symlink,
                ..free_layout()
            },
            "invalid installation path: /r.git/hooks",
        ),
        (
            LayoutProbes {
                pipeline: FileProbe::Directory,
                ..free_layout()
            },
            "invalid installation path: /r.git/pipeline/pipeline",
        ),
        (
            LayoutProbes {
                just: FileProbe::Other,
                ..free_layout()
            },
            "invalid installation path: /r.git/pipeline/just",
        ),
        (
            LayoutProbes {
                just: FileProbe::Unknown("denied".to_owned()),
                ..free_layout()
            },
            "denied",
        ),
    ];
    for (layout, message) in cases {
        assert_eq!(
            validate_install_layout(&home, &layout).unwrap_err().message(),
            message
        );
    }
}

#[test]
fn nothing_is_planned_for_no_hooks() {
    let home = repository("/r.git");
    let sources = InstallSources {
        pipeline: path("/p"),
        just: path("/j"),
    };
    let modes = InstallModes::new(InstallMode::Auto, None, Some(InstallMode::Copy));
    let plan = |hooks: &NameSet, files: &Vec<HookFile>| {
        plan_install(
            &home,
            hooks,
            files,
            &free_layout(),
            &sources,
            &facts(executable_at("/p")),
            &facts(executable_at("/j")),
            modes,
        )
    };
    match plan(&set(&[]), &Vec::new()) {
        Ok(InstallPlan::Nothing(report)) => assert_eq!(
            report,
            InstallReport {
                hooks: set(&[]),
                pipeline_mode: InstallMode::Auto,
                just_mode: InstallMode::Copy,
            }
        ),
        _ => panic!("nothing is to be installed"),
    }
    let absent = vec![look(&Disk::new(), &path("/x"))];
    match plan(&set(&["update"]), &absent) {
        Ok(InstallPlan::Install(job)) => {
            assert_eq!(job.repository.common_dir, home.common_dir);
            assert_eq!(job.hooks, set(&["update"]));
            assert_eq!(job.pipeline_source, path("/p"));
            assert_eq!(job.just_source, path("/j"));
            assert_eq!(job.pipeline_mode, InstallMode::Copy);
            assert_eq!(job.just_mode, InstallMode::Copy);
            assert!(!job.pipeline_dir_existed);
            assert!(job.hooks_dir_existed);
        }
        _ => panic!("something is to be installed"),
    }
    assert!(preflight_install(
        &home,
        &set(&["update"]),
        &absent,
        &free_layout(),
        &sources.pipeline,
        &facts(executable_at("/p")),
        InstallMode::Auto,
    )
    .is_ok());
    assert!(plan(&set(&["unknown"]), &absent).is_err());
}

fn job(pipeline_dir_existed: bool, hooks_dir_existed: bool) -> InstallJob {
    InstallJob {
        repository: repository("/r.git"),
        hooks: set(&["pre-commit", "update"]),
        pipeline_source: path("/p"),
        just_source: path("/j"),
        pipeline_mode: InstallMode::Copy,
        just_mode: InstallMode::Copy,
        pipeline_dir_existed,
        hooks_dir_existed,
    }
}

fn install(job: InstallJob, disk: &mut Disk, broken: &str) -> Result<InstallReport, HookError> {
    let mut installation = Installation::new(job);
    loop {
        let reply = match installation.step() {
            InstallStep::MakeDirectory(at) => {
                disk.insert(format!("{}/", at.shown()), String::new());
                InstallReply::Done
            }
            InstallStep::Examine { source, target } => InstallReply::Examined {
                source: executable_at(&source.shown()),
                link: TargetLink {
                    exists: disk.contains_key(&target.shown()),
                    is_link: Ok(disk.get(&target.shown()).map_or(false, |text| {
                        text.starts_with("-> ")
                    })),
                    leads_to: match disk.get(&target.shown()) {
                        Some(text) => Ok(path(text.trim_start_matches("-> "))),
                        None => Err("gone".to_owned()),
                    },
                },
            },
            InstallStep::StageCopy {
                source,
                target,
                mode,
            } => {
                assert_eq!(mode, 0o755);
                if source.shown() == broken {
                    InstallReply::NotStaged(HookError::Io("unreadable".to_owned()))
                } else {
                    let temporary = format!("{}.tmp", target.shown());
                    disk.insert(temporary.clone(), source.shown());
                    InstallReply::Staged(path(&temporary))
                }
            }
            InstallStep::StageLink { source, target } => {
                let temporary = format!("{}.tmp", target.shown());
                disk.insert(temporary.clone(), format!("-> {}", source.shown()));
                InstallReply::Staged(path(&temporary))
            }
            InstallStep::StageWrapper {
                target,
                contents,
                mode,
            } => {
                assert_eq!(mode, 0o755);
                let temporary = format!("{}.tmp", target.shown());
                disk.insert(temporary.clone(), contents);
                InstallReply::Staged(path(&temporary))
            }
            InstallStep::Transact(step) => {
                InstallReply::Transacted(perform(&step, disk, broken))
            }
            InstallStep::RemoveDirectory(at) => {
                let prefix = format!("{}/", at.shown());
                if disk.keys().any(|key| key.len() > prefix.len() && key.starts_with(&prefix)) {
                    InstallReply::Refused("not empty".to_owned())
                } else {
                    disk.remove(&prefix);
                    InstallReply::Done
                }
            }
            InstallStep::End => return installation.finish(),
        };
        installation = installation.advance(reply);
    }
}

#[test]
fn an_installation_puts_everything_in_place() {
    let mut disk = Disk::new();
    let report = install(job(false, true), &mut disk, "/none").unwrap();
    assert_eq!(report.hooks, set(&["pre-commit", "update"]));
    assert_eq!(report.pipeline_mode, InstallMode::Copy);
    assert_eq!(disk["/r.git/pipeline/pipeline"], "/p");
    assert_eq!(disk["/r.git/pipeline/just"], "/j");
    assert_eq!(disk["/r.git/hooks/update"], hook_wrapper("update"));
    assert!(disk["/r.git/hooks/pre-commit"].contains(MANAGED_HOOK_MARKER));
}

#[test]
fn a_failed_installation_leaves_no_new_directory() {
    let mut disk = Disk::new();
    let mut broken = job(false, false);
    broken.pipeline_source = path("/r.git/pipeline/pipeline");
    let error = install(broken, &mut disk, "/j").unwrap_err();
    assert_eq!(error.message(), "unreadable");
    assert!(disk.is_empty());
    let mut kept = job(true, true);
    kept.pipeline_source = path("/r.git/pipeline/pipeline");
    install(kept, &mut disk, "/j").unwrap_err();
    assert_eq!(
        disk.keys().cloned().collect::<Vec<_>>(),
        ["/r.git/hooks/", "/r.git/pipeline/"]
    );
}

#[test]
fn a_failed_transaction_fails_the_installation() {
    let mut disk = Disk::new();
    disk.insert("/r.git/hooks/update".to_owned(), "mine\n".to_owned());
    let error = install(job(true, true), &mut disk, "/none").unwrap_err();
    assert_eq!(
        error.message(),
        "hook installation transaction failed: refusing to replace or remove unmanaged hook /r.git/hooks/update"
    );
    assert_eq!(disk["/r.git/hooks/update"], "mine\n");
    assert!(!disk.contains_key("/r.git/hooks/pre-commit"));
    assert!(!disk.contains_key("/r.git/pipeline/just"));
}

#[test]
fn executables_are_examined_before_they_are_staged() {
    let ready = || {
        let mut linked = job(true, true);
        linked.pipeline_mode = InstallMode::Link;
        Installation::new(linked)
            .advance(InstallReply::Done)
            .advance(InstallReply::Done)
    };
    let link = |leads_to: &str| TargetLink {
        exists: true,
        is_link: Ok(true),
        leads_to: Ok(path(leads_to)),
    };
    let target = path("/r.git/pipeline/pipeline");
    assert_eq!(
        ready().step(),
        InstallStep::Examine {
            source: path("/p"),
            target: target.clone()
        }
    );
    let examined = |source: SourceFacts, link: TargetLink| {
        ready().advance(InstallReply::Examined { source, link })
    };
    assert_eq!(
        examined(executable_at("/real/p"), link("/other")).step(),
        InstallStep::StageLink {
            source: path("/real/p"),
            target
        }
    );
    assert_eq!(
        examined(executable_at("/real/p"), link("/real/p")).step(),
        InstallStep::Examine {
            source: path("/j"),
            target: path("/r.git/pipeline/just")
        }
    );
    let gone = SourceFacts {
        canonical: Err("gone".to_owned()),
        mode: Err("gone".to_owned()),
    };
    assert_eq!(
        examined(gone, link("/p")).finish().unwrap_err().message(),
        "could not use executable source /p: gone"
    );
    let plain = SourceFacts {
        canonical: Ok(path("/real/p")),
        mode: Ok(FileMode {
            is_file: true,
            mode: 0o644,
        }),
    };
    assert_eq!(
        examined(plain, link("/p")).finish().unwrap_err().message(),
        "file is not executable: /real/p"
    );
}

#[test]
fn installed_hooks_are_added_to_those_that_are_there() {
    let home = repository("/r.git");
    let mut disk = Disk::new();
    disk.insert("/r.git/hooks/pre-push".to_owned(), hook_wrapper("pre-push"));
    disk.insert("/r.git/hooks/commit-msg".to_owned(), "mine\n".to_owned());
    let survey = |disk: &Disk| {
        let files = supported_hook_list()
            .iter()
            .map(|hook| look(disk, &hook_path(&home, hook)))
            .collect();
        installed_managed_hooks(&files).unwrap()
    };
    assert_eq!(survey(&disk), set(&["pre-push"]));
    install(job(true, true), &mut disk, "/none").unwrap();
    assert_eq!(survey(&disk), set(&["pre-commit", "pre-push", "update"]));
    install(job(true, true), &mut disk, "/none").unwrap();
    assert_eq!(survey(&disk), set(&["pre-commit", "pre-push", "update"]));
    assert_eq!(disk["/r.git/hooks/commit-msg"], "mine\n");
}

#[test]
fn a_failed_installation_changes_no_installed_hook() {
    let mut disk = Disk::new();
    disk.insert(
        "/r.git/hooks/pre-commit".to_owned(),
        hook_wrapper("pre-commit"),
    );
    disk.insert("/r.git/hooks/update".to_owned(), "mine\n".to_owned());
    install(job(true, true), &mut disk, "/none").unwrap_err();
    assert_eq!(
        disk["/r.git/hooks/pre-commit"],
        hook_wrapper("pre-commit")
    );
    assert_eq!(disk["/r.git/hooks/update"], "mine\n");
}
