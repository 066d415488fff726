use pipeline::cli::{install_modes, job_limit, rewrite_argv, AddArgs};
use pipeline::definition::limits::{JobCount, JobLimit};
use pipeline::hooks::request::{InstallMode, InstallModes};
use pipeline::native::NativeText;

fn native(words: &[&str]) -> Vec<NativeText> {
    words.iter().map(|word| NativeText::from_text(word)).collect()
}

fn texts(list: Vec<NativeText>) -> Vec<String> {
    list.iter().map(|word| word.shown()).collect()
}

fn add_args() -> AddArgs {
    AddArgs {
        link: false,
        copy: false,
        link_pipeline: false,
        copy_pipeline: false,
        link_just: false,
        copy_just: false,
        managed: false,
        hooks: Vec::new(),
    }
}

#[test]
fn rewrites_targets_to_run() {
    let argv = rewrite_argv(native(&["pipeline", "check"]));
    assert_eq!(texts(argv), ["pipeline", "run", "check"]);
}

#[test]
fn separator_forces_management_name_to_be_a_target() {
    let argv = rewrite_argv(native(&["pipeline", "--", "add"]));
    assert_eq!(texts(argv), ["pipeline", "run", "--", "add"]);
}

#[test]
fn leaves_management_commands_alone() {
    let argv = rewrite_argv(native(&["pipeline", "install"]));
    assert_eq!(texts(argv), ["pipeline", "install"]);
}

#[test]
fn run_is_an_ordinary_target() {
    let argv = rewrite_argv(native(&["pipeline", "run"]));
    assert_eq!(texts(argv), ["pipeline", "run", "run"]);
}

#[test]
fn a_bare_call_runs_the_default() {
    assert_eq!(texts(rewrite_argv(native(&["pipeline"]))), ["pipeline", "run"]);
}

#[test]
fn every_reserved_word_is_left_alone() {
    for word in [
        "add",
        "install",
        "remove",
        "uninstall",
        "__hook",
        "help",
        "-h",
        "--help",
        "-V",
        "--version",
    ] {
        assert_eq!(
            texts(rewrite_argv(native(&["pipeline", word, "x"]))),
            ["pipeline", word, "x"]
        );
    }
    let odd = NativeText { bytes: vec![0xff] };
    let argv = rewrite_argv(vec![NativeText::from_text("pipeline"), odd.clone()]);
    assert_eq!(argv[1], NativeText::from_text("run"));
    assert_eq!(argv[2], odd);
}

#[test]
fn job_options_become_limits() {
    let three = JobCount::new(3).unwrap();
    assert_eq!(job_limit(Some(three), None), JobLimit::PerProcess(three));
    assert_eq!(job_limit(None, Some(three)), JobLimit::Capped(three));
    assert_eq!(job_limit(None, None), JobLimit::Default);
}

#[test]
fn own_modes_override_the_global_one() {
    assert_eq!(install_modes(&add_args()), InstallModes::default());
    let modes = install_modes(&AddArgs {
        link: true,
        copy_just: true,
        ..add_args()
    });
    assert_eq!(modes.pipeline, InstallMode::Link);
    assert_eq!(modes.just, InstallMode::Copy);
    let modes = install_modes(&AddArgs {
        copy: true,
        link_pipeline: true,
        ..add_args()
    });
    assert_eq!(modes.pipeline, InstallMode::Link);
    assert_eq!(modes.just, InstallMode::Copy);
}

#[test]
fn job_limits_reach_the_right_processes() {
    let eight = JobCount::new(8).unwrap();
    assert!(JobCount::new(0).is_none());
    assert_eq!(JobLimit::default().outer_jobs(), None);
    assert_eq!(JobLimit::Default.nested_jobs(), None);
    assert_eq!(JobLimit::PerProcess(eight).outer_jobs(), Some(eight));
    assert_eq!(JobLimit::PerProcess(eight).nested_jobs(), Some(eight));
    assert_eq!(JobLimit::Capped(eight).outer_jobs(), Some(eight));
    assert_eq!(JobLimit::Capped(eight).nested_jobs(), Some(JobCount::one()));
    assert_eq!(eight.get(), 8);
}
