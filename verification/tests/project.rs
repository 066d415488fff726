use indexmap::IndexMap;
use pipeline::definition::error::DefinitionError;
use pipeline::definition::limits::{JobCount, JobLimit};
use pipeline::definition::model::{JobSpec, PipelineConfig, PipelineSpec};
use pipeline::definition::project::{
    ControlBoundary, DefinitionFile, DefinitionKind, Preparation, PreparedRun, Project, RunOptions,
    StdinSource, YamlContents,
};
use pipeline::definition::search::{
    definition_candidates, first_found, found_definition, found_justfile, justfile_candidates,
    search_root, FileFacts,
};
use pipeline::definition::selection::Selection;
use pipeline::hooks::supported_hook_list;
use pipeline::native::{HostPath, NativeText};

fn path(text: &str) -> HostPath {
    HostPath::from_text(text)
}

fn shown(list: &[HostPath]) -> Vec<String> {
    list.iter().map(|item| item.shown()).collect()
}

fn words(list: &[NativeText]) -> Vec<String> {
    list.iter().map(|item| item.shown()).collect()
}

fn present(candidates: &[HostPath], files: &[&str]) -> Vec<bool> {
    candidates
        .iter()
        .map(|candidate| files.contains(&candidate.shown().as_str()))
        .collect()
}

fn job(just: &str, triggers: &[&str]) -> JobSpec {
    JobSpec {
        just: just.to_owned(),
        needs: Vec::new(),
        triggers: triggers.iter().map(|hook| (*hook).to_owned()).collect(),
    }
}

fn check_config() -> PipelineConfig {
    let mut jobs = IndexMap::new();
    jobs.insert("test".to_owned(), job("test", &["pre-commit"]));
    let mut pipelines = IndexMap::new();
    pipelines.insert(
        "check".to_owned(),
        PipelineSpec {
            needs: Vec::new(),
            triggers: Vec::new(),
            jobs,
        },
    );
    PipelineConfig {
        version: 1,
        triggers: IndexMap::new(),
        pipelines,
    }
}

fn open_at(requested: &str, contents: Option<YamlContents>) -> Project {
    let requested = path(requested);
    let root = Project::parent_directory(&requested);
    let file = Project::locate(&requested, Ok(true), Ok(root)).ok().unwrap();
    Project::open(file, contents).ok().unwrap()
}

fn yaml_project() -> Project {
    open_at(
        "/repository/pipeline.yml",
        Some(YamlContents::Parsed(check_config())),
    )
}

fn boundary(resolved: Result<HostPath, String>) -> ControlBoundary {
    ControlBoundary {
        root: path("/repository"),
        resolved,
    }
}

fn message(error: DefinitionError) -> String {
    error.message()
}

#[test]
fn discovery_uses_nearest_directory_then_filename_precedence() {
    let child = path("/root/a/b");
    let candidates = definition_candidates(&child, None).ok().unwrap();
    let files = ["/root/pipeline.yml", "/root/Pipelinefile"];
    let found = found_definition(&child, &candidates, &present(&candidates, &files))
        .ok()
        .unwrap();
    let file = Project::locate(&found, Ok(true), Ok(path("/root"))).ok().unwrap();
    assert_eq!(file.kind, DefinitionKind::Pipelinefile);

    let files = [
        "/root/pipeline.yml",
        "/root/Pipelinefile",
        "/root/a/b/.pipeline.yml",
    ];
    let found = found_definition(&child, &candidates, &present(&candidates, &files))
        .ok()
        .unwrap();
    assert_eq!(found, path("/root/a/b/.pipeline.yml"));
}

#[test]
fn boundary_is_inclusive_and_not_crossed() {
    let repository = path("/root/repo");
    let child = path("/root/repo/nested");
    let candidates = definition_candidates(&child, Some(&repository)).ok().unwrap();
    let files = ["/root/Pipelinefile"];
    assert!(matches!(
        found_definition(&child, &candidates, &present(&candidates, &files)),
        Err(DefinitionError::NotFound { .. })
    ));
    assert_eq!(
        shown(&candidates),
        [
            "/root/repo/nested/Pipelinefile",
            "/root/repo/nested/pipeline.yml",
            "/root/repo/nested/.pipeline.yml",
            "/root/repo/Pipelinefile",
            "/root/repo/pipeline.yml",
            "/root/repo/.pipeline.yml",
        ]
    );
}

#[test]
fn control_paths_preserve_tracked_symlinks_and_reject_external_targets() {
    let project = yaml_project();
    assert_eq!(project.path(), &path("/repository/pipeline.yml"));
    let inside = boundary(Ok(path("/repository/definition-source.yml")));
    let facts = FileFacts {
        is_file: Ok(true),
        resolved: Ok(path("/repository/just-source")),
    };
    let justfile = found_justfile(
        project.root(),
        Some(&path("/repository/justfile")),
        &facts,
        Some(&path("/repository")),
    );
    assert_eq!(
        project
            .control_paths_with_boundary(&inside, Some(justfile))
            .ok()
            .unwrap(),
        vec![path("/repository/pipeline.yml"), path("/repository/justfile")]
    );

    let outside = boundary(Ok(path("/outside/definition.yml")));
    let error = project
        .control_paths_with_boundary(&outside, Some(Ok(path("/repository/justfile"))))
        .err()
        .unwrap();
    assert!(message(error).contains("outside control boundary"));
}

#[test]
fn prepared_yaml_applies_outer_but_not_outer_no_deps() {
    let project = yaml_project();
    let options = RunOptions {
        job_limit: JobLimit::PerProcess(JobCount::new(3).unwrap()),
        no_deps: true,
        ..RunOptions::default()
    };
    let just = path("/usr/bin/just");
    let selection = match project.prepare(&just, &options) {
        Ok(Preparation::Render(selection)) => selection,
        _ => panic!("a YAML definition is rendered"),
    };
    let rendered = project
        .prepare_selection(
            &selection,
            &just,
            &options,
            Some(Ok(path("/repository/justfile"))),
        )
        .ok()
        .unwrap();
    assert!(rendered.contents.contains("--jobs 3 --no-deps 'test'"));
    let run = PreparedRun::generated(&rendered, &path("/tmp/graph"), &just, &options);
    let arguments = words(run.arguments());
    assert!(arguments.windows(2).any(|pair| pair == ["--jobs", "3"]));
    assert!(!arguments.iter().any(|value| value == "--no-deps"));
    assert_eq!(
        arguments,
        [
            "--justfile",
            "/tmp/graph",
            "--working-directory",
            "/repository",
            "--jobs",
            "3",
            "__pipeline_selected"
        ]
    );
    assert_eq!(run.program(), &just);
    assert_eq!(run.working_directory(), &path("/repository"));
}

#[test]
fn a_pipelinefile_is_run_as_it_is() {
    let project = open_at("/repository/Pipelinefile", None);
    assert_eq!(project.kind(), DefinitionKind::Pipelinefile);
    assert!(project.yaml().is_none());
    assert_eq!(project.managed_hooks(), supported_hook_list());
    let options = RunOptions {
        arguments: vec![NativeText::from_text("build")],
        job_limit: JobLimit::Capped(JobCount::new(4).unwrap()),
        no_deps: true,
        environment: vec![(NativeText::from_text("A"), NativeText::from_text("b"))],
        stdin: StdinSource::Null,
        working_directory: Some(path("/elsewhere")),
    };
    let run = match project.prepare(&path("/just"), &options) {
        Ok(Preparation::Ready(run)) => run,
        _ => panic!("a Pipelinefile is not rendered"),
    };
    assert_eq!(
        words(run.arguments()),
        [
            "--justfile",
            "/repository/Pipelinefile",
            "--working-directory",
            "/elsewhere",
            "--jobs",
            "4",
            "--no-deps",
            "build"
        ]
    );
    assert_eq!(run.working_directory(), &path("/elsewhere"));
    assert_eq!(run.environment().len(), 1);
    assert!(matches!(run.stdin(), StdinSource::Null));
    let refused = project.render(
        &Selection::pipeline("check"),
        &path("/just"),
        JobLimit::Default,
        false,
        None,
    );
    assert_eq!(
        message(refused.err().unwrap()),
        "invalid pipeline definition: a Pipelinefile does not need rendering"
    );
    let refused = project.prepare_selection(
        &Selection::pipeline("check"),
        &path("/just"),
        &options,
        None,
    );
    assert_eq!(
        message(refused.err().unwrap()),
        "invalid pipeline definition: explicit selections only apply to YAML definitions"
    );
    assert_eq!(
        shown(&project.control_paths(None).ok().unwrap()),
        ["/repository/Pipelinefile"]
    );
}

#[test]
fn only_supported_regular_files_are_definitions() {
    let root = || Ok(path("/r"));
    let file = Project::locate(&path("/r/./.pipeline.yml"), Ok(true), root()).ok().unwrap();
    assert_eq!(file.kind, DefinitionKind::Yaml);
    assert_eq!(file.path, path("/r/.pipeline.yml"));
    assert_eq!(file.root, path("/r"));
    let cases = [
        (
            Project::locate(&path("/r/other.yml"), Ok(true), root()),
            "unsupported definition filename `other.yml`",
        ),
        (
            Project::locate(&path("/r/.."), Ok(true), root()),
            "unsupported definition filename `/r/..`",
        ),
        (
            Project::locate(&path("/r/pipeline.yml"), Ok(false), root()),
            "definition path is not a regular file: /r/pipeline.yml",
        ),
        (
            Project::locate(&path("/r/pipeline.yml"), Err("gone".to_owned()), root()),
            "/r/pipeline.yml: gone",
        ),
        (
            Project::locate(&path("pipeline.yml"), Ok(true), Err("lost".to_owned())),
            ".: lost",
        ),
    ];
    for (result, expected) in cases {
        assert_eq!(message(result.err().unwrap()), expected);
    }
}

#[test]
fn definitions_are_validated_when_opened() {
    let file = || DefinitionFile {
        path: path("/r/pipeline.yml"),
        root: path("/r"),
        kind: DefinitionKind::Yaml,
    };
    let mut config = check_config();
    config.version = 9;
    let cases = [
        (
            YamlContents::Unreadable("denied".to_owned()),
            "/r/pipeline.yml: denied",
        ),
        (
            YamlContents::Malformed("tab".to_owned()),
            "invalid YAML in /r/pipeline.yml: tab",
        ),
        (
            YamlContents::Parsed(config),
            "invalid pipeline definition: unsupported version 9; only version 1 is supported",
        ),
    ];
    for (contents, expected) in cases {
        let result = Project::open(file(), Some(contents));
        assert_eq!(message(result.err().unwrap()), expected);
    }
}

#[test]
fn selections_go_through_the_definition() {
    let project = yaml_project();
    assert_eq!(
        project.selection_for_hook("pre-commit").ok().unwrap(),
        Selection::job("check", "test")
    );
    assert!(project.selection_for_hook("update").ok().unwrap().is_empty());
    assert!(project.selection_for_hook("nothing").is_err());
    assert_eq!(project.managed_hooks(), ["pre-commit"]);
    assert_eq!(
        project.select(&Vec::new()).ok().unwrap(),
        Selection::pipeline("check")
    );
    let unknown = vec![NativeText::from_text("other")];
    assert_eq!(
        message(project.select(&unknown).err().unwrap()),
        "invalid pipeline definition: unknown pipeline `other`"
    );
}

#[test]
fn searches_start_inside_their_boundary() {
    let error = definition_candidates(&path("/a"), Some(&path("/b"))).err().unwrap();
    assert_eq!(
        message(error),
        "invalid pipeline definition: search start /a is outside boundary /b"
    );
    let error = justfile_candidates(&path("/ab"), Some(&path("/a"))).err().unwrap();
    assert_eq!(
        message(error),
        "invalid pipeline definition: Justfile search start /ab is outside boundary /a"
    );
    assert_eq!(
        shown(&justfile_candidates(&path("/"), None).ok().unwrap()),
        ["/justfile", "/Justfile", "/.justfile"]
    );
    assert_eq!(search_root(&path("/a/b"), true), path("/a"));
    assert_eq!(search_root(&path("/a/b"), false), path("/a/b"));
}

#[test]
fn justfiles_are_held_against_the_boundary() {
    let facts = |is_file: Result<bool, &str>, resolved: Result<&str, &str>| FileFacts {
        is_file: is_file.map_err(|text| text.to_owned()),
        resolved: resolved.map(path).map_err(|text| text.to_owned()),
    };
    let start = path("/r");
    let file = path("/r/justfile");
    let within = path("/r");
    let cases = [
        (
            found_justfile(&start, None, &facts(Ok(true), Ok("/r/justfile")), None),
            "no justfile, Justfile, or .justfile found from /r",
        ),
        (
            found_justfile(&start, Some(&file), &facts(Err("e"), Ok("/x")), None),
            "/r/justfile: e",
        ),
        (
            found_justfile(&start, Some(&file), &facts(Ok(false), Ok("/x")), None),
            "definition path is not a regular file: /r/justfile",
        ),
        (
            found_justfile(&start, Some(&file), &facts(Ok(true), Err("e")), None),
            "/r/justfile: e",
        ),
        (
            found_justfile(&start, Some(&file), &facts(Ok(true), Ok("/x")), Some(&within)),
            "invalid pipeline definition: Justfile /x resolves outside control boundary /r",
        ),
    ];
    for (result, expected) in cases {
        assert_eq!(message(result.err().unwrap()), expected);
    }
    let found = found_justfile(&start, Some(&file), &facts(Ok(true), Ok("/x")), None);
    assert_eq!(found.ok().unwrap(), file);
}

#[test]
fn the_first_present_candidate_is_taken() {
    let candidates = vec![path("/a"), path("/b"), path("/c")];
    assert_eq!(
        first_found(&candidates, &vec![false, true, true]),
        Some(path("/b"))
    );
    assert_eq!(first_found(&candidates, &vec![false, false, false]), None);
}

#[test]
fn definition_paths_are_held_against_the_boundary() {
    let project = yaml_project();
    let cases = [
        (
            ControlBoundary {
                root: path("/other"),
                resolved: Ok(path("/other/pipeline.yml")),
            },
            "invalid pipeline definition: definition /repository/pipeline.yml is outside control boundary /other",
        ),
        (boundary(Err("loop".to_owned())), "/repository/pipeline.yml: loop"),
        (
            boundary(Ok(path("/outside/x"))),
            "invalid pipeline definition: definition /repository/pipeline.yml resolves outside control boundary /repository",
        ),
    ];
    for (limits, expected) in cases {
        let result = project.definition_path_with_boundary(&limits);
        assert_eq!(message(result.err().unwrap()), expected);
    }
    let limits = boundary(Ok(path("/repository/x")));
    assert_eq!(
        project.definition_path_with_boundary(&limits).ok().unwrap(),
        path("/repository/pipeline.yml")
    );
}
