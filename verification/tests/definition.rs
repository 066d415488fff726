use indexmap::IndexMap;
use pipeline::definition::cycle::find_cycle;
use pipeline::definition::error::DefinitionError;
use pipeline::definition::limits::{JobCount, JobLimit};
use pipeline::definition::model::{JobSpec, PipelineConfig, PipelineSpec};
use pipeline::definition::render::{
    pipeline_done, pipeline_gate, pipeline_job, reject_generated_newline, render_node, shell_quote,
    RenderedPipeline,
};
use pipeline::definition::selection::{SelectedTarget, Selection};
use pipeline::definition::validate::{
    is_identifier, validate_hook, validate_identifier, validate_just_path,
};
use pipeline::native::{HostPath, NativeText};
use yaml_serde::Value;

fn strings(value: &Value) -> Result<Vec<String>, String> {
    let list = value.as_sequence().ok_or("expected a sequence")?;
    let mut result = Vec::new();
    for item in list {
        result.push(item.as_str().ok_or("expected a string")?.to_owned());
    }
    Ok(result)
}

fn parse_job(value: &Value) -> Result<JobSpec, String> {
    let mut just = None;
    let mut needs = Vec::new();
    let mut triggers = Vec::new();
    for (key, item) in value.as_mapping().ok_or("expected a mapping")? {
        match key.as_str() {
            Some("just") => just = Some(item.as_str().ok_or("expected a string")?.to_owned()),
            Some("needs") => needs = strings(item)?,
            Some("on") => triggers = strings(item)?,
            _ => return Err("unknown field".to_owned()),
        }
    }
    Ok(JobSpec {
        just: just.ok_or("missing field `just`")?,
        needs,
        triggers,
    })
}

fn parse_pipeline(value: &Value) -> Result<PipelineSpec, String> {
    let mut needs = Vec::new();
    let mut triggers = Vec::new();
    let mut jobs = IndexMap::new();
    for (key, item) in value.as_mapping().ok_or("expected a mapping")? {
        match key.as_str() {
            Some("needs") => needs = strings(item)?,
            Some("on") => triggers = strings(item)?,
            Some("jobs") => {
                for (name, job) in item.as_mapping().ok_or("expected a mapping")? {
                    let name = name.as_str().ok_or("expected a string")?;
                    jobs.insert(name.to_owned(), parse_job(job)?);
                }
            }
            _ => return Err("unknown field".to_owned()),
        }
    }
    Ok(PipelineSpec {
        needs,
        triggers,
        jobs,
    })
}

fn parse_config(text: &str) -> Result<PipelineConfig, String> {
    let value: Value = yaml_serde::from_str(text).map_err(|error| error.to_string())?;
    let mut version = 1;
    let mut triggers = IndexMap::new();
    let mut pipelines = IndexMap::new();
    for (key, item) in value.as_mapping().ok_or("expected a mapping")? {
        match key.as_str() {
            Some("version") => version = item.as_u64().ok_or("expected a number")? as u32,
            Some("on") => {
                for (hook, selectors) in item.as_mapping().ok_or("expected a mapping")? {
                    let hook = hook.as_str().ok_or("expected a string")?;
                    triggers.insert(hook.to_owned(), strings(selectors)?);
                }
            }
            Some("pipelines") => {
                for (name, pipeline) in item.as_mapping().ok_or("expected a mapping")? {
                    let name = name.as_str().ok_or("expected a string")?;
                    pipelines.insert(name.to_owned(), parse_pipeline(pipeline)?);
                }
            }
            _ => return Err("unknown field".to_owned()),
        }
    }
    Ok(PipelineConfig {
        version,
        triggers,
        pipelines,
    })
}

fn from_yaml(text: &str) -> Result<PipelineConfig, DefinitionError> {
    PipelineConfig::from_yaml(parse_config(text))
}

fn parse(text: &str) -> PipelineConfig {
    from_yaml(text).ok().unwrap()
}

fn refusal(text: &str) -> String {
    from_yaml(text).err().unwrap().message()
}

fn path(text: &str) -> HostPath {
    HostPath::from_text(text)
}

fn native(words: &[&str]) -> Vec<NativeText> {
    words.iter().map(|word| NativeText::from_text(word)).collect()
}

fn rendered(config: &PipelineConfig, selection: &Selection) -> RenderedPipeline {
    config
        .render(
            selection,
            &path("/w"),
            &path("/j"),
            None,
            JobLimit::Default,
            false,
        )
        .ok()
        .unwrap()
}

#[test]
fn version_defaults_to_one_and_unknown_fields_are_rejected() {
    let config = parse("pipelines:\n  check:\n    jobs:\n      test:\n        just: test\n");
    assert_eq!(config.version, 1);
    assert!(from_yaml(
        "pipelines:\n  check:\n    jobs:\n      test:\n        just: test\n        command: nope\n"
    )
    .is_err());
    assert!(from_yaml(
        "version: 2\npipelines:\n  check:\n    jobs:\n      test:\n        just: test\n"
    )
    .is_err());
}

#[test]
fn validates_references_names_and_cycles() {
    assert!(
        refusal("pipelines:\n  a:\n    needs: [b]\n  b:\n    needs: [a]\n").contains("cycle")
    );
    assert!(refusal(
        "pipelines:\n  ok:\n    jobs:\n      one:\n        needs: [missing]\n        just: test\n"
    )
    .contains("missing sibling"));
    assert!(
        from_yaml("pipelines:\n  bad name:\n    jobs:\n      one:\n        just: test\n").is_err()
    );
    assert!(
        from_yaml("pipelines:\n  ok:\n    jobs:\n      one:\n        just: 'test --flag'\n")
            .is_err()
    );
}

#[test]
fn trigger_union_prefers_whole_pipeline_and_managed_hooks_are_canonical() {
    let config = parse(
        "on:\n  pre-push: [check::test]\n\npipelines:\n  check:\n    on: [pre-commit, pre-push]\n    jobs:\n      fmt:\n        on: [commit-msg]\n        just: fmt\n      test:\n        on: [pre-commit]\n        just: test\n",
    );
    assert_eq!(
        config.selection_for_hook("pre-commit").ok().unwrap(),
        Selection::pipeline("check")
    );
    assert_eq!(
        config.selection_for_hook("commit-msg").ok().unwrap(),
        Selection::job("check", "fmt")
    );
    assert_eq!(
        config.managed_hooks(),
        vec!["pre-commit", "commit-msg", "pre-push"]
    );
}

#[test]
fn default_and_multiple_pipeline_selection_preserve_order() {
    let config = parse(
        "pipelines:\n  first:\n    jobs:\n      x:\n        just: x\n  second:\n    jobs:\n      y:\n        just: y\n",
    );
    assert_eq!(
        config.select_pipelines(&Vec::new()).ok().unwrap(),
        Selection::pipeline("first")
    );
    assert_eq!(
        config
            .select_pipelines(&native(&["second", "first"]))
            .ok()
            .unwrap()
            .targets,
        vec![
            SelectedTarget::Pipeline("second".to_owned()),
            SelectedTarget::Pipeline("first".to_owned())
        ]
    );
}

#[test]
fn render_has_parallel_barriers_and_nested_options() {
    let config = parse(
        "pipelines:\n  check:\n    jobs:\n      fmt:\n        just: tools::fmt\n      test:\n        needs: [fmt]\n        just: test\n  build:\n    needs: [check]\n    jobs:\n      build:\n        just: build\n",
    );
    let rendered = config
        .render(
            &Selection::pipeline("build"),
            &path("/work"),
            &path("/usr/bin/just"),
            Some(&path("/work/justfile")),
            JobLimit::Capped(JobCount::new(8).unwrap()),
            true,
        )
        .ok()
        .unwrap();
    assert!(rendered
        .contents
        .contains("__pipeline_gate_1: __pipeline_done_0"));
    assert!(rendered
        .contents
        .contains("__pipeline_job_0_1: __pipeline_gate_0 __pipeline_job_0_0"));
    assert!(rendered
        .contents
        .contains("--working-directory '/work' --jobs 1 --no-deps 'tools::fmt'"));
    assert!(rendered
        .contents
        .contains("__pipeline_selected: __pipeline_done_1"));
}

#[test]
fn a_rendered_graph_is_exactly_this_text() {
    let config = parse(
        "pipelines:\n  check:\n    jobs:\n      fmt:\n        just: fmt\n  all:\n    needs: [check]\n",
    );
    let result = config
        .render(
            &Selection::pipeline("all"),
            &path("/work"),
            &path("/opt/it's/just"),
            Some(&path("/work/justfile")),
            JobLimit::PerProcess(JobCount::new(2).unwrap()),
            false,
        )
        .ok()
        .unwrap();
    assert_eq!(result.entrypoint, "__pipeline_selected");
    assert_eq!(result.working_directory, path("/work"));
    assert_eq!(
        result.contents,
        concat_lines(&[
            "# Generated by Pipeline. Do not edit.",
            "",
            "__pipeline_gate_0:",
            "",
            "__pipeline_job_0_0: __pipeline_gate_0",
            "    @'/opt/it'\\''s/just' --justfile '/work/justfile' --working-directory '/work' --jobs 2 'fmt'",
            "",
            "__pipeline_done_0: __pipeline_job_0_0",
            "",
            "__pipeline_gate_1: __pipeline_done_0",
            "",
            "__pipeline_done_1: __pipeline_gate_1",
            "",
            "__pipeline_selected: __pipeline_done_1",
            "",
        ])
    );
}

fn concat_lines(lines: &[&str]) -> String {
    lines.iter().map(|line| format!("{line}\n")).collect()
}

#[test]
fn documents_that_do_not_parse_are_reported() {
    assert_eq!(
        PipelineConfig::from_yaml(Err("bad indent".to_owned()))
            .err()
            .unwrap()
            .message(),
        "invalid YAML in <memory>: bad indent"
    );
}

#[test]
fn every_problem_of_a_definition_has_its_message() {
    let job = "    jobs:\n      x:\n        just: x\n";
    let cases = [
        (
            "version: 3\npipelines:\n  a:\n".to_owned() + job,
            "unsupported version 3; only version 1 is supported",
        ),
        (
            "version: 1\n".to_owned(),
            "`pipelines` must contain at least one pipeline",
        ),
        (
            "on:\n  pre-pull: [a]\npipelines:\n  a:\n".to_owned() + job,
            "unknown Git hook `pre-pull`",
        ),
        (
            "pipelines:\n  bad name:\n".to_owned() + job,
            "invalid pipeline name `bad name`; expected [A-Za-z_][A-Za-z0-9_-]*",
        ),
        (
            "pipelines:\n  '':\n".to_owned() + job,
            "pipeline name cannot be empty",
        ),
        (
            "pipelines:\n  a: {}\n".to_owned(),
            "pipeline `a` must contain at least one job or dependency",
        ),
        (
            "pipelines:\n  a:\n    needs: [b, b]\n".to_owned(),
            "duplicate `b` in pipeline `a` dependencies",
        ),
        (
            "pipelines:\n  a:\n    on: [update, update]\n".to_owned() + job,
            "duplicate `update` in pipeline `a` triggers",
        ),
        (
            "pipelines:\n  a:\n    on: [never]\n".to_owned() + job,
            "unknown Git hook `never`",
        ),
        (
            "pipelines:\n  a:\n    needs: [a]\n".to_owned() + job,
            "pipeline `a` depends on itself",
        ),
        (
            "pipelines:\n  a:\n    needs: [b]\n".to_owned() + job,
            "pipeline `a` needs missing pipeline `b`",
        ),
        (
            "pipelines:\n  a:\n    jobs:\n      1x:\n        just: x\n".to_owned(),
            "invalid job name `1x`; expected [A-Za-z_][A-Za-z0-9_-]*",
        ),
        (
            "pipelines:\n  a:\n    jobs:\n      x:\n        just: a:b\n".to_owned(),
            "job `a::x` has invalid Just target `a:b`",
        ),
        (
            "pipelines:\n  a:\n".to_owned() + job + "        needs: [y, y]\n",
            "duplicate `y` in job `a::x` dependencies",
        ),
        (
            "pipelines:\n  a:\n".to_owned() + job + "        on: [update, update]\n",
            "duplicate `update` in job `a::x` triggers",
        ),
        (
            "pipelines:\n  a:\n".to_owned() + job + "        on: [never]\n",
            "unknown Git hook `never`",
        ),
        (
            "pipelines:\n  a:\n".to_owned() + job + "        needs: [x]\n",
            "job `a::x` depends on itself",
        ),
        (
            "pipelines:\n  a:\n".to_owned() + job + "        needs: [y]\n",
            "job `a::x` needs missing sibling job `y`",
        ),
        (
            "pipelines:\n  a:\n    needs: [b]\n  b:\n    needs: [c]\n  c:\n    needs: [b]\n"
                .to_owned(),
            "pipeline dependency cycle: b -> c -> b",
        ),
        (
            "pipelines:\n  a:\n    jobs:\n      x: {just: x, needs: [y]}\n      y: {just: y, needs: [x]}\n"
                .to_owned(),
            "job in pipeline `a` dependency cycle: x -> y -> x",
        ),
        (
            "on:\n  update: [b]\npipelines:\n  a:\n".to_owned() + job,
            "hook `update` has invalid selector `b`: unknown pipeline `b`",
        ),
        (
            "on:\n  update: ['b::x']\npipelines:\n  a:\n".to_owned() + job,
            "hook `update` has invalid selector `b::x`: unknown pipeline `b`",
        ),
        (
            "on:\n  update: ['a::y']\npipelines:\n  a:\n".to_owned() + job,
            "hook `update` has invalid selector `a::y`: unknown job `a::y`",
        ),
        (
            "on:\n  update: ['a::x::z']\npipelines:\n  a:\n".to_owned() + job,
            "hook `update` has invalid selector `a::x::z`: expected `PIPELINE` or `PIPELINE::JOB`",
        ),
    ];
    for (text, reason) in cases {
        assert_eq!(
            refusal(&text),
            format!("invalid pipeline definition: {reason}")
        );
    }
}

#[test]
fn identifiers_hooks_and_recipes_are_checked() {
    for name in ["a", "A-1", "_x", "fmt_2"] {
        assert!(is_identifier(name));
        assert!(validate_identifier(name, "job").is_ok());
    }
    for name in ["", "1a", "-a", "a b", "é", "a.b"] {
        assert!(!is_identifier(name));
        assert!(validate_identifier(name, "job").is_err());
    }
    for value in ["test", "tools::fmt", "a::b::c"] {
        assert!(validate_just_path(value).is_ok());
    }
    for value in ["", "test --flag", "a::", "::a", "a:b", "a:::b"] {
        assert!(validate_just_path(value).is_err());
    }
    assert!(validate_hook("pre-push").is_ok());
    assert!(validate_hook("pre_push").is_err());
}

#[test]
fn selectors_name_pipelines_or_jobs() {
    let config = parse("pipelines:\n  check:\n    jobs:\n      fmt:\n        just: fmt\n");
    assert_eq!(
        config.parse_selector("check").ok().unwrap(),
        SelectedTarget::Pipeline("check".to_owned())
    );
    assert!(matches!(
        config.parse_selector("check::fmt").ok().unwrap(),
        SelectedTarget::Job(_)
    ));
    for selector in ["missing", "check::missing", "missing::fmt", "a::b::c", ""] {
        assert!(config.parse_selector(selector).is_err());
    }
}

#[test]
fn targets_on_the_command_line_are_pipelines() {
    let config = parse("pipelines:\n  check:\n    jobs:\n      fmt:\n        just: fmt\n");
    let odd = NativeText { bytes: vec![0xff] };
    let error = config.select_pipelines(&vec![odd.clone()]).err().unwrap();
    assert_eq!(
        error.message(),
        "definition target is not valid UTF-8: \"\\xFF\""
    );
    assert!(matches!(error, DefinitionError::NonUnicodeTarget(text) if text == odd));
    assert!(config.select_pipelines(&native(&["check::fmt"])).is_err());
    assert_eq!(
        config
            .select_pipelines(&native(&["check", "check"]))
            .ok()
            .unwrap(),
        Selection::pipeline("check")
    );
}

#[test]
fn a_whole_pipeline_absorbs_its_jobs() {
    let mut selection = Selection::new();
    assert!(selection.is_empty());
    selection.push_job("a", "x");
    selection.push_job("b", "y");
    selection.push_job("a", "x");
    assert_eq!(selection.targets.len(), 2);
    selection.push_pipeline("a");
    selection.push_job("a", "z");
    let mut expected = Selection::job("b", "y");
    expected.push_pipeline("a");
    assert_eq!(selection, expected);
}

#[test]
fn cycles_are_found_and_ended_at_their_start() {
    assert_eq!(find_cycle(&vec![vec![1], vec![2], vec![]]), None);
    assert_eq!(find_cycle(&vec![vec![1], vec![2], vec![1]]), Some(vec![1, 2, 1]));
    assert_eq!(find_cycle(&vec![vec![0]]), Some(vec![0, 0]));
    assert_eq!(find_cycle(&Vec::new()), None);
    assert_eq!(
        find_cycle(&vec![vec![1, 2], vec![3], vec![3], vec![]]),
        None
    );
}

#[test]
fn generated_names_follow_the_positions() {
    assert_eq!(pipeline_gate(0), "__pipeline_gate_0");
    assert_eq!(pipeline_done(12), "__pipeline_done_12");
    assert_eq!(pipeline_job(1, 20), "__pipeline_job_1_20");
    assert_ne!(pipeline_job(1, 20), pipeline_job(12, 0));
}

#[test]
fn quoting_keeps_a_value_one_word() {
    assert_eq!(shell_quote("plain"), "'plain'");
    assert_eq!(shell_quote(""), "''");
    assert_eq!(shell_quote("it's {{x}}"), "'it'\\''s {{x}}'");
}

#[test]
fn recipes_are_rendered_with_their_needs() {
    let mut output = String::new();
    render_node(
        &mut output,
        "a",
        &vec!["b".to_owned(), "c".to_owned()],
        Some("echo"),
    );
    assert_eq!(output, "[parallel]\na: b c\n    echo\n\n");
}

#[test]
fn line_breaks_cannot_be_rendered() {
    assert!(reject_generated_newline("one line", "path").is_ok());
    assert!(reject_generated_newline("two\nlines", "path").is_err());
    assert!(reject_generated_newline("two\rlines", "path").is_err());
    let config = parse("pipelines:\n  check:\n    jobs:\n      fmt:\n        just: fmt\n");
    let odd = HostPath { bytes: vec![47, 0xff] };
    let error = config
        .render(
            &Selection::pipeline("check"),
            &path("/w"),
            &odd,
            None,
            JobLimit::Default,
            false,
        )
        .err()
        .unwrap();
    assert!(matches!(error, DefinitionError::NonUnicodeExecutable(_)));
}

#[test]
fn control_paths_have_to_be_text() {
    let config = parse("pipelines:\n  check:\n    jobs:\n      fmt:\n        just: fmt\n");
    let odd = HostPath {
        bytes: b"/it's \"\n\xff\xc3\xa9\xe2\x80".to_vec(),
    };
    let shown = "\"/it's \\\"\\n\\xFFé\\xE2\\x80\"";
    let render = |directory: &HostPath, justfile: Option<&HostPath>| {
        config.render(
            &Selection::pipeline("check"),
            directory,
            &path("/just"),
            justfile,
            JobLimit::Default,
            false,
        )
    };
    assert_eq!(
        render(&odd, Some(&odd)).err().unwrap(),
        DefinitionError::Invalid(format!("Justfile path is not valid UTF-8: {shown}"))
    );
    let error = render(&odd, Some(&path("/justfile"))).err().unwrap();
    assert_eq!(
        error,
        DefinitionError::Invalid(format!("working directory is not valid UTF-8: {shown}"))
    );
    assert_eq!(
        error.message(),
        format!("invalid pipeline definition: working directory is not valid UTF-8: {shown}")
    );
    assert!(render(&odd, None).is_ok());
}

#[test]
fn only_selected_targets_are_awaited() {
    let config = parse(
        "pipelines:\n  a:\n    jobs:\n      x:\n        just: x\n      y:\n        just: y\n  b:\n    jobs:\n      z:\n        just: z\n",
    );
    let mut selection = Selection::job("a", "y");
    selection.push_pipeline("b");
    let result = rendered(&config, &selection);
    assert!(result
        .contents
        .contains("__pipeline_selected: __pipeline_job_0_1 __pipeline_done_1\n"));
    assert!(rendered(&config, &Selection::new())
        .contents
        .ends_with("\n\n__pipeline_selected:\n\n"));
    for (selection, reason) in [
        (Selection::pipeline("c"), "unknown selected pipeline `c`"),
        (Selection::job("c", "x"), "unknown selected pipeline `c`"),
        (Selection::job("a", "z"), "unknown selected job `a::z`"),
    ] {
        let error = config.validate_selection(&selection).err().unwrap();
        assert!(matches!(error, DefinitionError::Invalid(text) if text == reason));
    }
}

#[test]
fn every_definition_error_has_its_message() {
    let here = path("/x");
    let source = "denied".to_owned();
    let cases = [
        (
            DefinitionError::NotFound { start: here.clone() },
            "no Pipelinefile, pipeline.yml, or .pipeline.yml found from /x",
        ),
        (
            DefinitionError::JustfileNotFound { start: here.clone() },
            "no justfile, Justfile, or .justfile found from /x",
        ),
        (
            DefinitionError::NotAFile(here.clone()),
            "definition path is not a regular file: /x",
        ),
        (
            DefinitionError::UnsupportedFilename("x.yml".to_owned()),
            "unsupported definition filename `x.yml`",
        ),
        (
            DefinitionError::Io {
                path: here.clone(),
                source: source.clone(),
            },
            "/x: denied",
        ),
        (
            DefinitionError::Yaml {
                path: here.clone(),
                source: source.clone(),
            },
            "invalid YAML in /x: denied",
        ),
        (
            DefinitionError::Invalid("why".to_owned()),
            "invalid pipeline definition: why",
        ),
        (
            DefinitionError::NonUnicodeTarget(NativeText {
                bytes: vec![b'a', 0x80],
            }),
            "definition target is not valid UTF-8: \"a\\x80\"",
        ),
        (
            DefinitionError::NonUnicodeExecutable(HostPath {
                bytes: vec![47, 0xfe, b'\\'],
            }),
            "Just executable path is not valid UTF-8: \"/\\xFE\\\\\"",
        ),
        (
            DefinitionError::Execute {
                program: here.clone(),
                source,
            },
            "cannot execute `/x`: denied",
        ),
    ];
    for (error, message) in cases {
        assert_eq!(error.message(), message);
    }
}

#[test]
fn definitions_can_be_copied() {
    let config = parse(
        "pipelines:\n  b:\n    on: [update]\n    jobs:\n      z:\n        just: z\n      y:\n        just: y\n        needs: [z]\n  a:\n    needs: [b]\n    jobs:\n      x:\n        just: x\non:\n  pre-push: [a, b]\n  commit-msg: [\"b::y\"]\n",
    );
    let copy = config.clone();
    let render = |config: &PipelineConfig| {
        config
            .render(
                &Selection::pipeline("a"),
                &path("/w"),
                &path("/just"),
                None,
                JobLimit::Default,
                false,
            )
            .ok()
            .unwrap()
            .contents
    };
    assert_eq!(render(&copy), render(&config));
    assert_eq!(copy.version, config.version);
    let hooks: Vec<&String> = copy.triggers.keys().collect();
    assert_eq!(hooks, ["pre-push", "commit-msg"]);
    assert_eq!(copy.triggers, config.triggers);
    let names: Vec<&String> = copy.pipelines.keys().collect();
    assert_eq!(names, ["b", "a"]);
    let jobs: Vec<&String> = copy.pipelines["b"].jobs.keys().collect();
    assert_eq!(jobs, ["z", "y"]);
    assert_eq!(copy.pipelines["b"].jobs["y"].needs, ["z"]);
    assert_eq!(copy.pipelines["b"].triggers, ["update"]);
    let empty = PipelineSpec::default();
    assert!(empty.needs.is_empty() && empty.triggers.is_empty() && empty.jobs.is_empty());
}
