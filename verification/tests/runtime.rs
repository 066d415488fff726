use pipeline::just_runtime::command::{
    announced_word, container_id, default_cache_root, format_output_failure, image_is_absent,
    is_success, judged_executable, looks_like_noexec, parse_just_version, should_retry,
    verified_executable, CommandOutput,
};
use pipeline::just_runtime::config::{RuntimeConfig, RuntimeError, RuntimeSource};
use pipeline::just_runtime::extract::{ExtractReply, ExtractStep};
use pipeline::just_runtime::resolve::{
    container_name, JustRuntime, Resolution, ResolveReply, ResolveStep,
};
use pipeline::just_runtime::version::JustVersion;
use pipeline::native::{HostPath, NativeText};

fn path(text: &str) -> HostPath {
    HostPath::from_text(text)
}

fn output(code: i32, stdout: &str, stderr: &str) -> CommandOutput {
    CommandOutput {
        code: Some(code),
        status: format!("exit status: {code}"),
        stdout: stdout.as_bytes().to_vec(),
        stderr: stderr.as_bytes().to_vec(),
    }
}

fn config(image: &str) -> RuntimeConfig {
    RuntimeConfig::new(image, "1.56.0", None, Some(path("/cache"))).unwrap()
}

/// A machine with executables, engines and a file system that may refuse.
struct Machine {
    just_in_path: Option<&'static str>,
    printed: &'static str,
    podman: Option<fn(&[String]) -> CommandOutput>,
    docker: Option<fn(&[String]) -> CommandOutput>,
    extracted: &'static str,
    noexec: &'static str,
    calls: Vec<String>,
}

fn machine() -> Machine {
    Machine {
        just_in_path: None,
        printed: "just 1.57.0\n",
        podman: None,
        docker: None,
        extracted: "just 1.57.0\n",
        noexec: "/nothing",
        calls: Vec::new(),
    }
}

fn try_out(machine: &Machine, at: &HostPath) -> Result<CommandOutput, String> {
    let place = at.shown();
    if place.starts_with(machine.noexec) {
        Err("Permission denied (os error 13)".to_owned())
    } else if place.starts_with("/tmp/") || place.starts_with("/cache/") {
        Ok(output(0, machine.extracted, ""))
    } else {
        Ok(output(0, machine.printed, ""))
    }
}

fn perform(
    machine: &mut Machine,
    engine: fn(&[String]) -> CommandOutput,
    step: ExtractStep,
) -> ExtractReply {
    match step {
        ExtractStep::Engine(arguments) => {
            let words: Vec<String> = arguments.iter().map(|word| word.shown()).collect();
            machine.calls.push(words.join(" "));
            ExtractReply::Ran(Ok(engine(&words)))
        }
        ExtractStep::MakeTemporary(root) => ExtractReply::Directory(root.join("pipeline-1")),
        ExtractStep::MakeCached(root) => ExtractReply::Directory(root.join("just-1")),
        ExtractStep::EnsureDirectory(_) => ExtractReply::Done,
        ExtractStep::SecureDirectory { mode, .. } | ExtractStep::MarkExecutable { mode, .. } => {
            assert_eq!(mode, 0o700);
            ExtractReply::Done
        }
        ExtractStep::CopyFile { .. } => ExtractReply::Done,
        ExtractStep::Verify(at) => ExtractReply::Tried {
            output: try_out(machine, &at),
            resolved: Ok(at),
        },
        ExtractStep::End => unreachable!(),
    }
}

fn resolve(config: RuntimeConfig, machine: &mut Machine) -> Result<JustRuntime, RuntimeError> {
    let mut resolution = Resolution::new(config);
    loop {
        let reply = match resolution.step() {
            ResolveStep::Verify(at) => ResolveReply::Tried {
                output: try_out(machine, &at),
                resolved: Ok(at),
            },
            ResolveStep::FindJust => ResolveReply::Found(machine.just_in_path.map(path)),
            ResolveStep::FindEngine(name) => {
                let found = match name.as_str() {
                    "podman" => machine.podman,
                    "docker" => machine.docker,
                    _ => unreachable!(),
                };
                ResolveReply::Engine(
                    found.map(|_| (path("/bin").join(&name), container_name(42, 7))),
                )
            }
            ResolveStep::Extract { engine, step } => {
                let run = if engine.shown() == "/bin/podman" {
                    machine.podman.unwrap()
                } else {
                    machine.docker.unwrap()
                };
                ResolveReply::Extracting(perform(machine, run, step))
            }
            ResolveStep::End => return resolution.finish(),
        };
        resolution = resolution.advance(reply);
    }
}

fn pulling(words: &[String]) -> CommandOutput {
    match words[0].as_str() {
        "image" => output(125, "", "image not known"),
        "create" => output(0, "container-123\n", ""),
        _ => output(0, "", ""),
    }
}

fn present(words: &[String]) -> CommandOutput {
    match words[0].as_str() {
        "create" => output(0, "docker-id\n", ""),
        _ => output(0, "", ""),
    }
}

fn broken(_: &[String]) -> CommandOutput {
    output(1, "", "broken")
}

fn unreachable_service(words: &[String]) -> CommandOutput {
    match words[0].as_str() {
        "image" => output(125, "", "cannot connect to service"),
        _ => output(99, "", ""),
    }
}

fn copyless(words: &[String]) -> CommandOutput {
    match words[0].as_str() {
        "create" => output(0, "\n", ""),
        "cp" => output(1, "", "no such path"),
        _ => output(0, "", ""),
    }
}

#[test]
fn resolves_compatible_just_from_path() {
    let mut machine = machine();
    machine.just_in_path = Some("/root/just");
    let runtime = resolve(
        config("example/just:tag").with_container_fallback(false),
        &mut machine,
    )
    .unwrap();
    assert_eq!(runtime.executable(), &path("/root/just"));
    assert_eq!(runtime.version(), &JustVersion::release(1, 57, 0));
    assert!(matches!(runtime.source(), RuntimeSource::Path(_)));
}

#[test]
fn rejects_old_installed_and_path_versions_with_diagnostics() {
    let mut machine = machine();
    machine.just_in_path = Some("/root/just");
    machine.printed = "just 1.55.0\n";
    let error = resolve(
        config("example/just:tag")
            .with_installed_just(Some(path("/root/just")))
            .with_container_fallback(false),
        &mut machine,
    )
    .unwrap_err();
    assert!(error.message().contains("too old"));
    assert_eq!(error.attempts().len(), 3);
    assert_eq!(
        error.message(),
        "could not resolve Just 1.56.0 or newer\n  installed Just (/root/just): version 1.55.0 is too old; 1.56.0 or newer is required\n  Just from PATH (/root/just): version 1.55.0 is too old; 1.56.0 or newer is required\n  container fallback: disabled by configuration"
    );
}

#[test]
fn rejects_non_just_executables_with_semver_output() {
    let mut machine = machine();
    machine.just_in_path = Some("/root/just");
    machine.printed = "not-just 99.0.0\n";
    let error = resolve(
        config("example/just:tag").with_container_fallback(false),
        &mut machine,
    )
    .unwrap_err();
    assert!(error.message().contains("unrecognized output"));
}

#[test]
fn podman_pulls_extracts_verifies_and_removes_container() {
    let mut machine = machine();
    machine.podman = Some(pulling);
    let runtime = resolve(config("official/just:1.57"), &mut machine).unwrap();
    assert_eq!(runtime.executable(), &path("/tmp/pipeline-1/just"));
    assert_eq!(
        runtime.source(),
        &RuntimeSource::PodmanImage("official/just:1.57".to_owned())
    );
    assert_eq!(
        machine.calls,
        [
            "image inspect official/just:1.57",
            "pull official/just:1.57",
            "create --name pipeline-just-42-7 official/just:1.57 /just --version",
            "cp container-123:/just /tmp/pipeline-1/just",
            "rm -f container-123",
        ]
    );
}

#[test]
fn falls_back_to_docker_after_podman_failure_and_to_cache_without_tmp() {
    let mut machine = machine();
    machine.podman = Some(broken);
    machine.docker = Some(present);
    machine.extracted = "just 1.60.0\n";
    let runtime = resolve(
        config("official/just:tag").with_temporary_root(None),
        &mut machine,
    )
    .unwrap();
    assert!(matches!(runtime.source(), RuntimeSource::DockerImage(_)));
    assert!(runtime.executable().starts_with(&path("/cache")));
    assert_eq!(runtime.version().text(), "1.60.0");
}

#[test]
fn inspect_errors_do_not_trigger_a_pull() {
    let mut machine = machine();
    machine.podman = Some(unreachable_service);
    let error = resolve(config("official/just:tag"), &mut machine).unwrap_err();
    assert!(error.message().contains("cannot inspect image"));
    assert_eq!(machine.calls, ["image inspect official/just:tag"]);
}

#[test]
fn executables_that_may_not_run_are_retried_in_the_cache() {
    let mut machine = machine();
    machine.docker = Some(present);
    machine.noexec = "/tmp/";
    let runtime = resolve(config("official/just:tag"), &mut machine).unwrap();
    assert_eq!(runtime.executable(), &path("/cache/just-1/just"));
    let mut machine = self::machine();
    machine.docker = Some(present);
    machine.noexec = "/tmp/";
    let error = resolve(
        config("official/just:tag").with_cache_root(None),
        &mut machine,
    )
    .unwrap_err();
    assert!(error
        .message()
        .contains("no user cache directory is available"));
}

#[test]
fn containers_are_removed_after_a_failed_copy() {
    let mut machine = machine();
    machine.podman = Some(copyless);
    let error = resolve(config("i"), &mut machine).unwrap_err();
    assert_eq!(
        machine.calls.last().map(String::as_str),
        Some("rm -f pipeline-just-42-7")
    );
    assert!(error
        .message()
        .contains("cannot copy /just from container (exit status: 1): no such path"));
    assert!(error.message().ends_with("docker: not found in PATH"));
}

#[test]
fn an_installed_just_comes_first() {
    let mut machine = machine();
    machine.just_in_path = Some("/other/just");
    let runtime = resolve(
        config("i").with_installed_just(Some(path("/installed/just"))),
        &mut machine,
    )
    .unwrap();
    assert_eq!(
        runtime.source(),
        &RuntimeSource::Installed(path("/installed/just"))
    );
}

#[test]
fn configurations_are_checked() {
    let error = RuntimeConfig::new(" ", "1.0.0", None, None).unwrap_err();
    assert_eq!(
        error.message(),
        "Just container image cannot be empty"
    );
    assert!(error.attempts().is_empty());
    let error = RuntimeConfig::new("i", "1.0", None, None).unwrap_err();
    assert_eq!(
        error.message(),
        "invalid minimum Just version `1.0`: unexpected end of input while parsing minor version number"
    );
    let made = RuntimeConfig::new("i", "1.0.0-rc.1", Some(NativeText::from_text("/bin")), None)
        .unwrap()
        .with_search_path(None);
    assert_eq!(made.image(), "i");
    assert_eq!(made.minimum_version().text(), "1.0.0-rc.1");
    assert_eq!(made.temporary_root(), Some(&path("/tmp")));
    assert!(made.search_path().is_none() && made.cache_root().is_none());
    assert!(made.container_fallback() && made.installed_just().is_none());
    let error = RuntimeConfig::with_parsed_version("i", "x", Err("why".to_owned()), None, None);
    assert_eq!(
        error.unwrap_err().message(),
        "invalid minimum Just version `x`: why"
    );
}

#[test]
fn versions_are_ordered_by_precedence() {
    let version = |text: &str| JustVersion::parse(text).unwrap();
    assert!(version("1.9.0").is_below(&version("1.10.0")));
    assert!(version("1.10.0-alpha").is_below(&version("1.10.0")));
    assert!(!version("2.0.0").is_below(&version("1.99.99")));
    assert!(!version("1.0.0").is_below(&version("1.0.0")));
    assert!(JustVersion::parse("1.0").is_err());
    assert!(JustVersion::parse("01.0.0").is_err());
    assert_eq!(JustVersion::release(1, 2, 3).text(), "1.2.3");
}

#[test]
fn versions_are_read_from_either_stream() {
    let read = |stdout: &str, stderr: &str| {
        parse_just_version(&output(0, stdout, stderr)).map(|found| found.text().to_owned())
    };
    assert_eq!(read("just 1.2.3\n", "").as_deref(), Some("1.2.3"));
    assert_eq!(read("JUST v1.2.3 extra\n", "").as_deref(), Some("1.2.3"));
    assert_eq!(read("warning\njust x\n", "just 2.0.0").as_deref(), Some("2.0.0"));
    assert_eq!(read("justice 1.2.3", "1.2.3"), None);
    assert_eq!(announced_word("Just vv1 x").as_deref(), Some("1"));
    assert_eq!(announced_word("just"), None);
    assert_eq!(announced_word("only 1.0.0"), None);
}

#[test]
fn executables_are_judged_by_what_they_print() {
    let minimum = JustVersion::release(1, 56, 0);
    let here = Ok(path("/just"));
    let judge = |reply: Result<CommandOutput, String>, resolved: &Result<HostPath, String>| {
        verified_executable(&minimum, &reply, resolved)
    };
    assert_eq!(
        judge(Err("no such file".to_owned()), &here).unwrap_err(),
        "cannot execute: no such file"
    );
    assert_eq!(
        judge(Ok(output(2, "", "")), &here).unwrap_err(),
        "`just --version` failed (exit status: 2): no diagnostic output"
    );
    assert_eq!(
        judge(Ok(output(0, "just 1.56.0", "")), &Err("loop".to_owned())).unwrap_err(),
        "cannot resolve executable path: loop"
    );
    assert!(judge(Ok(output(0, "just 1.56.0", "")), &here).is_ok());
    let version = JustVersion::release(9, 0, 0);
    assert_eq!(
        judged_executable(Some(version), true, &minimum, &here).unwrap_err(),
        "version 9.0.0 is too old; 1.56.0 or newer is required"
    );
}

#[test]
fn engine_output_is_recognized() {
    assert!(image_is_absent(&output(1, "", "")));
    assert!(image_is_absent(&output(1, "[]\n", "Error: No such image: x")));
    assert!(image_is_absent(&output(125, "", "x: image not known")));
    assert!(!image_is_absent(&output(125, "", "")));
    assert!(!image_is_absent(&output(1, "", "denied")));
    assert!(!image_is_absent(&output(0, "", "no such image")));
    assert!(looks_like_noexec("cannot execute: Permission denied (os error 13)"));
    assert!(!looks_like_noexec("not found"));
    assert_eq!(container_id(&output(0, "\n  abc \ndef\n", ""), "name"), "abc");
    assert_eq!(container_id(&output(0, "", "abc"), "name"), "name");
    assert_eq!(container_name(10, 3), "pipeline-just-10-3");
}

#[test]
fn failures_show_what_was_printed() {
    assert_eq!(
        format_output_failure("x", &output(3, "out", " err \n")),
        "x (exit status: 3): err"
    );
    assert_eq!(
        format_output_failure("x", &output(3, "out\n", " ")),
        "x (exit status: 3): out"
    );
    let odd = CommandOutput {
        code: None,
        status: "signal: 9 (SIGKILL)".to_owned(),
        stdout: Vec::new(),
        stderr: vec![b'a', 0xff],
    };
    assert_eq!(
        format_output_failure("x", &odd),
        "x (signal: 9 (SIGKILL)): a\u{fffd}"
    );
    assert!(!is_success(&odd));
}

#[test]
fn busy_executables_are_tried_again() {
    assert!(should_retry(0, Some(26)));
    assert!(should_retry(2, Some(26)));
    assert!(!should_retry(3, Some(26)));
    assert!(!should_retry(0, Some(2)));
    assert!(!should_retry(0, None));
}

#[test]
fn caches_stand_below_the_user_directories() {
    let native = |text: &str| NativeText::from_text(text);
    assert_eq!(
        default_cache_root(Some(&native("/c")), Some(&native("/h"))),
        Some(path("/c/pipeline"))
    );
    assert_eq!(
        default_cache_root(Some(&native("")), Some(&native("/h"))),
        Some(path("/h/.cache/pipeline"))
    );
    assert_eq!(default_cache_root(None, None), None);
}

#[test]
fn every_source_is_held_to_the_configured_version() {
    let wanting = |minimum: &str| {
        RuntimeConfig::new("i", minimum, None, Some(path("/cache")))
            .unwrap()
            .with_installed_just(Some(path("/installed/just")))
    };
    let stocked = || {
        let mut stocked = machine();
        stocked.just_in_path = Some("/root/just");
        stocked.podman = Some(pulling);
        stocked.docker = Some(present);
        stocked
    };
    let runtime = resolve(wanting("1.57.0"), &mut stocked()).unwrap();
    assert_eq!(
        runtime.source(),
        &RuntimeSource::Installed(path("/installed/just"))
    );
    let mut fresh_image = stocked();
    fresh_image.extracted = "just 1.60.0\n";
    let runtime = resolve(wanting("1.58.0"), &mut fresh_image).unwrap();
    assert_eq!(
        runtime.source(),
        &RuntimeSource::PodmanImage("i".to_owned())
    );
    assert_eq!(runtime.version(), &JustVersion::release(1, 60, 0));
    let error = resolve(wanting("1.58.0"), &mut stocked()).unwrap_err();
    assert_eq!(error.attempts().len(), 4);
    assert_eq!(
        error
            .message()
            .matches("version 1.57.0 is too old; 1.58.0 or newer is required")
            .count(),
        4
    );
    let mut old = stocked();
    old.printed = "just 1.0.0\n";
    assert!(resolve(wanting("1.0.0"), &mut old).is_ok());
}
