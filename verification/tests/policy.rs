use pipeline::names::NameSet;
use pipeline::native::HostPath;
use pipeline::policy::{
    HooksLayer, HooksPolicy, IncomingPolicy, LayerContents, MissingTriggerPolicy, Policy,
    PolicyError, PolicyLayer, RuntimeLayer, RuntimePolicy, REPOSITORY_POLICY_RELATIVE_PATH,
    SYSTEM_POLICY_PATH,
};
use yaml_serde::Value;

fn strings(value: &Value) -> Result<Vec<String>, String> {
    let list = value.as_sequence().ok_or("expected a sequence")?;
    let mut result = Vec::new();
    for item in list {
        result.push(item.as_str().ok_or("expected a string")?.to_owned());
    }
    Ok(result)
}

fn parse_hooks(value: &Value) -> Result<HooksLayer, String> {
    let mut layer = HooksLayer {
        enabled: None,
        disabled: None,
        incoming: None,
        trusted_ref: None,
        parallel_refs: None,
        missing_trigger: None,
    };
    for (key, item) in value.as_mapping().ok_or("expected a mapping")? {
        match key.as_str() {
            Some("enabled") => layer.enabled = Some(item.as_bool().ok_or("expected a boolean")?),
            Some("disabled") => layer.disabled = Some(strings(item)?),
            Some("incoming") => {
                layer.incoming = Some(match item.as_str() {
                    Some("project") => IncomingPolicy::Project,
                    Some("trusted") => IncomingPolicy::Trusted,
                    Some("skip") => IncomingPolicy::Skip,
                    _ => return Err("unknown variant".to_owned()),
                })
            }
            Some("trusted-ref") => {
                layer.trusted_ref = Some(item.as_str().ok_or("expected a string")?.to_owned())
            }
            Some("parallel-refs") => {
                layer.parallel_refs = Some(item.as_bool().ok_or("expected a boolean")?)
            }
            Some("missing-trigger") => {
                layer.missing_trigger = Some(match item.as_str() {
                    Some("allow") => MissingTriggerPolicy::Allow,
                    Some("deny") => MissingTriggerPolicy::Deny,
                    _ => return Err("unknown variant".to_owned()),
                })
            }
            _ => return Err("unknown field".to_owned()),
        }
    }
    Ok(layer)
}

fn parse_runtime(value: &Value) -> Result<RuntimeLayer, String> {
    let mut layer = RuntimeLayer {
        container_fallback: None,
    };
    for (key, item) in value.as_mapping().ok_or("expected a mapping")? {
        match key.as_str() {
            Some("container-fallback") => {
                layer.container_fallback = Some(item.as_bool().ok_or("expected a boolean")?)
            }
            _ => return Err("unknown field".to_owned()),
        }
    }
    Ok(layer)
}

fn parse_layer(text: &str) -> Result<PolicyLayer, String> {
    let value: Value = yaml_serde::from_str(text).map_err(|error| error.to_string())?;
    let mut layer = PolicyLayer {
        version: None,
        hooks: None,
        runtime: None,
    };
    for (key, item) in value.as_mapping().ok_or("expected a mapping")? {
        match key.as_str() {
            Some("version") => {
                layer.version = Some(item.as_u64().ok_or("expected a number")? as u32)
            }
            Some("hooks") => layer.hooks = Some(parse_hooks(item)?),
            Some("runtime") => layer.runtime = Some(parse_runtime(item)?),
            _ => return Err("unknown field".to_owned()),
        }
    }
    Ok(layer)
}

fn from_yaml_layers(system: Option<&str>, repository: Option<&str>) -> Result<Policy, PolicyError> {
    Policy::from_yaml_layers(system.map(parse_layer), repository.map(parse_layer))
}

fn set(names: &[&str]) -> NameSet {
    NameSet::from_names(&names.iter().map(|name| (*name).to_owned()).collect())
}

#[test]
fn defaults_are_permissive() {
    let policy = from_yaml_layers(None, None).unwrap();
    assert_eq!(policy, Policy::default());
    assert!(policy.hook_enabled("pre-commit"));
    assert!(policy.missing_trigger_is_success());
}

#[test]
fn layers_only_become_more_restrictive() {
    let system = r#"
hooks:
  enabled: true
  disabled: [pre-push]
  incoming: trusted
  trusted-ref: refs/heads/pipeline
  parallel-refs: false
runtime:
  container-fallback: true
"#;
    let repository = r#"
version: 1
hooks:
  enabled: false
  disabled: [pre-commit]
  incoming: skip
  trusted-ref: refs/heads/ignored
  missing-trigger: deny
runtime:
  container-fallback: false
"#;

    let policy = from_yaml_layers(Some(system), Some(repository)).unwrap();
    assert!(!policy.hooks.enabled);
    assert_eq!(policy.hooks.disabled, set(&["pre-commit", "pre-push"]));
    assert_eq!(policy.hooks.incoming, IncomingPolicy::Skip);
    assert_eq!(
        policy.hooks.trusted_ref.as_deref(),
        Some("refs/heads/pipeline")
    );
    assert!(!policy.hooks.parallel_refs);
    assert_eq!(policy.hooks.missing_trigger, MissingTriggerPolicy::Deny);
    assert!(!policy.runtime.container_fallback);
}

#[test]
fn repository_can_supply_ref_when_system_only_selects_trusted_mode() {
    let policy = from_yaml_layers(
        Some("hooks:\n  incoming: trusted\n"),
        Some("hooks:\n  trusted-ref: v1\n"),
    )
    .unwrap();
    assert_eq!(policy.hooks.trusted_ref.as_deref(), Some("v1"));
}

#[test]
fn trusted_mode_requires_a_revision() {
    assert!(matches!(
        from_yaml_layers(Some("hooks:\n  incoming: trusted\n"), None),
        Err(PolicyError::TrustedRefRequired)
    ));
}

#[test]
fn rejects_unknown_fields_and_versions() {
    assert!(matches!(
        from_yaml_layers(Some("surprise: true\n"), None),
        Err(PolicyError::Parse { .. })
    ));
    assert!(matches!(
        from_yaml_layers(Some("version: 2\n"), None),
        Err(PolicyError::UnsupportedVersion { version: 2, .. })
    ));
    assert!(matches!(
        from_yaml_layers(Some("hooks:\n  disabled: [not-a-hook]\n"), None),
        Err(PolicyError::InvalidDisabledHook(_))
    ));
}

#[test]
fn loads_optional_files() {
    let policy = Policy::load_from_paths(
        &HostPath::from_text("/tmp/system.yml"),
        LayerContents::Missing,
        &HostPath::from_text("/tmp/repo.yml"),
        LayerContents::Parsed(parse_layer("hooks:\n  disabled: [update]\n").unwrap()),
    )
    .unwrap();
    assert!(!policy.hook_enabled("update"));
    assert!(policy.hook_enabled("pre-commit"));
}

#[test]
fn default_parts_are_the_documented_ones() {
    let hooks = HooksPolicy::default();
    assert!(hooks.enabled && hooks.parallel_refs && hooks.disabled.is_empty());
    assert_eq!(hooks.incoming, IncomingPolicy::default());
    assert_eq!(hooks.missing_trigger, MissingTriggerPolicy::default());
    assert_eq!(hooks.trusted_ref, None);
    assert!(RuntimePolicy::default().container_fallback);
    assert_eq!(Policy::default().version, 1);
}

#[test]
fn the_first_unsupported_name_in_order_is_reported() {
    let error = from_yaml_layers(
        Some("hooks:\n  disabled: [zzz, pre-commit]\n"),
        Some("hooks:\n  disabled: [aaa]\n"),
    )
    .unwrap_err();
    assert_eq!(error, PolicyError::InvalidDisabledHook("aaa".to_owned()));
    assert_eq!(
        error.message(),
        "hooks.disabled contains an unsupported hook name: \"aaa\""
    );
}

#[test]
fn trusted_revisions_are_trimmed_and_never_blank() {
    let policy = from_yaml_layers(Some("hooks:\n  trusted-ref: '  main '\n"), None).unwrap();
    assert_eq!(policy.hooks.trusted_ref.as_deref(), Some("main"));
    let error = from_yaml_layers(None, Some("hooks:\n  trusted-ref: '  '\n")).unwrap_err();
    assert_eq!(error, PolicyError::InvalidTrustedRef);
    assert_eq!(error.message(), "hooks.trusted-ref must not be empty");
}

#[test]
fn every_policy_error_has_its_message() {
    let directory = HostPath::from_text("/repo/.git");
    let unreadable = Policy::load(
        &directory,
        LayerContents::Unreadable("denied".to_owned()),
        LayerContents::Missing,
    )
    .unwrap_err();
    assert_eq!(
        unreadable.message(),
        "could not read policy /etc/pipeline.yml: denied"
    );
    let malformed = Policy::load(
        &directory,
        LayerContents::Missing,
        LayerContents::Malformed("no mapping".to_owned()),
    )
    .unwrap_err();
    assert_eq!(
        malformed.message(),
        "invalid policy /repo/.git/pipeline/config.yml: no mapping"
    );
    let version = from_yaml_layers(None, Some("version: 7\n")).unwrap_err();
    assert_eq!(
        version.message(),
        "unsupported policy version 7 in <repository policy>; expected version 1"
    );
    assert_eq!(
        PolicyError::TrustedRefRequired.message(),
        "hooks.incoming is `trusted`, but hooks.trusted-ref is not configured"
    );
}

#[test]
fn policy_paths_are_the_documented_ones() {
    assert_eq!(SYSTEM_POLICY_PATH, "/etc/pipeline.yml");
    assert_eq!(REPOSITORY_POLICY_RELATIVE_PATH, "pipeline/config.yml");
    assert_eq!(
        Policy::repository_path(&HostPath::from_text("/repo/.git")).shown(),
        "/repo/.git/pipeline/config.yml"
    );
}

#[test]
fn errors_of_the_system_layer_come_first() {
    let error = Policy::from_yaml_layers(
        Some(Err("first".to_owned())),
        Some(Err("second".to_owned())),
    )
    .unwrap_err();
    assert_eq!(error.message(), "invalid policy <system policy>: first");
}

#[test]
fn stricter_settings_win_from_either_layer() {
    for (system, repository) in [
        (Some("hooks:\n  incoming: skip\n"), Some("hooks:\n  incoming: project\n")),
        (Some("hooks:\n  incoming: project\n"), Some("hooks:\n  incoming: skip\n")),
    ] {
        let policy = from_yaml_layers(system, repository).unwrap();
        assert_eq!(policy.hooks.incoming, IncomingPolicy::Skip);
    }
    for (system, repository) in [
        (Some("hooks:\n  missing-trigger: deny\n"), None),
        (None, Some("hooks:\n  missing-trigger: deny\n")),
    ] {
        let policy = from_yaml_layers(system, repository).unwrap();
        assert!(!policy.missing_trigger_is_success());
    }
}

#[test]
fn policies_can_be_copied() {
    let mut policy = Policy::default();
    policy.hooks.disabled.insert("update");
    policy.hooks.incoming = IncomingPolicy::Trusted;
    policy.hooks.trusted_ref = Some("refs/heads/policy".to_owned());
    policy.runtime.container_fallback = false;
    assert_eq!(policy.clone(), policy);
}
