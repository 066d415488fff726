//! Administrator policy for installed Git hooks.
//!
//! Policy has two layers: a machine-wide file and a repository-local file. A
//! repository may tighten machine policy, but it cannot loosen it.

use crate::hooks::{is_supported_hook, supported};
use crate::names::{ascending, text_less, NameSet};
use crate::native::{debug_quoted, debug_text, lossy, path_join, HostPath};
use crate::text::{concat2, concat4, concat5, decimal, decimal_text, trim, trimmed, views};
use vstd::prelude::*;
use vstd::utf8::encode_utf8;

verus! {

pub const SYSTEM_POLICY_PATH: &'static str = "/etc/pipeline.yml";

pub const REPOSITORY_POLICY_RELATIVE_PATH: &'static str = "pipeline/config.yml";

pub const POLICY_VERSION: u32 = 1;

/// Which definition runs over incoming commits.
#[derive(Clone, Copy, Debug, PartialEq, Eq, PartialOrd, Ord, Structural)]
pub enum IncomingPolicy {
    Project,
    Trusted,
    Skip,
}

impl Default for IncomingPolicy {
    fn default() -> (policy: IncomingPolicy)
        ensures
            policy is Project,
    {
        IncomingPolicy::Project
    }
}

/// Whether a hook without a trigger succeeds.
#[derive(Clone, Copy, Debug, PartialEq, Eq, PartialOrd, Ord, Structural)]
pub enum MissingTriggerPolicy {
    Allow,
    Deny,
}

impl Default for MissingTriggerPolicy {
    fn default() -> (policy: MissingTriggerPolicy)
        ensures
            policy is Allow,
    {
        MissingTriggerPolicy::Allow
    }
}

#[derive(Debug, PartialEq, Eq)]
pub struct HooksPolicy {
    pub enabled: bool,
    pub disabled: NameSet,
    pub incoming: IncomingPolicy,
    pub trusted_ref: Option<String>,
    pub parallel_refs: bool,
    pub missing_trigger: MissingTriggerPolicy,
}

/// Both policies say the same about hooks.
pub open spec fn same_hooks_policy(a: HooksPolicy, b: HooksPolicy) -> bool {
    &&& a.enabled == b.enabled
    &&& a.disabled@ == b.disabled@
    &&& a.incoming == b.incoming
    &&& match (a.trusted_ref, b.trusted_ref) {
        (Some(x), Some(y)) => x@ == y@,
        (None, None) => true,
        _ => false,
    }
    &&& a.parallel_refs == b.parallel_refs
    &&& a.missing_trigger == b.missing_trigger
}

impl Clone for HooksPolicy {
    fn clone(&self) -> (copy: HooksPolicy)
        ensures
            same_hooks_policy(copy, *self),
    {
        HooksPolicy {
            enabled: self.enabled,
            disabled: self.disabled.clone(),
            incoming: self.incoming,
            trusted_ref: match &self.trusted_ref {
                Some(revision) => Some(String::from_str(revision.as_str())),
                None => None,
            },
            parallel_refs: self.parallel_refs,
            missing_trigger: self.missing_trigger,
        }
    }
}

impl Default for HooksPolicy {
    fn default() -> (policy: HooksPolicy)
        ensures
            policy.enabled,
            policy.disabled@ == Seq::<Seq<char>>::empty(),
            policy.incoming is Project,
            policy.trusted_ref is None,
            policy.parallel_refs,
            policy.missing_trigger is Allow,
    {
        HooksPolicy {
            enabled: true,
            disabled: NameSet::new(),
            incoming: IncomingPolicy::Project,
            trusted_ref: None,
            parallel_refs: true,
            missing_trigger: MissingTriggerPolicy::Allow,
        }
    }
}

#[derive(Clone, Copy, Debug, PartialEq, Eq)]
pub struct RuntimePolicy {
    pub container_fallback: bool,
}

impl Default for RuntimePolicy {
    fn default() -> (policy: RuntimePolicy)
        ensures
            policy.container_fallback,
    {
        RuntimePolicy { container_fallback: true }
    }
}

/// The policy in force.
#[derive(Debug, PartialEq, Eq)]
pub struct Policy {
    pub version: u32,
    pub hooks: HooksPolicy,
    pub runtime: RuntimePolicy,
}

impl Clone for Policy {
    fn clone(&self) -> (copy: Policy)
        ensures
            copy.version == self.version,
            same_hooks_policy(copy.hooks, self.hooks),
            copy.runtime == self.runtime,
    {
        Policy { version: self.version, hooks: self.hooks.clone(), runtime: self.runtime }
    }
}

impl Default for Policy {
    fn default() -> (policy: Policy)
        ensures
            policy.version == POLICY_VERSION,
            policy.hooks.enabled,
            policy.hooks.disabled@ == Seq::<Seq<char>>::empty(),
            policy.hooks.incoming is Project,
            policy.hooks.trusted_ref is None,
            policy.hooks.parallel_refs,
            policy.hooks.missing_trigger is Allow,
            policy.runtime.container_fallback,
    {
        Policy {
            version: POLICY_VERSION,
            hooks: HooksPolicy::default(),
            runtime: RuntimePolicy::default(),
        }
    }
}

/// What one policy file says. Everything may be left out.
#[derive(Clone, Debug)]
pub struct PolicyLayer {
    pub version: Option<u32>,
    pub hooks: Option<HooksLayer>,
    pub runtime: Option<RuntimeLayer>,
}

#[derive(Clone, Debug)]
pub struct HooksLayer {
    pub enabled: Option<bool>,
    pub disabled: Option<Vec<String>>,
    pub incoming: Option<IncomingPolicy>,
    pub trusted_ref: Option<String>,
    pub parallel_refs: Option<bool>,
    pub missing_trigger: Option<MissingTriggerPolicy>,
}

#[derive(Clone, Debug)]
pub struct RuntimeLayer {
    pub container_fallback: Option<bool>,
}

/// What reading a policy file gave.
#[derive(Debug)]
pub enum LayerContents {
    Missing,
    Unreadable(String),
    Malformed(String),
    Parsed(PolicyLayer),
}

/// Why there is no policy.
#[derive(Debug, PartialEq, Eq)]
pub enum PolicyError {
    Read { path: HostPath, source: String },
    Parse { path: HostPath, message: String },
    UnsupportedVersion { path: HostPath, version: u32 },
    TrustedRefRequired,
    InvalidTrustedRef,
    InvalidDisabledHook(String),
}

pub open spec fn policy_message(error: PolicyError) -> Seq<char> {
    match error {
        PolicyError::Read { path, source } => "could not read policy "@ + lossy(path@) + ": "@
            + source@,
        PolicyError::Parse { path, message } => "invalid policy "@ + lossy(path@) + ": "@
            + message@,
        PolicyError::UnsupportedVersion { path, version } => "unsupported policy version "@
            + decimal(version as nat) + " in "@ + lossy(path@) + "; expected version 1"@,
        PolicyError::TrustedRefRequired =>
            "hooks.incoming is `trusted`, but hooks.trusted-ref is not configured"@,
        PolicyError::InvalidTrustedRef => "hooks.trusted-ref must not be empty"@,
        PolicyError::InvalidDisabledHook(
            name,
        ) => "hooks.disabled contains an unsupported hook name: "@ + debug_quoted(name@),
    }
}

impl PolicyError {
    /// The message for the user.
    pub fn message(&self) -> (message: String)
        ensures
            message@ == policy_message(*self),
    {
        match self {
            PolicyError::Read { path, source } => concat4(
                "could not read policy ",
                path.shown().as_str(),
                ": ",
                source.as_str(),
            ),
            PolicyError::Parse { path, message } => concat4(
                "invalid policy ",
                path.shown().as_str(),
                ": ",
                message.as_str(),
            ),
            PolicyError::UnsupportedVersion { path, version } => concat5(
                "unsupported policy version ",
                decimal_text(*version as u64).as_str(),
                " in ",
                path.shown().as_str(),
                "; expected version 1",
            ),
            PolicyError::TrustedRefRequired => String::from_str(
                "hooks.incoming is `trusted`, but hooks.trusted-ref is not configured",
            ),
            PolicyError::InvalidTrustedRef => String::from_str(
                "hooks.trusted-ref must not be empty",
            ),
            PolicyError::InvalidDisabledHook(name) => concat2(
                "hooks.disabled contains an unsupported hook name: ",
                debug_text(name.as_str()).as_str(),
            ),
        }
    }
}

/// The hook settings of a layer, where it has any.
pub open spec fn hook_settings(layer: Option<PolicyLayer>) -> Option<HooksLayer> {
    match layer {
        Some(settings) => settings.hooks,
        None => None,
    }
}

pub open spec fn layer_enabled(layer: Option<PolicyLayer>) -> bool {
    match hook_settings(layer) {
        Some(hooks) => hooks.enabled != Some(false),
        None => true,
    }
}

pub open spec fn layer_disabled(layer: Option<PolicyLayer>) -> Seq<Seq<char>> {
    match hook_settings(layer) {
        Some(hooks) => match hooks.disabled {
            Some(list) => views(list@),
            None => seq![],
        },
        None => seq![],
    }
}

pub open spec fn layer_incoming(layer: Option<PolicyLayer>) -> IncomingPolicy {
    match hook_settings(layer) {
        Some(hooks) => match hooks.incoming {
            Some(incoming) => incoming,
            None => IncomingPolicy::Project,
        },
        None => IncomingPolicy::Project,
    }
}

/// The trusted revision as it is written.
pub open spec fn layer_trusted_ref(layer: Option<PolicyLayer>) -> Option<Seq<char>> {
    match hook_settings(layer) {
        Some(hooks) => match hooks.trusted_ref {
            Some(revision) => Some(revision@),
            None => None,
        },
        None => None,
    }
}

pub open spec fn layer_parallel(layer: Option<PolicyLayer>) -> bool {
    match hook_settings(layer) {
        Some(hooks) => hooks.parallel_refs != Some(false),
        None => true,
    }
}

pub open spec fn layer_missing(layer: Option<PolicyLayer>) -> MissingTriggerPolicy {
    match hook_settings(layer) {
        Some(hooks) => match hooks.missing_trigger {
            Some(missing) => missing,
            None => MissingTriggerPolicy::Allow,
        },
        None => MissingTriggerPolicy::Allow,
    }
}

pub open spec fn layer_fallback(layer: Option<PolicyLayer>) -> bool {
    match layer {
        Some(settings) => match settings.runtime {
            Some(runtime) => runtime.container_fallback != Some(false),
            None => true,
        },
        None => true,
    }
}

/// How restrictive an incoming policy is.
pub open spec fn incoming_rank(policy: IncomingPolicy) -> int {
    match policy {
        IncomingPolicy::Project => 0,
        IncomingPolicy::Trusted => 1,
        IncomingPolicy::Skip => 2,
    }
}

pub open spec fn stricter_incoming(a: IncomingPolicy, b: IncomingPolicy) -> IncomingPolicy {
    if incoming_rank(a) <= incoming_rank(b) {
        b
    } else {
        a
    }
}

pub open spec fn stricter_missing(
    a: MissingTriggerPolicy,
    b: MissingTriggerPolicy,
) -> MissingTriggerPolicy {
    if a is Deny {
        a
    } else {
        b
    }
}

/// A trusted revision that is written but blank.
pub open spec fn blank_ref(layer: Option<PolicyLayer>) -> bool {
    layer_trusted_ref(layer) matches Some(revision) && trimmed(revision).len() == 0
}

/// The trusted revision of both layers: the system's, else the repository's.
pub open spec fn merged_ref(system: Option<PolicyLayer>, repository: Option<PolicyLayer>) -> Option<
    Seq<char>,
> {
    match layer_trusted_ref(system) {
        Some(revision) => Some(trimmed(revision)),
        None => match layer_trusted_ref(repository) {
            Some(revision) => Some(trimmed(revision)),
            None => None,
        },
    }
}

pub open spec fn merged_incoming(
    system: Option<PolicyLayer>,
    repository: Option<PolicyLayer>,
) -> IncomingPolicy {
    stricter_incoming(layer_incoming(system), layer_incoming(repository))
}

/// `name` is disabled by one of the layers.
pub open spec fn disabled_by(
    system: Option<PolicyLayer>,
    repository: Option<PolicyLayer>,
    name: Seq<char>,
) -> bool {
    layer_disabled(system).contains(name) || layer_disabled(repository).contains(name)
}

/// The first unsupported name, in ascending order, that a layer disables.
pub open spec fn first_unsupported(
    system: Option<PolicyLayer>,
    repository: Option<PolicyLayer>,
    name: Seq<char>,
) -> bool {
    &&& disabled_by(system, repository, name)
    &&& !supported(name)
    &&& forall|other: Seq<char>|
        #[trigger] disabled_by(system, repository, other) && !supported(other) ==> other == name
            || text_less(name, other)
}

/// Every name that a layer disables is a supported hook.
pub open spec fn disables_supported(
    system: Option<PolicyLayer>,
    repository: Option<PolicyLayer>,
) -> bool {
    forall|name: Seq<char>| #[trigger] disabled_by(system, repository, name) ==> supported(name)
}

/// The policy is exactly what the two layers make together.
pub open spec fn merges(
    system: Option<PolicyLayer>,
    repository: Option<PolicyLayer>,
    policy: Policy,
) -> bool {
    &&& policy.version == POLICY_VERSION
    &&& policy.hooks.enabled == (layer_enabled(system) && layer_enabled(repository))
    &&& ascending(policy.hooks.disabled@)
    &&& forall|name: Seq<char>|
        policy.hooks.disabled@.contains(name) <==> #[trigger] disabled_by(system, repository, name)
    &&& policy.hooks.incoming == merged_incoming(system, repository)
    &&& match merged_ref(system, repository) {
        Some(revision) => policy.hooks.trusted_ref matches Some(text) && text@ == revision,
        None => policy.hooks.trusted_ref is None,
    }
    &&& policy.hooks.parallel_refs == (layer_parallel(system) && layer_parallel(repository))
    &&& policy.hooks.missing_trigger == stricter_missing(
        layer_missing(system),
        layer_missing(repository),
    )
    &&& policy.runtime.container_fallback == (layer_fallback(system) && layer_fallback(
        repository,
    ))
}

/// What merging two layers gives.
pub open spec fn merge_outcome(
    system: Option<PolicyLayer>,
    repository: Option<PolicyLayer>,
    result: Result<Policy, PolicyError>,
) -> bool {
    if blank_ref(system) || blank_ref(repository) {
        result matches Err(PolicyError::InvalidTrustedRef)
    } else if merged_incoming(system, repository) is Trusted && merged_ref(system, repository)
        is None {
        result matches Err(PolicyError::TrustedRefRequired)
    } else if !disables_supported(system, repository) {
        result matches Err(PolicyError::InvalidDisabledHook(name)) && first_unsupported(
            system,
            repository,
            name@,
        )
    } else {
        result matches Ok(policy) && merges(system, repository, policy)
    }
}

/// A hook that the policy lets run.
pub open spec fn allows_hook(policy: Policy, hook: Seq<char>) -> bool {
    policy.hooks.enabled && !policy.hooks.disabled@.contains(hook)
}

/// Whatever the repository says, the merged policy is at least as strict as the
/// system layer: no hook runs that the system stops, and no setting is looser.
/// A trusted revision that the system names stays.
pub proof fn repository_cannot_loosen(
    system: Option<PolicyLayer>,
    repository: Option<PolicyLayer>,
    policy: Policy,
    hook: Seq<char>,
)
    requires
        merges(system, repository, policy),
    ensures
        allows_hook(policy, hook) ==> layer_enabled(system) && !layer_disabled(system).contains(
            hook,
        ),
        incoming_rank(layer_incoming(system)) <= incoming_rank(policy.hooks.incoming),
        policy.hooks.parallel_refs ==> layer_parallel(system),
        layer_missing(system) is Deny ==> policy.hooks.missing_trigger is Deny,
        policy.runtime.container_fallback ==> layer_fallback(system),
        layer_trusted_ref(system) matches Some(revision) ==> policy.hooks.trusted_ref is Some
            && policy.hooks.trusted_ref->Some_0@ == trimmed(revision),
{
    assert(disabled_by(system, repository, hook) ==> policy.hooks.disabled@.contains(hook));
}

/// The other way round: the merged policy is at least as strict as what the
/// repository asks for.
pub proof fn system_cannot_loosen(
    system: Option<PolicyLayer>,
    repository: Option<PolicyLayer>,
    policy: Policy,
    hook: Seq<char>,
)
    requires
        merges(system, repository, policy),
    ensures
        allows_hook(policy, hook) ==> layer_enabled(repository) && !layer_disabled(
            repository,
        ).contains(hook),
        incoming_rank(layer_incoming(repository)) <= incoming_rank(policy.hooks.incoming),
        policy.hooks.parallel_refs ==> layer_parallel(repository),
        layer_missing(repository) is Deny ==> policy.hooks.missing_trigger is Deny,
        policy.runtime.container_fallback ==> layer_fallback(repository),
{
    assert(disabled_by(system, repository, hook) ==> policy.hooks.disabled@.contains(hook));
}

/// A policy that runs a trusted definition always names its revision.
pub proof fn trusted_mode_has_a_revision(
    system: Option<PolicyLayer>,
    repository: Option<PolicyLayer>,
    policy: Policy,
)
    requires
        merge_outcome(system, repository, Ok(policy)),
    ensures
        policy.hooks.incoming is Trusted ==> policy.hooks.trusted_ref is Some
            && policy.hooks.trusted_ref->Some_0@.len() > 0,
{
}

/// A layer with an accepted version, or none.
pub open spec fn versioned(layer: PolicyLayer) -> bool {
    layer.version matches Some(version) ==> version == POLICY_VERSION
}

/// The layer that a file holds.
pub open spec fn layer_of(contents: LayerContents) -> Option<PolicyLayer> {
    match contents {
        LayerContents::Parsed(layer) => Some(layer),
        _ => None,
    }
}

/// A file that gives a layer, or is not there.
pub open spec fn acceptable(contents: LayerContents) -> bool {
    match contents {
        LayerContents::Missing => true,
        LayerContents::Unreadable(_) => false,
        LayerContents::Malformed(_) => false,
        LayerContents::Parsed(layer) => versioned(layer),
    }
}

/// The error for a file that gives no layer.
pub open spec fn rejects(error: PolicyError, contents: LayerContents, on: Seq<u8>) -> bool {
    match contents {
        LayerContents::Missing => false,
        LayerContents::Unreadable(text) => error matches PolicyError::Read { path, source }
            && path@ == on && source@ == text@,
        LayerContents::Malformed(text) => error matches PolicyError::Parse { path, message }
            && path@ == on && message@ == text@,
        LayerContents::Parsed(layer) => error matches PolicyError::UnsupportedVersion {
            path,
            version,
        } && path@ == on && Some(version) == layer.version && version != POLICY_VERSION,
    }
}

/// What loading two files gives: an error of the first, of the second, or what
/// merging them gives.
pub open spec fn load_outcome(
    system_path: Seq<u8>,
    system: LayerContents,
    repository_path: Seq<u8>,
    repository: LayerContents,
    result: Result<Policy, PolicyError>,
) -> bool {
    if !acceptable(system) {
        result matches Err(error) && rejects(error, system, system_path)
    } else if !acceptable(repository) {
        result matches Err(error) && rejects(error, repository, repository_path)
    } else {
        merge_outcome(layer_of(system), layer_of(repository), result)
    }
}

impl PolicyLayer {
    /// The layer that a file holds, if the file is there.
    pub fn read_optional(path: &HostPath, contents: LayerContents) -> (result: Result<
        Option<PolicyLayer>,
        PolicyError,
    >)
        ensures
            acceptable(contents) ==> result == Ok::<Option<PolicyLayer>, PolicyError>(
                layer_of(contents),
            ),
            !acceptable(contents) ==> (result matches Err(error) && rejects(
                error,
                contents,
                path@,
            )),
    {
        match contents {
            LayerContents::Missing => Ok(None),
            LayerContents::Unreadable(source) => Err(
                PolicyError::Read { path: path.clone(), source },
            ),
            LayerContents::Malformed(message) => Err(
                PolicyError::Parse { path: path.clone(), message },
            ),
            LayerContents::Parsed(layer) => {
                if let Some(version) = layer.version {
                    if version != POLICY_VERSION {
                        return Err(
                            PolicyError::UnsupportedVersion { path: path.clone(), version },
                        );
                    }
                }
                Ok(Some(layer))
            },
        }
    }
}

/// Trims a trusted revision and refuses a blank one.
fn validate_trusted_ref(value: &Option<String>) -> (result: Result<Option<String>, PolicyError>)
    ensures
        match value {
            None => result matches Ok(None),
            Some(text) => if trimmed(text@).len() == 0 {
                result matches Err(PolicyError::InvalidTrustedRef)
            } else {
                result matches Ok(Some(revision)) && revision@ == trimmed(text@)
            },
        },
{
    match value {
        None => Ok(None),
        Some(text) => {
            let revision = trim(text.as_str());
            let chars = crate::text::chars_of(revision.as_str());
            if chars.len() == 0 {
                Err(PolicyError::InvalidTrustedRef)
            } else {
                Ok(Some(revision))
            }
        },
    }
}

/// The settings of a layer with everything filled in but the revision.
struct Settings {
    enabled: bool,
    disabled: Vec<String>,
    incoming: IncomingPolicy,
    trusted_ref: Option<String>,
    parallel_refs: bool,
    missing_trigger: MissingTriggerPolicy,
    container_fallback: bool,
}

fn settings_of(layer: Option<PolicyLayer>) -> (settings: Settings)
    ensures
        settings.enabled == layer_enabled(layer),
        views(settings.disabled@) == layer_disabled(layer),
        settings.incoming == layer_incoming(layer),
        match layer_trusted_ref(layer) {
            Some(revision) => settings.trusted_ref matches Some(text) && text@ == revision,
            None => settings.trusted_ref is None,
        },
        settings.parallel_refs == layer_parallel(layer),
        settings.missing_trigger == layer_missing(layer),
        settings.container_fallback == layer_fallback(layer),
{
    let empty: Vec<String> = Vec::new();
    proof {
        assert(views(empty@) =~= seq![]);
    }
    let mut settings = Settings {
        enabled: true,
        disabled: empty,
        incoming: IncomingPolicy::Project,
        trusted_ref: None,
        parallel_refs: true,
        missing_trigger: MissingTriggerPolicy::Allow,
        container_fallback: true,
    };
    if let Some(given) = layer {
        if let Some(runtime) = given.runtime {
            if let Some(fallback) = runtime.container_fallback {
                settings.container_fallback = fallback;
            }
        }
        if let Some(hooks) = given.hooks {
            if let Some(enabled) = hooks.enabled {
                settings.enabled = enabled;
            }
            if let Some(disabled) = hooks.disabled {
                settings.disabled = disabled;
            }
            if let Some(incoming) = hooks.incoming {
                settings.incoming = incoming;
            }
            settings.trusted_ref = hooks.trusted_ref;
            if let Some(parallel) = hooks.parallel_refs {
                settings.parallel_refs = parallel;
            }
            if let Some(missing) = hooks.missing_trigger {
                settings.missing_trigger = missing;
            }
        }
    }
    settings
}

fn stricter(a: IncomingPolicy, b: IncomingPolicy) -> (policy: IncomingPolicy)
    ensures
        policy == stricter_incoming(a, b),
{
    match (a, b) {
        (IncomingPolicy::Skip, _) => a,
        (IncomingPolicy::Trusted, IncomingPolicy::Skip) => b,
        (IncomingPolicy::Trusted, _) => a,
        (IncomingPolicy::Project, _) => b,
    }
}

fn union_of(first: &Vec<String>, second: &Vec<String>) -> (set: NameSet)
    ensures
        ascending(set@),
        forall|name: Seq<char>| #[trigger]
            set@.contains(name) <==> views(first@).contains(name) || views(second@).contains(name),
{
    let mut set = NameSet::from_names(first);
    let ghost start = set@;
    let ghost all = views(second@);
    let mut i: usize = 0;
    while i < second.len()
        invariant
            i <= second.len(),
            all == views(second@),
            ascending(set@),
            forall|name: Seq<char>| #[trigger]
                set@.contains(name) <==> start.contains(name) || all.take(i as int).contains(name),
        decreases second.len() - i,
    {
        let ghost before = set@;
        set.insert(second[i].as_str());
        proof {
            let seen = all.take(i as int);
            let next = all.take(i as int + 1);
            let item = all[i as int];
            assert(next =~= seen.push(item));
            assert forall|name: Seq<char>| next.contains(name) <==> seen.contains(name) || name
                == item by {
                if seen.contains(name) {
                    let m = choose|m: int| 0 <= m < seen.len() && seen[m] == name;
                    assert(next[m] == name);
                }
                assert(next[i as int] == item);
            }
            assert forall|name: Seq<char>| #[trigger]
                set@.contains(name) <==> start.contains(name) || next.contains(name) by {
                assert(set@.contains(name) <==> before.contains(name) || name == item);
            }
        }
        i += 1;
    }
    proof {
        assert(all.take(i as int) =~= all);
        assert forall|name: Seq<char>| #[trigger] set@.contains(name) <==> views(
            first@,
        ).contains(name) || views(second@).contains(name) by {
            assert(start.contains(name) <==> views(first@).contains(name));
        }
    }
    set
}

impl Policy {
    /// The repository's policy file.
    pub fn repository_path(git_common_dir: &HostPath) -> (path: HostPath)
        ensures
            path@ == path_join(git_common_dir@, encode_utf8(REPOSITORY_POLICY_RELATIVE_PATH@)),
    {
        git_common_dir.join(REPOSITORY_POLICY_RELATIVE_PATH)
    }

    /// Makes the policy of the machine-wide file and of the file in the Git
    /// directory. Missing files contribute the permissive defaults.
    pub fn load(
        git_common_dir: &HostPath,
        system: LayerContents,
        repository: LayerContents,
    ) -> (result: Result<Policy, PolicyError>)
        ensures
            load_outcome(
                encode_utf8(SYSTEM_POLICY_PATH@),
                system,
                path_join(git_common_dir@, encode_utf8(REPOSITORY_POLICY_RELATIVE_PATH@)),
                repository,
                result,
            ),
    {
        Policy::load_from_paths(
            &HostPath::from_text(SYSTEM_POLICY_PATH),
            system,
            &Policy::repository_path(git_common_dir),
            repository,
        )
    }

    /// Makes the policy of two files.
    pub fn load_from_paths(
        system_path: &HostPath,
        system: LayerContents,
        repository_path: &HostPath,
        repository: LayerContents,
    ) -> (result: Result<Policy, PolicyError>)
        ensures
            load_outcome(system_path@, system, repository_path@, repository, result),
    {
        let system = match PolicyLayer::read_optional(system_path, system) {
            Ok(layer) => layer,
            Err(error) => {
                return Err(error);
            },
        };
        let repository = match PolicyLayer::read_optional(repository_path, repository) {
            Ok(layer) => layer,
            Err(error) => {
                return Err(error);
            },
        };
        Policy::from_layers(system, repository)
    }

    /// Makes the policy of two documents. `None` means the layer is absent; a
    /// document comes as what parsing it gave.
    pub fn from_yaml_layers(
        system: Option<Result<PolicyLayer, String>>,
        repository: Option<Result<PolicyLayer, String>>,
    ) -> (result: Result<Policy, PolicyError>)
        ensures
            load_outcome(
                encode_utf8("<system policy>"@),
                document(system),
                encode_utf8("<repository policy>"@),
                document(repository),
                result,
            ),
    {
        Policy::load_from_paths(
            &HostPath::from_text("<system policy>"),
            document_contents(system),
            &HostPath::from_text("<repository policy>"),
            document_contents(repository),
        )
    }

    /// Merges two layers.
    pub fn from_layers(system: Option<PolicyLayer>, repository: Option<PolicyLayer>) -> (result:
        Result<Policy, PolicyError>)
        ensures
            merge_outcome(system, repository, result),
    {
        let machine = settings_of(system);
        let local = settings_of(repository);
        let incoming = stricter(machine.incoming, local.incoming);
        let system_ref = match validate_trusted_ref(&machine.trusted_ref) {
            Ok(revision) => revision,
            Err(error) => {
                return Err(error);
            },
        };
        let repository_ref = match validate_trusted_ref(&local.trusted_ref) {
            Ok(revision) => revision,
            Err(error) => {
                return Err(error);
            },
        };
        let trusted_ref = match system_ref {
            Some(revision) => Some(revision),
            None => repository_ref,
        };
        if let IncomingPolicy::Trusted = incoming {
            if trusted_ref.is_none() {
                return Err(PolicyError::TrustedRefRequired);
            }
        }
        let disabled = union_of(&machine.disabled, &local.disabled);
        let names = disabled.as_list();
        let ghost all = disabled@;
        proof {
            assert forall|name: Seq<char>| all.contains(name) <==> #[trigger] disabled_by(
                system,
                repository,
                name,
            ) by {}
        }
        let mut i: usize = 0;
        while i < names.len()
            invariant
                i <= names.len(),
                views(names@) == all,
                ascending(all),
                forall|name: Seq<char>|
                    all.contains(name) <==> #[trigger] disabled_by(system, repository, name),
                forall|k: int| 0 <= k < i ==> supported(#[trigger] all[k]),
                !blank_ref(system),
                !blank_ref(repository),
                !(merged_incoming(system, repository) is Trusted && merged_ref(system, repository) is None),
            decreases names.len() - i,
        {
            proof {
                assert(all[i as int] == names@[i as int]@);
            }
            if !is_supported_hook(names[i].as_str()) {
                proof {
                    let name = all[i as int];
                    assert(all.contains(name));
                    assert(disabled_by(system, repository, name));
                    assert forall|other: Seq<char>| #[trigger] disabled_by(system, repository, other)
                        && !supported(other) implies other == name || text_less(name, other) by {
                        assert(all.contains(other));
                        let m = choose|m: int| 0 <= m < all.len() && all[m] == other;
                        assert(all[m] == other);
                    }
                }
                return Err(
                    PolicyError::InvalidDisabledHook(String::from_str(names[i].as_str())),
                );
            }
            i += 1;
        }
        proof {
            assert forall|name: Seq<char>| #[trigger] disabled_by(
                system,
                repository,
                name,
            ) implies supported(name) by {
                assert(all.contains(name));
                let m = choose|m: int| 0 <= m < all.len() && all[m] == name;
                assert(supported(all[m]));
            }
        }
        let missing_trigger = match machine.missing_trigger {
            MissingTriggerPolicy::Deny => MissingTriggerPolicy::Deny,
            MissingTriggerPolicy::Allow => local.missing_trigger,
        };
        Ok(
            Policy {
                version: POLICY_VERSION,
                hooks: HooksPolicy {
                    enabled: machine.enabled && local.enabled,
                    disabled,
                    incoming,
                    trusted_ref,
                    parallel_refs: machine.parallel_refs && local.parallel_refs,
                    missing_trigger,
                },
                runtime: RuntimePolicy {
                    container_fallback: machine.container_fallback
                        && local.container_fallback,
                },
            },
        )
    }

    /// Whether a hook may run.
    pub fn hook_enabled(&self, hook: &str) -> (enabled: bool)
        ensures
            enabled == allows_hook(*self, hook@),
    {
        self.hooks.enabled && !self.hooks.disabled.contains(hook)
    }

    /// Whether a hook without a trigger succeeds.
    pub fn missing_trigger_is_success(&self) -> (success: bool)
        ensures
            success == self.hooks.missing_trigger is Allow,
    {
        match self.hooks.missing_trigger {
            MissingTriggerPolicy::Allow => true,
            MissingTriggerPolicy::Deny => false,
        }
    }
}

/// A document as the contents of a file.
pub open spec fn document(parsed: Option<Result<PolicyLayer, String>>) -> LayerContents {
    match parsed {
        None => LayerContents::Missing,
        Some(Ok(layer)) => LayerContents::Parsed(layer),
        Some(Err(text)) => LayerContents::Malformed(text),
    }
}

fn document_contents(parsed: Option<Result<PolicyLayer, String>>) -> (contents: LayerContents)
    ensures
        contents == document(parsed),
{
    match parsed {
        None => LayerContents::Missing,
        Some(Ok(layer)) => LayerContents::Parsed(layer),
        Some(Err(text)) => LayerContents::Malformed(text),
    }
}

} // verus!
