//! What two policies make together.

use crate::hooks::supported;
use crate::native::HostPath;
use crate::policy::{
    disabled_by, merges, HooksLayer, IncomingPolicy, LayerContents, MissingTriggerPolicy, Policy,
    PolicyError, PolicyLayer,
};
use crate::text::{trimmed, views};
use vstd::prelude::*;

verus! {

/// A policy file has hook settings, and they say this.
pub open spec fn says(layer: Option<PolicyLayer>, about: spec_fn(HooksLayer) -> bool) -> bool {
    layer matches Some(file) && (file.hooks matches Some(hooks) && about(hooks))
}

/// A policy file asks for this treatment of what is pushed.
pub open spec fn asks_for(layer: Option<PolicyLayer>, incoming: IncomingPolicy) -> bool {
    says(layer, |hooks: HooksLayer| hooks.incoming == Some(incoming))
}

/// A policy file names a hook that it disables.
pub open spec fn disables(layer: Option<PolicyLayer>, hook: Seq<char>) -> bool {
    says(
        layer,
        |hooks: HooksLayer| hooks.disabled matches Some(list) && views(list@).contains(hook),
    )
}

/// A policy file names a revision that it trusts.
pub open spec fn names_a_ref(layer: Option<PolicyLayer>) -> bool {
    says(layer, |hooks: HooksLayer| hooks.trusted_ref is Some)
}

/// A policy file names a revision of blanks only.
pub open spec fn names_a_blank(layer: Option<PolicyLayer>) -> bool {
    says(
        layer,
        |hooks: HooksLayer| hooks.trusted_ref matches Some(text) && trimmed(text@).len() == 0,
    )
}

/// A policy file keeps Just from being taken out of a container image.
pub open spec fn forbids_fallback(layer: Option<PolicyLayer>) -> bool {
    layer matches Some(file) && (file.runtime matches Some(runtime)
        && runtime.container_fallback == Some(false))
}

/// What is pushed is treated as one of the two files asks, and as the stricter
/// one of them does: nothing is run if either says so, else a trusted definition
/// if either says so, else the project's own.
pub open spec fn treats_pushes_as_asked(
    system: Option<PolicyLayer>,
    repository: Option<PolicyLayer>,
    policy: Policy,
) -> bool {
    let either = |incoming: IncomingPolicy|
        asks_for(system, incoming) || asks_for(repository, incoming);
    policy.hooks.incoming == (if either(IncomingPolicy::Skip) {
        IncomingPolicy::Skip
    } else if either(IncomingPolicy::Trusted) {
        IncomingPolicy::Trusted
    } else {
        IncomingPolicy::Project
    })
}

/// Everything is allowed that neither of the two files forbids.
pub open spec fn allows_what_neither_forbids(
    system: Option<PolicyLayer>,
    repository: Option<PolicyLayer>,
    policy: Policy,
) -> bool {
    let neither = |about: spec_fn(HooksLayer) -> bool|
        !says(system, about) && !says(repository, about);
    &&& policy.hooks.enabled <==> neither(|hooks: HooksLayer| hooks.enabled == Some(false))
    &&& policy.hooks.parallel_refs <==> neither(
        |hooks: HooksLayer| hooks.parallel_refs == Some(false),
    )
    &&& policy.hooks.missing_trigger is Allow <==> neither(
        |hooks: HooksLayer| hooks.missing_trigger == Some(MissingTriggerPolicy::Deny),
    )
    &&& policy.runtime.container_fallback <==> !forbids_fallback(system) && !forbids_fallback(
        repository,
    )
    &&& forall|hook: Seq<char>|
        (#[trigger] policy.hooks.disabled@.contains(hook)) <==> disables(system, hook) || disables(
            repository,
            hook,
        )
}

/// The revision that is trusted is the one that the system names, without
/// blanks around it; where the system names none, the one that the repository
/// names.
pub open spec fn trusts_what_is_named(
    system: Option<PolicyLayer>,
    repository: Option<PolicyLayer>,
    policy: Policy,
) -> bool {
    let trusted = |hooks: HooksLayer|
        policy.hooks.trusted_ref matches Some(text) && text@ == trimmed(
            hooks.trusted_ref->Some_0@,
        );
    &&& names_a_ref(system) ==> says(system, trusted)
    &&& !names_a_ref(system) && names_a_ref(repository) ==> says(repository, trusted)
    &&& !names_a_ref(system) && !names_a_ref(repository) ==> policy.hooks.trusted_ref is None
}

/// The policy is what two files ask for together.
pub open spec fn agreed(
    system: Option<PolicyLayer>,
    repository: Option<PolicyLayer>,
    policy: Policy,
) -> bool {
    &&& policy.version == 1
    &&& treats_pushes_as_asked(system, repository, policy)
    &&& allows_what_neither_forbids(system, repository, policy)
    &&& trusts_what_is_named(system, repository, policy)
}

/// Nothing stands against two files: no blank revision, no trusted definition
/// without a revision, and nothing disabled that is no hook.
pub open spec fn agreeable(system: Option<PolicyLayer>, repository: Option<PolicyLayer>) -> bool {
    &&& !names_a_blank(system)
    &&& !names_a_blank(repository)
    &&& forall|hook: Seq<char>|
        (#[trigger] disables(system, hook) || disables(repository, hook)) ==> supported(hook)
    &&& (asks_for(system, IncomingPolicy::Trusted) || asks_for(
        repository,
        IncomingPolicy::Trusted,
    )) && !asks_for(system, IncomingPolicy::Skip) && !asks_for(repository, IncomingPolicy::Skip)
        ==> names_a_ref(system) || names_a_ref(repository)
}

proof fn lemma_agreed(
    system: Option<PolicyLayer>,
    repository: Option<PolicyLayer>,
    policy: Policy,
)
    requires
        merges(system, repository, policy),
    ensures
        agreed(system, repository, policy),
{
    assert forall|hook: Seq<char>| #[trigger] policy.hooks.disabled@.contains(hook) <==> disables(
        system,
        hook,
    ) || disables(repository, hook) by {
        assert(disabled_by(system, repository, hook) <==> disables(system, hook) || disables(
            repository,
            hook,
        ));
    }
}

proof fn lemma_agreeable(system: Option<PolicyLayer>, repository: Option<PolicyLayer>)
    ensures
        crate::policy::disables_supported(system, repository) <==> forall|hook: Seq<char>|
            (#[trigger] disables(system, hook) || disables(repository, hook)) ==> supported(hook),
{
    assert forall|hook: Seq<char>| #[trigger] disabled_by(system, repository, hook) <==> disables(
        system,
        hook,
    ) || disables(repository, hook) by {}
    if forall|hook: Seq<char>|
        (#[trigger] disables(system, hook) || disables(repository, hook)) ==> supported(hook) {
        assert forall|hook: Seq<char>| #[trigger] disabled_by(system, repository, hook) implies
            supported(hook) by {
            assert(disables(system, hook) || disables(repository, hook));
        }
    }
    if crate::policy::disables_supported(system, repository) {
        assert forall|hook: Seq<char>|
            (#[trigger] disables(system, hook) || disables(repository, hook)) implies supported(
            hook,
        ) by {
            assert(disabled_by(system, repository, hook));
        }
    }
}

/// Merging gives what two files ask for together, unless something stands
/// against them.
pub proof fn merged_policies_are_agreed(
    system: Option<PolicyLayer>,
    repository: Option<PolicyLayer>,
    result: Result<Policy, PolicyError>,
)
    requires
        call_ensures(Policy::from_layers, (system, repository), result),
    ensures
        result is Ok <==> agreeable(system, repository),
        result matches Ok(policy) ==> agreed(system, repository, policy),
{
    lemma_agreeable(system, repository);
    if let Ok(policy) = result {
        lemma_agreed(system, repository, policy);
    }
}

/// A file can be used: it is not there, or says something in the first version.
pub open spec fn usable(contents: LayerContents) -> bool {
    match contents {
        LayerContents::Missing => true,
        LayerContents::Parsed(file) => file.version is None || file.version == Some(1u32),
        _ => false,
    }
}

/// What a file says: nothing if it is not there.
pub open spec fn said(contents: LayerContents) -> Option<PolicyLayer> {
    match contents {
        LayerContents::Parsed(file) => Some(file),
        _ => None,
    }
}

/// Loading two files gives what they ask for together, if both can be used.
pub proof fn loaded_policies_are_agreed(
    git_common_dir: &HostPath,
    system: LayerContents,
    repository: LayerContents,
    result: Result<Policy, PolicyError>,
)
    requires
        call_ensures(Policy::load, (git_common_dir, system, repository), result),
    ensures
        result is Ok <==> usable(system) && usable(repository) && agreeable(
            said(system),
            said(repository),
        ),
        result matches Ok(policy) ==> agreed(said(system), said(repository), policy),
{
    lemma_agreeable(said(system), said(repository));
    if let Ok(policy) = result {
        lemma_agreed(said(system), said(repository), policy);
    }
}

/// The same holds of two documents.
pub proof fn documents_are_agreed(
    system: Option<Result<PolicyLayer, String>>,
    repository: Option<Result<PolicyLayer, String>>,
    policy: Policy,
)
    requires
        call_ensures(Policy::from_yaml_layers, (system, repository), Ok(policy)),
    ensures
        system matches Some(document) ==> document is Ok,
        repository matches Some(document) ==> document is Ok,
        agreed(
            match system {
                Some(document) => Some(document->Ok_0),
                None => None,
            },
            match repository {
                Some(document) => Some(document->Ok_0),
                None => None,
            },
            policy,
        ),
{
    lemma_agreed(
        crate::policy::layer_of(crate::policy::document(system)),
        crate::policy::layer_of(crate::policy::document(repository)),
        policy,
    );
}

/// A hook runs exactly if the policy has hooks enabled and does not disable this
/// one.
pub proof fn only_enabled_hooks_run(policy: &Policy, hook: &str, enabled: bool, success: bool)
    requires
        call_ensures(Policy::hook_enabled, (policy, hook), enabled),
        call_ensures(Policy::missing_trigger_is_success, (policy,), success),
    ensures
        enabled <==> policy.hooks.enabled && !policy.hooks.disabled@.contains(hook@),
        success <==> policy.hooks.missing_trigger is Allow,
{
}

} // verus!
