//! Git hooks: their names, their selection and their safe installation.

pub mod clearance;
pub mod error;
pub mod git;
pub mod install;
pub mod installation;
pub mod materialize;
pub mod outcome;
pub mod ownership;
pub mod recovery;
pub mod removal;
pub mod repository;
pub mod request;
pub mod transaction;
pub mod updates;

use crate::hooks::error::HookError;
use crate::names::{ascending, NameSet};
use crate::text::views;
use vstd::prelude::*;

verus! {

/// Hook names documented by the current `githooks(5)` manual.
pub const SUPPORTED_HOOKS: [&'static str; 28] = [
    "applypatch-msg",
    "pre-applypatch",
    "post-applypatch",
    "pre-commit",
    "pre-merge-commit",
    "prepare-commit-msg",
    "commit-msg",
    "post-commit",
    "pre-rebase",
    "post-checkout",
    "post-merge",
    "pre-push",
    "pre-receive",
    "update",
    "proc-receive",
    "post-receive",
    "post-update",
    "reference-transaction",
    "push-to-checkout",
    "pre-auto-gc",
    "post-rewrite",
    "sendemail-validate",
    "fsmonitor-watchman",
    "p4-changelist",
    "p4-prepare-changelist",
    "p4-post-changelist",
    "p4-pre-submit",
    "post-index-change",
];

/// The supported hook names, in their documented order.
pub open spec fn supported_hooks() -> Seq<Seq<char>> {
    Seq::new(SUPPORTED_HOOKS@.len(), |i: int| SUPPORTED_HOOKS@[i]@)
}

/// `name` is a hook that Git documents.
pub open spec fn supported(name: Seq<char>) -> bool {
    supported_hooks().contains(name)
}

/// Whether `name` is a supported hook.
pub fn is_supported_hook(name: &str) -> (known: bool)
    ensures
        known == supported(name@),
{
    let mut i: usize = 0;
    while i < SUPPORTED_HOOKS.len()
        invariant
            i <= SUPPORTED_HOOKS@.len(),
            forall|k: int| 0 <= k < i ==> supported_hooks()[k] != name@,
        decreases SUPPORTED_HOOKS@.len() - i,
    {
        if *SUPPORTED_HOOKS[i] == *name {
            proof {
                assert(supported_hooks()[i as int] == name@);
            }
            return true;
        }
        i += 1;
    }
    false
}

/// The supported hook names, in their documented order.
pub fn supported_hook_list() -> (list: Vec<String>)
    ensures
        views(list@) == supported_hooks(),
{
    let mut list: Vec<String> = Vec::new();
    let mut i: usize = 0;
    while i < SUPPORTED_HOOKS.len()
        invariant
            i <= SUPPORTED_HOOKS@.len(),
            views(list@) =~= supported_hooks().take(i as int),
        decreases SUPPORTED_HOOKS@.len() - i,
    {
        let ghost before = list@;
        list.push(String::from_str(SUPPORTED_HOOKS[i]));
        proof {
            assert(views(list@) =~= views(before).push(list@.last()@));
            assert(supported_hooks().take(i as int + 1) =~= supported_hooks().take(i as int).push(
                supported_hooks()[i as int],
            ));
        }
        i += 1;
    }
    proof {
        assert(supported_hooks().take(i as int) =~= supported_hooks());
    }
    list
}

/// The set of supported hook names.
pub fn all_supported_hooks() -> (hooks: NameSet)
    ensures
        ascending(hooks@),
        forall|name: Seq<char>| #[trigger] hooks@.contains(name) <==> supported(name),
{
    let hooks = NameSet::from_names(&supported_hook_list());
    proof {
        assert forall|name: Seq<char>| #[trigger] hooks@.contains(name) <==> supported(name) by {}
    }
    hooks
}

/// Every name of the list is a supported hook.
pub open spec fn all_supported(names: Seq<Seq<char>>) -> bool {
    forall|i: int| 0 <= i < names.len() ==> supported(#[trigger] names[i])
}

/// The verdict on a list of hook names: the first one that is unsupported is
/// reported.
pub open spec fn checks_hooks(names: Seq<Seq<char>>, result: Result<(), HookError>) -> bool {
    if all_supported(names) {
        result is Ok
    } else {
        &&& result matches Err(HookError::UnsupportedHook(hook))
        &&& exists|i: int|
            0 <= i < names.len() && !supported(#[trigger] names[i]) && all_supported(names.take(i))
                && hook@ == names[i]
    }
}

/// Checks that every name is a supported hook.
pub fn validate_hooks(hooks: &Vec<String>) -> (result: Result<(), HookError>)
    ensures
        checks_hooks(views(hooks@), result),
{
    let ghost names = views(hooks@);
    let mut i: usize = 0;
    while i < hooks.len()
        invariant
            i <= hooks.len(),
            names == views(hooks@),
            forall|k: int| 0 <= k < i ==> supported(#[trigger] names[k]),
        decreases hooks.len() - i,
    {
        proof {
            assert(names[i as int] == hooks@[i as int]@);
        }
        if !is_supported_hook(hooks[i].as_str()) {
            proof {
                assert forall|k: int| 0 <= k < i implies supported(
                    #[trigger] names.take(i as int)[k],
                ) by {
                    assert(names.take(i as int)[k] == names[k]);
                }
            }
            return Err(HookError::UnsupportedHook(String::from_str(hooks[i].as_str())));
        }
        i += 1;
    }
    Ok(())
}

} // verus!
