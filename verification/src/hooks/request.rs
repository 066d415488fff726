//! Which hooks a command is about, and how executables are installed.

use crate::hooks::error::HookError;
use crate::hooks::ownership::{installed, installed_managed_hooks, lists_installed, HookFile};
use crate::hooks::{
    all_supported, all_supported_hooks, checks_hooks, supported, validate_hooks, SUPPORTED_HOOKS,
};
use crate::names::{ascending, NameSet};
use crate::text::views;
use vstd::prelude::*;

verus! {

/// How an executable is installed.
#[derive(Clone, Copy, Debug, PartialEq, Eq, Structural)]
pub enum InstallMode {
    Auto,
    Link,
    Copy,
}

impl Default for InstallMode {
    fn default() -> (mode: InstallMode)
        ensures
            mode is Auto,
    {
        InstallMode::Auto
    }
}

/// How the two executables are installed.
#[derive(Clone, Copy, Debug, PartialEq, Eq, Structural)]
pub struct InstallModes {
    pub pipeline: InstallMode,
    pub just: InstallMode,
}

impl Default for InstallModes {
    fn default() -> (modes: InstallModes)
        ensures
            modes.pipeline is Auto,
            modes.just is Auto,
    {
        InstallModes { pipeline: InstallMode::Auto, just: InstallMode::Auto }
    }
}

impl InstallModes {
    /// A mode for both, unless one is given for either.
    pub fn new(
        global: InstallMode,
        pipeline: Option<InstallMode>,
        just: Option<InstallMode>,
    ) -> (modes: InstallModes)
        ensures
            modes.pipeline == (match pipeline {
                Some(mode) => mode,
                None => global,
            }),
            modes.just == (match just {
                Some(mode) => mode,
                None => global,
            }),
    {
        InstallModes {
            pipeline: match pipeline {
                Some(mode) => mode,
                None => global,
            },
            just: match just {
                Some(mode) => mode,
                None => global,
            },
        }
    }
}

/// Which hooks a command is about.
#[derive(Clone, Debug, PartialEq, Eq)]
pub enum HookSelection {
    All,
    Managed,
    Explicit(NameSet),
}

/// The set has exactly the names of the list.
pub open spec fn set_of(set: Seq<Seq<char>>, names: Seq<Seq<char>>) -> bool {
    &&& ascending(set)
    &&& forall|name: Seq<char>| #[trigger] set.contains(name) <==> names.contains(name)
}

/// The selection that command-line arguments make.
pub open spec fn chooses(
    names: Seq<Seq<char>>,
    managed: bool,
    result: Result<HookSelection, HookError>,
) -> bool {
    if managed && names.len() > 0 {
        result matches Err(HookError::ManagedWithExplicitHooks)
    } else if managed {
        result matches Ok(HookSelection::Managed)
    } else if names.len() == 0 {
        result matches Ok(HookSelection::All)
    } else if all_supported(names) {
        result matches Ok(HookSelection::Explicit(hooks)) && set_of(hooks@, names)
    } else {
        &&& result matches Err(HookError::UnsupportedHook(hook))
        &&& names.contains(hook@)
        &&& !supported(hook@)
        &&& forall|other: Seq<char>| #[trigger]
            names.contains(other) && !supported(other) ==> other == hook@
                || crate::names::text_less(hook@, other)
    }
}

proof fn lemma_first_in_set(set: Seq<Seq<char>>, names: Seq<Seq<char>>, i: int)
    requires
        set_of(set, names),
        0 <= i < set.len(),
        !supported(set[i]),
        all_supported(set.take(i)),
    ensures
        !all_supported(names),
        names.contains(set[i]),
        forall|other: Seq<char>| #[trigger]
            names.contains(other) && !supported(other) ==> other == set[i]
                || crate::names::text_less(set[i], other),
{
    assert(set.contains(set[i]));
    let k = choose|k: int| 0 <= k < names.len() && names[k] == set[i];
    assert(!supported(names[k]));
    assert forall|other: Seq<char>| #[trigger]
        names.contains(other) && !supported(other) implies other == set[i]
        || crate::names::text_less(set[i], other) by {
        assert(set.contains(other));
        let m = choose|m: int| 0 <= m < set.len() && set[m] == other;
        assert(set[m] == other);
        if m < i {
            assert(set.take(i)[m] == other);
            assert(supported(set.take(i)[m]));
        }
    }
}

proof fn lemma_all_in_set(set: Seq<Seq<char>>, names: Seq<Seq<char>>)
    requires
        set_of(set, names),
    ensures
        all_supported(set) <==> all_supported(names),
{
    if all_supported(set) {
        assert forall|k: int| 0 <= k < names.len() implies supported(#[trigger] names[k]) by {
            assert(names.contains(names[k]));
            assert(set.contains(names[k]));
            let m = choose|m: int| 0 <= m < set.len() && set[m] == names[k];
            assert(supported(set[m]));
        }
    }
    if all_supported(names) {
        assert forall|k: int| 0 <= k < set.len() implies supported(#[trigger] set[k]) by {
            assert(set.contains(set[k]));
            let m = choose|m: int| 0 <= m < names.len() && names[m] == set[k];
            assert(supported(names[m]));
        }
    }
}

impl HookSelection {
    /// The selection that command-line arguments make.
    pub fn from_cli(names: &Vec<String>, managed: bool) -> (result: Result<
        HookSelection,
        HookError,
    >)
        ensures
            chooses(views(names@), managed, result),
    {
        if managed && names.len() > 0 {
            return Err(HookError::ManagedWithExplicitHooks);
        }
        if managed {
            return Ok(HookSelection::Managed);
        }
        if names.len() == 0 {
            return Ok(HookSelection::All);
        }
        let hooks = NameSet::from_names(names);
        let checked = validate_hooks(hooks.as_list());
        proof {
            lemma_all_in_set(hooks@, views(names@));
            if !all_supported(hooks@) {
                let i = choose|i: int|
                    0 <= i < hooks@.len() && !supported(#[trigger] hooks@[i]) && all_supported(
                        hooks@.take(i),
                    ) && checked->Err_0->UnsupportedHook_0@ == hooks@[i];
                lemma_first_in_set(hooks@, views(names@), i);
            }
        }
        match checked {
            Ok(()) => Ok(HookSelection::Explicit(hooks)),
            Err(error) => Err(error),
        }
    }

    /// The hooks to install.
    pub fn for_add(&self, declared: &NameSet) -> (result: Result<NameSet, HookError>)
        ensures
            match self {
                HookSelection::All => {
                    &&& result matches Ok(hooks)
                    &&& ascending(hooks@)
                    &&& forall|name: Seq<char>| #[trigger]
                        hooks@.contains(name) <==> supported(name)
                },
                HookSelection::Managed => if all_supported(declared@) {
                    result matches Ok(hooks) && hooks@ == declared@
                } else {
                    result matches Err(error) && checks_hooks(declared@, Err(error))
                },
                HookSelection::Explicit(names) => result matches Ok(hooks) && hooks@ == names@,
            },
    {
        match self {
            HookSelection::All => Ok(all_supported_hooks()),
            HookSelection::Managed => match validate_hooks(declared.as_list()) {
                Ok(()) => Ok(declared.clone()),
                Err(error) => Err(error),
            },
            HookSelection::Explicit(names) => Ok(names.clone()),
        }
    }

    /// The hooks to remove. `files` describes the supported hooks in their
    /// documented order.
    pub fn for_remove(&self, files: &Vec<HookFile>, declared: &NameSet) -> (result: Result<
        NameSet,
        HookError,
    >)
        requires
            files@.len() == SUPPORTED_HOOKS@.len(),
        ensures
            removes(*self, files@, declared@, result),
    {
        let found = match installed_managed_hooks(files) {
            Ok(found) => found,
            Err(error) => {
                return Err(error);
            },
        };
        match self {
            HookSelection::All => Ok(found),
            HookSelection::Managed => match validate_hooks(declared.as_list()) {
                Ok(()) => {
                    let both = found.intersection(declared);
                    proof {
                        assert forall|name: Seq<char>| #[trigger]
                            both@.contains(name) <==> installed(files@, name)
                                && declared@.contains(name) by {
                            assert(found@.contains(name) <==> installed(files@, name));
                        }
                    }
                    Ok(both)
                },
                Err(error) => Err(error),
            },
            HookSelection::Explicit(names) => Ok(names.clone()),
        }
    }
}

/// What a selection removes: everything installed, what is both installed and
/// declared, or what was named.
pub open spec fn removes(
    selection: HookSelection,
    files: Seq<HookFile>,
    declared: Seq<Seq<char>>,
    result: Result<NameSet, HookError>,
) -> bool {
    if !crate::hooks::ownership::all_readable(files, files.len() as int) {
        result is Err && lists_installed(files, result)
    } else {
        match selection {
            HookSelection::All => lists_installed(files, result),
            HookSelection::Managed => if all_supported(declared) {
                &&& result matches Ok(hooks)
                &&& ascending(hooks@)
                &&& forall|name: Seq<char>| #[trigger]
                    hooks@.contains(name) <==> installed(files, name) && declared.contains(name)
            } else {
                result matches Err(error) && checks_hooks(declared, Err(error))
            },
            HookSelection::Explicit(names) => result matches Ok(hooks) && hooks@ == names@,
        }
    }
}

/// Removing managed hooks never touches a hook that is not installed, nor one
/// that is not declared.
pub proof fn managed_removal_is_an_intersection(
    files: Seq<HookFile>,
    declared: Seq<Seq<char>>,
    removed: NameSet,
    hook: Seq<char>,
)
    requires
        removes(HookSelection::Managed, files, declared, Ok(removed)),
    ensures
        removed@.contains(hook) <==> installed(files, hook) && declared.contains(hook),
{
}

} // verus!
