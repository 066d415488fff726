//! What command lines ask for.

use crate::cli::{
    install_modes, job_limit, reserved, reserved_words, rewrite_argv, AddArgs, RESERVED_WORDS,
};
use crate::definition::limits::{JobCount, JobLimit};
use crate::hooks::error::HookError;
use crate::hooks::ownership::{managed, HookFile};
use crate::hooks::request::{HookSelection, InstallMode, InstallModes};
use crate::hooks::{all_supported, supported, supported_hooks};
use crate::names::NameSet;
use crate::native::{native_views, NativeText};
use crate::text::views;
use vstd::prelude::*;
use vstd::utf8::encode_utf8;

verus! {

/// A word that stands for a command of its own. All others are targets.
pub open spec fn command_word(argument: Seq<u8>) -> bool {
    ||| argument == encode_utf8("add"@)
    ||| argument == encode_utf8("install"@)
    ||| argument == encode_utf8("remove"@)
    ||| argument == encode_utf8("uninstall"@)
    ||| argument == encode_utf8("__hook"@)
    ||| argument == encode_utf8("help"@)
    ||| argument == encode_utf8("-h"@)
    ||| argument == encode_utf8("--help"@)
    ||| argument == encode_utf8("-V"@)
    ||| argument == encode_utf8("--version"@)
}

proof fn lemma_command_words(argument: Seq<u8>)
    ensures
        reserved(argument) <==> command_word(argument),
{
    let words = reserved_words();
    assert(words[0] == "add"@ && words[1] == "install"@ && words[2] == "remove"@ && words[3]
        == "uninstall"@ && words[4] == "__hook"@);
    assert(words[5] == "help"@ && words[6] == "-h"@ && words[7] == "--help"@ && words[8] == "-V"@
        && words[9] == "--version"@);
    assert(RESERVED_WORDS@.len() == 10);
    if reserved(argument) {
        let i = choose|i: int|
            0 <= i < RESERVED_WORDS@.len() && argument == encode_utf8(
                #[trigger] reserved_words()[i],
            );
        assert(i == 0 || i == 1 || i == 2 || i == 3 || i == 4 || i == 5 || i == 6 || i == 7 || i
            == 8 || i == 9);
    }
}

/// A command line is left alone exactly if it names a command; otherwise all of
/// it, in order, becomes the targets of a run.
pub proof fn everything_but_commands_is_run(argv: Vec<NativeText>, result: Vec<NativeText>)
    requires
        argv@.len() > 0,
        call_ensures(rewrite_argv, (argv,), result),
    ensures
        ({
            let given = native_views(argv@);
            let now = native_views(result@);
            if given.len() > 1 && command_word(given[1]) {
                now == given
            } else {
                now == seq![given[0], encode_utf8("run"@)] + given.skip(1)
            }
        }),
{
    let given = native_views(argv@);
    if given.len() > 1 {
        lemma_command_words(given[1]);
    }
    assert(given.insert(1, encode_utf8("run"@)) =~= seq![given[0], encode_utf8("run"@)]
        + given.skip(1));
}

/// A number of jobs counts for the scheduler and for every nested process; a cap
/// counts for the scheduler and leaves a nested process a single job; without
/// either Just decides.
pub proof fn job_limits_are_what_was_asked_for(
    jobs: Option<JobCount>,
    cap_jobs: Option<JobCount>,
    limit: JobLimit,
    outer: Option<JobCount>,
    nested: Option<JobCount>,
)
    requires
        jobs is None || cap_jobs is None,
        call_ensures(job_limit, (jobs, cap_jobs), limit),
        call_ensures(JobLimit::outer_jobs, (limit,), outer),
        call_ensures(JobLimit::nested_jobs, (limit,), nested),
    ensures
        jobs matches Some(n) ==> (outer matches Some(a) && a@ == n@) && (nested matches Some(b)
            && b@ == n@),
        cap_jobs matches Some(n) ==> (outer matches Some(a) && a@ == n@) && (nested matches Some(b)
            && b@ == 1),
        jobs is None && cap_jobs is None ==> outer is None && nested is None,
{
}

/// What is asked for one executable counts before what is asked for both.
pub open spec fn mode_asked_for(
    own_link: bool,
    own_copy: bool,
    link: bool,
    copy: bool,
    mode: InstallMode,
) -> bool {
    if own_link {
        mode is Link
    } else if own_copy {
        mode is Copy
    } else if link {
        mode is Link
    } else if copy {
        mode is Copy
    } else {
        mode is Auto
    }
}

/// Each executable is installed in the mode that was asked for.
pub proof fn install_modes_are_what_was_asked_for(arguments: &AddArgs, modes: InstallModes)
    requires
        !(arguments.link_pipeline && arguments.copy_pipeline),
        !(arguments.link_just && arguments.copy_just),
        call_ensures(install_modes, (arguments,), modes),
    ensures
        mode_asked_for(
            arguments.link_pipeline,
            arguments.copy_pipeline,
            arguments.link,
            arguments.copy,
            modes.pipeline,
        ),
        mode_asked_for(
            arguments.link_just,
            arguments.copy_just,
            arguments.link,
            arguments.copy,
            modes.just,
        ),
{
}

/// Hooks that are named are added, those and no others; `--managed` adds those
/// that the definition declares, and without either all that Git has are added.
/// What Git does not have is refused, and so are names beside `--managed`.
pub proof fn hooks_are_added_as_asked(
    names: &Vec<String>,
    managed: bool,
    declared: &NameSet,
    selection: HookSelection,
    hooks: NameSet,
    hook: Seq<char>,
)
    requires
        call_ensures(HookSelection::from_cli, (names, managed), Ok(selection)),
        call_ensures(HookSelection::for_add, (&selection, declared), Ok(hooks)),
    ensures
        managed ==> names@.len() == 0 && (hooks@.contains(hook) <==> declared@.contains(hook)),
        !managed && names@.len() > 0 ==> (hooks@.contains(hook) <==> exists|i: int|
            0 <= i < names@.len() && (#[trigger] names@[i])@ == hook),
        !managed && names@.len() == 0 ==> (hooks@.contains(hook) <==> supported(hook)),
        hooks@.contains(hook) ==> supported(hook),
{
    let all = views(names@);
    assert(all.len() == names@.len());
    if all.contains(hook) {
        let i = choose|i: int| 0 <= i < all.len() && all[i] == hook;
        assert(names@[i]@ == hook);
        if all_supported(all) {
            assert(supported(all[i]));
        }
    }
    if exists|i: int| 0 <= i < names@.len() && (#[trigger] names@[i])@ == hook {
        let i = choose|i: int| 0 <= i < names@.len() && (#[trigger] names@[i])@ == hook;
        assert(all[i] == hook);
    }
    if declared@.contains(hook) && all_supported(declared@) {
        let i = choose|i: int| 0 <= i < declared@.len() && declared@[i] == hook;
        assert(supported(declared@[i]));
    }
}

/// Pipeline owns what stands at the path of this hook.
pub open spec fn owns(files: Seq<HookFile>, hook: Seq<char>) -> bool {
    exists|i: int|
        0 <= i < files.len() && supported_hooks()[i] == hook && managed(#[trigger] files[i])
}

/// Hooks that are named are removed, those and no others; `--managed` removes
/// what is both declared and installed, and without either all that is
/// installed goes.
pub proof fn hooks_are_removed_as_asked(
    names: &Vec<String>,
    by_definition: bool,
    files: &Vec<HookFile>,
    declared: &NameSet,
    selection: HookSelection,
    hooks: NameSet,
    hook: Seq<char>,
)
    requires
        files@.len() == supported_hooks().len(),
        call_ensures(HookSelection::from_cli, (names, by_definition), Ok(selection)),
        call_ensures(HookSelection::for_remove, (&selection, files, declared), Ok(hooks)),
    ensures
        by_definition ==> (hooks@.contains(hook) <==> declared@.contains(hook) && owns(
            files@,
            hook,
        )),
        !by_definition && names@.len() > 0 ==> (hooks@.contains(hook) <==> exists|i: int|
            0 <= i < names@.len() && (#[trigger] names@[i])@ == hook),
        !by_definition && names@.len() == 0 ==> (hooks@.contains(hook) <==> owns(files@, hook)),
{
    let all = views(names@);
    assert(all.len() == names@.len());
    assert(crate::hooks::ownership::installed(files@, hook) <==> owns(files@, hook));
    if all.contains(hook) {
        let i = choose|i: int| 0 <= i < all.len() && all[i] == hook;
        assert(names@[i]@ == hook);
    }
    if exists|i: int| 0 <= i < names@.len() && (#[trigger] names@[i])@ == hook {
        let i = choose|i: int| 0 <= i < names@.len() && (#[trigger] names@[i])@ == hook;
        assert(all[i] == hook);
    }
}

/// A selection is refused exactly if names stand beside `--managed`, or if Git
/// has no hook of a name.
pub proof fn only_real_hooks_can_be_named(
    names: &Vec<String>,
    by_definition: bool,
    result: Result<HookSelection, HookError>,
)
    requires
        call_ensures(HookSelection::from_cli, (names, by_definition), result),
    ensures
        result is Ok <==> if by_definition {
            names@.len() == 0
        } else {
            forall|i: int| 0 <= i < names@.len() ==> supported((#[trigger] names@[i])@)
        },
{
    let all = views(names@);
    if all_supported(all) {
        assert forall|i: int| 0 <= i < names@.len() implies supported((#[trigger] names@[i])@) by {
            assert(supported(all[i]));
        }
    }
    if forall|i: int| 0 <= i < names@.len() ==> supported((#[trigger] names@[i])@) {
        assert forall|i: int| 0 <= i < all.len() implies supported(#[trigger] all[i]) by {
            assert(supported(names@[i]@));
        }
    }
}

/// A number of jobs is never zero.
pub proof fn job_counts_are_positive(
    count: usize,
    made: Option<JobCount>,
    one: JobCount,
    told: usize,
)
    requires
        call_ensures(JobCount::new, (count,), made),
        call_ensures(JobCount::one, (), one),
        made matches Some(jobs) ==> call_ensures(JobCount::get, (&jobs,), told),
    ensures
        made is None <==> count == 0,
        count > 0 ==> told == count,
        one@ == 1,
{
}

/// A mode for one executable counts before the mode for both.
pub proof fn single_modes_count_first(
    global: InstallMode,
    pipeline: Option<InstallMode>,
    just: Option<InstallMode>,
    modes: InstallModes,
)
    requires
        call_ensures(InstallModes::new, (global, pipeline, just), modes),
    ensures
        modes.pipeline == global || pipeline == Some(modes.pipeline),
        modes.just == global || just == Some(modes.just),
        pipeline matches Some(mode) ==> modes.pipeline == mode,
        just matches Some(mode) ==> modes.just == mode,
{
}

} // verus!
