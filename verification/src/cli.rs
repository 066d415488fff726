//! The command line.

use crate::definition::limits::{JobCount, JobLimit};
use crate::hooks::request::{InstallMode, InstallModes};
use crate::native::{native_text_round_trip, native_views, NativeText};
use vstd::prelude::*;
use vstd::utf8::encode_utf8;

verus! {

/// A run of targets.
#[derive(Clone, Debug)]
pub struct RunArgs {
    pub jobs: Option<JobCount>,
    pub cap_jobs: Option<JobCount>,
    pub no_deps: bool,
    pub arguments: Vec<NativeText>,
}

impl Default for RunArgs {
    fn default() -> (arguments: RunArgs)
        ensures
            arguments.jobs is None,
            arguments.cap_jobs is None,
            !arguments.no_deps,
            arguments.arguments@.len() == 0,
    {
        RunArgs { jobs: None, cap_jobs: None, no_deps: false, arguments: Vec::new() }
    }
}

/// An installation of hooks.
#[derive(Clone, Debug)]
pub struct AddArgs {
    /// Link both Pipeline and Just from PATH.
    pub link: bool,
    /// Copy both Pipeline and Just into the Git common directory.
    pub copy: bool,
    /// Link Pipeline from PATH, overriding the global mode.
    pub link_pipeline: bool,
    /// Copy Pipeline, overriding the global mode.
    pub copy_pipeline: bool,
    /// Link Just from PATH, overriding the global mode.
    pub link_just: bool,
    /// Copy Just, overriding the global mode.
    pub copy_just: bool,
    /// Add only hooks declared by the current Pipeline definition.
    pub managed: bool,
    /// Supported hooks to add; none stands for all of them.
    pub hooks: Vec<String>,
}

impl Default for AddArgs {
    fn default() -> (arguments: AddArgs)
        ensures
            !arguments.link,
            !arguments.copy,
            !arguments.link_pipeline,
            !arguments.copy_pipeline,
            !arguments.link_just,
            !arguments.copy_just,
            !arguments.managed,
            arguments.hooks@.len() == 0,
    {
        AddArgs {
            link: false,
            copy: false,
            link_pipeline: false,
            copy_pipeline: false,
            link_just: false,
            copy_just: false,
            managed: false,
            hooks: Vec::new(),
        }
    }
}

/// A removal of hooks.
#[derive(Clone, Debug)]
pub struct RemoveArgs {
    /// Remove only installed hooks declared by the current definition.
    pub managed: bool,
    /// Supported hooks to remove; none stands for all Pipeline-owned hooks.
    pub hooks: Vec<String>,
}

impl Default for RemoveArgs {
    fn default() -> (arguments: RemoveArgs)
        ensures
            !arguments.managed,
            arguments.hooks@.len() == 0,
    {
        RemoveArgs { managed: false, hooks: Vec::new() }
    }
}

/// A call by Git.
#[derive(Clone, Debug)]
pub struct HookArgs {
    pub hook: String,
    pub arguments: Vec<NativeText>,
}

/// The words that name a command of their own. All others are targets.
pub const RESERVED_WORDS: [&'static str; 10] = [
    "add",
    "install",
    "remove",
    "uninstall",
    "__hook",
    "help",
    "-h",
    "--help",
    "-V",
    "--version",
];

pub open spec fn reserved_words() -> Seq<Seq<char>> {
    Seq::new(RESERVED_WORDS@.len(), |i: int| RESERVED_WORDS@[i]@)
}

/// The argument names a command of its own.
pub open spec fn reserved(argument: Seq<u8>) -> bool {
    exists|i: int|
        0 <= i < RESERVED_WORDS@.len() && argument == encode_utf8(#[trigger] reserved_words()[i])
}

/// The arguments with the hidden `run` command where no other is named.
pub open spec fn rewritten(argv: Seq<Seq<u8>>) -> Seq<Seq<u8>> {
    if argv.len() > 1 && reserved(argv[1]) {
        argv
    } else {
        argv.insert(1, encode_utf8("run"@))
    }
}

fn is_reserved(argument: &NativeText) -> (yes: bool)
    ensures
        yes == reserved(argument@),
{
    let mut i: usize = 0;
    while i < RESERVED_WORDS.len()
        invariant
            i <= RESERVED_WORDS@.len(),
            forall|k: int|
                0 <= k < i ==> argument@ != encode_utf8(#[trigger] reserved_words()[k]),
        decreases RESERVED_WORDS@.len() - i,
    {
        if argument.is_text(RESERVED_WORDS[i]) {
            proof {
                assert(argument@ == encode_utf8(reserved_words()[i as int]));
            }
            return true;
        }
        i += 1;
    }
    false
}

/// Rewrites Just-like invocations into the hidden `run` command while keeping a
/// small set of management commands.
pub fn rewrite_argv(argv: Vec<NativeText>) -> (result: Vec<NativeText>)
    requires
        argv@.len() > 0,
    ensures
        native_views(result@) == rewritten(native_views(argv@)),
{
    let ghost before = native_views(argv@);
    if argv.len() > 1 {
        proof {
            assert(before[1] == argv@[1]@);
        }
        if is_reserved(&argv[1]) {
            return argv;
        }
    }
    let mut result = argv;
    let word = NativeText::from_text("run");
    proof {
        assert(native_views(result@.insert(1, word)) =~= before.insert(1, word@));
    }
    result.insert(1, word);
    result
}

/// The targets of a run are exactly the arguments that were given, whatever
/// they are called.
pub proof fn targets_are_kept(argv: Seq<Seq<u8>>)
    requires
        argv.len() > 0,
        !(argv.len() > 1 && reserved(argv[1])),
    ensures
        rewritten(argv).len() == argv.len() + 1,
        rewritten(argv)[0] == argv[0],
        rewritten(argv)[1] == encode_utf8("run"@),
        rewritten(argv).skip(2) == argv.skip(1),
{
    assert(rewritten(argv).skip(2) =~= argv.skip(1));
}

/// Behind `--` every word is a target, even one that names a command.
pub proof fn separators_force_targets(argv: Seq<Seq<u8>>)
    requires
        argv.len() > 1,
        argv[1] == encode_utf8("--"@),
    ensures
        rewritten(argv)[1] == encode_utf8("run"@),
        rewritten(argv).skip(2) == argv.skip(1),
{
    if reserved(argv[1]) {
        let i = choose|i: int|
            0 <= i < RESERVED_WORDS@.len() && argv[1] == encode_utf8(#[trigger] reserved_words()[i]);
        let word = reserved_words()[i];
        native_text_round_trip("--"@);
        native_text_round_trip(word);
        assert(word == "--"@);
        reveal_strlit("--");
        reveal_strlit("add");
        reveal_strlit("install");
        reveal_strlit("remove");
        reveal_strlit("uninstall");
        reveal_strlit("__hook");
        reveal_strlit("help");
        reveal_strlit("-h");
        reveal_strlit("--help");
        reveal_strlit("-V");
        reveal_strlit("--version");
        assert("--"@.len() == 2 && "--"@[1] == '-');
        assert("-h"@[1] == 'h' && "-V"@[1] == 'V');
        assert(false);
    }
    targets_are_kept(argv);
}

/// The job limit that the options of a run ask for. Both at once are refused
/// before.
pub fn job_limit(jobs: Option<JobCount>, cap_jobs: Option<JobCount>) -> (limit: JobLimit)
    requires
        jobs is None || cap_jobs is None,
    ensures
        limit == (match (jobs, cap_jobs) {
            (Some(count), _) => JobLimit::PerProcess(count),
            (None, Some(count)) => JobLimit::Capped(count),
            (None, None) => JobLimit::Default,
        }),
{
    match (jobs, cap_jobs) {
        (Some(count), _) => JobLimit::PerProcess(count),
        (None, Some(count)) => JobLimit::Capped(count),
        (None, None) => JobLimit::Default,
    }
}

/// The mode that a pair of options asks for.
pub open spec fn asked_mode(link: bool, copy: bool) -> Option<InstallMode> {
    if link {
        Some(InstallMode::Link)
    } else if copy {
        Some(InstallMode::Copy)
    } else {
        None
    }
}

fn mode_of(link: bool, copy: bool) -> (mode: Option<InstallMode>)
    ensures
        mode == asked_mode(link, copy),
{
    if link {
        Some(InstallMode::Link)
    } else if copy {
        Some(InstallMode::Copy)
    } else {
        None
    }
}

/// The modes that the options of an installation ask for. Contradictory options
/// are refused before.
pub fn install_modes(arguments: &AddArgs) -> (modes: InstallModes)
    requires
        !(arguments.link_pipeline && arguments.copy_pipeline),
        !(arguments.link_just && arguments.copy_just),
    ensures
        ({
            let global = match asked_mode(arguments.link, arguments.copy) {
                Some(mode) => mode,
                None => InstallMode::Auto,
            };
            &&& modes.pipeline == (match asked_mode(
                arguments.link_pipeline,
                arguments.copy_pipeline,
            ) {
                Some(mode) => mode,
                None => global,
            })
            &&& modes.just == (match asked_mode(arguments.link_just, arguments.copy_just) {
                Some(mode) => mode,
                None => global,
            })
        }),
{
    let global = match mode_of(arguments.link, arguments.copy) {
        Some(mode) => mode,
        None => InstallMode::Auto,
    };
    InstallModes::new(
        global,
        mode_of(arguments.link_pipeline, arguments.copy_pipeline),
        mode_of(arguments.link_just, arguments.copy_just),
    )
}

} // verus!
