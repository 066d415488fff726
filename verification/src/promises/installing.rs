//! What is installed, and where.

use crate::hooks::error::HookError;
use crate::hooks::install::{
    executable_source, first_executable, is_executable, plan_install, preflight_install,
    resolve_in_path, resolve_target_install_mode, same_file_or_path, staging_of,
    validate_hook_destinations, ExecutableFacts, FileId, FileMode, InstallPlan, InstallSources,
    LayoutProbes, PathLookup, SourceFacts, Staging, TargetLink,
};
use crate::hooks::ownership::{hook_path, installed_managed_hooks, is_managed_hook, HookFile};
use crate::hooks::repository::{pipeline_home, Repository};
use crate::hooks::request::{InstallMode, InstallModes};
use crate::hooks::{supported, supported_hooks};
use crate::names::NameSet;
use crate::native::{
    join_adds_one_component, path_join, path_names, plain_name, rooted, same_path, HostPath,
};
use crate::text::pieces;
use vstd::prelude::*;
use vstd::utf8::encode_utf8;

verus! {

/// A regular file that its owner, its group or others may execute.
pub open spec fn can_be_run(mode: FileMode) -> bool {
    mode.is_file && (mode.mode & 0o100 != 0 || mode.mode & 0o010 != 0 || mode.mode & 0o001 != 0)
}

proof fn lemma_bits(mode: u32)
    ensures
        mode & 0o111 != 0 <==> (mode & 0o100 != 0 || mode & 0o010 != 0 || mode & 0o001 != 0),
{
    assert(mode & 0o111 != 0 <==> (mode & 0o100 != 0 || mode & 0o010 != 0 || mode & 0o001 != 0))
        by (bit_vector);
}

/// Whether a file counts as executable.
pub proof fn executables_can_be_run(mode: FileMode, yes: bool)
    requires
        call_ensures(is_executable, (mode,), yes),
    ensures
        yes <==> can_be_run(mode),
{
    lemma_bits(mode.mode);
}

/// A source that can be installed: it resolves, and can be run.
pub open spec fn can_be_installed(facts: SourceFacts) -> bool {
    facts.canonical is Ok && (facts.mode matches Ok(mode) && can_be_run(mode))
}

pub proof fn lemma_installable(facts: SourceFacts)
    ensures
        crate::hooks::install::usable(facts) <==> can_be_installed(facts),
{
    if let Ok(mode) = facts.mode {
        lemma_bits(mode.mode);
    }
}

/// A source is used by the path that it resolves to.
pub proof fn sources_are_resolved(
    path: &HostPath,
    facts: &SourceFacts,
    result: Result<HostPath, HookError>,
)
    requires
        call_ensures(executable_source, (path, facts), result),
    ensures
        result is Ok <==> can_be_installed(*facts),
        result matches Ok(source) ==> source@ == facts.canonical->Ok_0@,
{
    lemma_installable(*facts);
}

/// Two paths lead to one file: they are the same, or the system says so.
pub open spec fn one_file(
    left: Seq<u8>,
    left_id: Option<FileId>,
    right: Seq<u8>,
    right_id: Option<FileId>,
) -> bool {
    same_path(left, right) || (left_id is Some && right_id is Some && left_id->Some_0.device
        == right_id->Some_0.device && left_id->Some_0.inode == right_id->Some_0.inode)
}

/// Files are told apart by their paths, and by what the system says of them.
pub proof fn files_are_the_same_by_path_or_number(
    left: &HostPath,
    left_id: Option<FileId>,
    right: &HostPath,
    right_id: Option<FileId>,
    same: bool,
)
    requires
        call_ensures(same_file_or_path, (left, left_id, right, right_id), same),
    ensures
        same <==> one_file(left@, left_id, right@, right_id),
{
}

/// `PATH` leads to the source.
pub open spec fn in_search_path(source: Seq<u8>, lookup: PathLookup) -> bool {
    lookup.found is Some && one_file(
        source,
        lookup.source_id,
        lookup.found->Some_0@,
        lookup.found_id,
    )
}

/// The target is the source itself, as a file and not by a link.
pub open spec fn is_in_place(
    source: Seq<u8>,
    target: Seq<u8>,
    target_is_link: Result<bool, String>,
) -> bool {
    same_path(source, target) && target_is_link == Ok::<bool, String>(false)
}

/// A copy is made where a copy is asked for. A link is made only to what `PATH`
/// leads to, and never from a file to itself; where the choice is left open, a
/// link is made exactly where it can be.
pub proof fn modes_are_settled_by_the_search_path(
    command: &str,
    source: &HostPath,
    facts: &SourceFacts,
    target: &HostPath,
    target_is_link: &Result<bool, String>,
    lookup: &PathLookup,
    requested: InstallMode,
    result: Result<InstallMode, HookError>,
)
    requires
        call_ensures(
            resolve_target_install_mode,
            (command, source, facts, target, target_is_link, lookup, requested),
            result,
        ),
    ensures
        !can_be_installed(*facts) ==> result is Err,
        can_be_installed(*facts) && (same_path(facts.canonical->Ok_0@, target@) ==> *target_is_link
            is Ok) ==> {
            let resolved = facts.canonical->Ok_0@;
            let linkable = in_search_path(resolved, *lookup) && !is_in_place(
                resolved,
                target@,
                *target_is_link,
            );
            match requested {
                InstallMode::Copy => result == Ok::<InstallMode, HookError>(InstallMode::Copy),
                InstallMode::Link => if linkable {
                    result == Ok::<InstallMode, HookError>(InstallMode::Link)
                } else {
                    result is Err
                },
                InstallMode::Auto => result == Ok::<InstallMode, HookError>(
                    if linkable {
                        InstallMode::Link
                    } else {
                        InstallMode::Copy
                    },
                ),
            }
        },
{
    lemma_installable(*facts);
}

proof fn lemma_first_executable(modes: Seq<Option<FileMode>>)
    ensures
        0 <= first_executable(modes) <= modes.len(),
        forall|i: int|
            0 <= i < first_executable(modes) ==> !(#[trigger] modes[i] is Some && can_be_run(
                modes[i]->Some_0,
            )),
        first_executable(modes) < modes.len() ==> modes[first_executable(modes)] is Some
            && can_be_run(modes[first_executable(modes)]->Some_0),
    decreases modes.len(),
{
    if modes.len() > 0 {
        if let Some(mode) = modes[0] {
            lemma_bits(mode.mode);
        }
        let rest = modes.drop_first();
        lemma_first_executable(rest);
        assert forall|i: int| 0 <= i < first_executable(modes) implies !(#[trigger] modes[i] is Some
            && can_be_run(modes[i]->Some_0)) by {
            if i > 0 {
                assert(rest[i - 1] == modes[i]);
            }
        }
    }
}

/// A command is the first file of its name in `PATH` that can be run.
pub proof fn commands_are_the_first_in_the_search_path(
    command: &str,
    directories: &Vec<HostPath>,
    modes: &Vec<Option<FileMode>>,
    found: Option<HostPath>,
    k: int,
)
    requires
        modes@.len() == directories@.len(),
        call_ensures(resolve_in_path, (command, directories, modes), found),
    ensures
        0 <= k < modes@.len() && (modes@[k] matches Some(mode) && can_be_run(mode)) && (forall|
            i: int,
        |
            0 <= i < k ==> !(#[trigger] modes@[i] is Some && can_be_run(modes@[i]->Some_0))) ==> (
        found matches Some(path) && path@ == path_join(
            directories@[k]@,
            encode_utf8(command@),
        )),
        (forall|i: int|
            0 <= i < modes@.len() ==> !(#[trigger] modes@[i] is Some && can_be_run(
                modes@[i]->Some_0,
            ))) ==> found is None,
{
    lemma_first_executable(modes@);
    let n = first_executable(modes@);
    if 0 <= k < modes@.len() && (modes@[k] matches Some(mode) && can_be_run(mode)) && (forall|
        i: int,
    |
        0 <= i < k ==> !(#[trigger] modes@[i] is Some && can_be_run(modes@[i]->Some_0))) {
        if n < k {
            assert(modes@[n] is Some && can_be_run(modes@[n]->Some_0));
        }
        assert(n == k) by {
            if k < n {
                assert(!(modes@[k] is Some && can_be_run(modes@[k]->Some_0)));
            }
        }
    }
    if forall|i: int|
        0 <= i < modes@.len() ==> !(#[trigger] modes@[i] is Some && can_be_run(modes@[i]->Some_0)) {
        if n < modes@.len() {
            assert(modes@[n] is Some && can_be_run(modes@[n]->Some_0));
        }
    }
}

/// Nothing is staged exactly where the target is the wanted copy, or a link that
/// leads to the source already.
pub proof fn only_what_is_missing_is_staged(
    source: &HostPath,
    target: &HostPath,
    mode: InstallMode,
    link: &TargetLink,
    staging: Staging,
)
    requires
        !(mode is Auto),
        call_ensures(staging_of, (source, target, mode, link), Ok(staging)),
    ensures
        mode is Copy ==> staging == (if same_path(source@, target@) {
            Staging::Nothing
        } else {
            Staging::Copy
        }),
        mode is Link ==> staging == (if link.exists && link.is_link == Ok::<bool, String>(true) && (
        link.leads_to matches Ok(path) && same_path(path@, source@)) {
            Staging::Nothing
        } else {
            Staging::Link
        }),
{
}

/// One of the first four lines of a file is the mark of Pipeline.
pub open spec fn carries_the_mark(contents: Seq<u8>) -> bool {
    exists|i: int|
        0 <= i < 4 && i < pieces(contents, 10u8).len() && #[trigger] pieces(contents, 10u8)[i]
            == encode_utf8("# managed-by: pipeline"@)
}

/// Pipeline owns a hook: a regular file that carries its mark.
pub open spec fn pipeline_owns(file: HookFile) -> bool {
    file.probe is File && (file.contents matches Ok(bytes) && carries_the_mark(bytes@))
}

pub proof fn lemma_owns(file: HookFile)
    ensures
        crate::hooks::ownership::managed(file) <==> pipeline_owns(file),
{
    if let Ok(bytes) = file.contents {
        assert(crate::hooks::ownership::marked(bytes@) <==> carries_the_mark(bytes@));
    }
}

/// Whether a hook is Pipeline's own is told by its mark.
pub proof fn hooks_are_owned_by_their_mark(file: &HookFile, result: Result<bool, HookError>)
    requires
        call_ensures(is_managed_hook, (file,), result),
    ensures
        result matches Ok(owned) ==> owned == pipeline_owns(*file),
        file.probe is Missing || file.probe is Directory || file.probe is Symlink || file.probe
            is Other ==> result == Ok::<bool, HookError>(false),
        file.probe is File && file.contents is Ok ==> result is Ok,
        file.probe is File && file.contents is Err ==> result is Err,
        file.probe is Unknown ==> result is Err,
{
    lemma_owns(*file);
}

/// The installed hooks are those that Pipeline owns, by the files at the paths of
/// all hooks that Git has.
pub proof fn installed_hooks_are_the_owned_ones(
    files: &Vec<HookFile>,
    set: NameSet,
    i: int,
    hook: Seq<char>,
)
    requires
        files@.len() == supported_hooks().len(),
        call_ensures(installed_managed_hooks, (files,), Ok(set)),
        0 <= i < files@.len(),
    ensures
        pipeline_owns(files@[i]) ==> set@.contains(supported_hooks()[i]),
        set@.contains(hook) ==> exists|k: int|
            0 <= k < files@.len() && supported_hooks()[k] == hook && pipeline_owns(
                #[trigger] files@[k],
            ),
{
    lemma_owns(files@[i]);
    if pipeline_owns(files@[i]) {
        assert(crate::hooks::ownership::installed(files@, supported_hooks()[i]));
    }
    if set@.contains(hook) {
        let k = choose|k: int|
            0 <= k < files@.len() && supported_hooks()[k] == hook
                && crate::hooks::ownership::managed(#[trigger] files@[k]);
        lemma_owns(files@[k]);
    }
}

/// Something that is not Pipeline's stands in the way.
pub open spec fn in_the_way(file: HookFile) -> bool {
    !(file.probe is Missing || file.probe is Unknown) && !pipeline_owns(file)
}

/// The places of an installation are free, or hold what can be there.
pub open spec fn has_room(layout: LayoutProbes) -> bool {
    &&& layout.pipeline_dir is Missing || layout.pipeline_dir is Directory
    &&& layout.hooks_dir is Missing || layout.hooks_dir is Directory
    &&& layout.pipeline is Missing || layout.pipeline is File || layout.pipeline is Symlink
    &&& layout.just is Missing || layout.just is File || layout.just is Symlink
}

proof fn lemma_no_way(files: Seq<HookFile>)
    ensures
        crate::hooks::install::all_replaceable(files, files.len() as int) <==> forall|i: int|
            0 <= i < files.len() ==> !in_the_way(#[trigger] files[i]),
{
    assert forall|i: int| 0 <= i < files.len() implies (crate::hooks::install::replaceable(
        #[trigger] files[i],
    ) <==> !in_the_way(files[i])) by {
        lemma_owns(files[i]);
    }
    if forall|i: int| 0 <= i < files.len() ==> !in_the_way(#[trigger] files[i]) {
        assert forall|i: int| 0 <= i < files.len() implies crate::hooks::install::replaceable(
            #[trigger] files[i],
        ) by {
            assert(!in_the_way(files[i]));
        }
    }
}

/// An installation is planned only if every hook is one that Git has, nothing of
/// others stands in the way, and there is room. The plan has what was asked for.
pub proof fn plans_replace_nothing_of_others(
    repository: &Repository,
    hooks: &NameSet,
    files: &Vec<HookFile>,
    layout: &LayoutProbes,
    sources: &InstallSources,
    pipeline: &ExecutableFacts,
    just: &ExecutableFacts,
    modes: InstallModes,
    plan: InstallPlan,
    i: int,
)
    requires
        files@.len() == hooks@.len(),
        call_ensures(
            plan_install,
            (repository, hooks, files, layout, sources, pipeline, just, modes),
            Ok(plan),
        ),
    ensures
        0 <= i < hooks@.len() ==> supported(hooks@[i]) && !in_the_way(files@[i]),
        has_room(*layout),
        hooks@.len() == 0 <==> plan is Nothing,
        plan matches InstallPlan::Install(job) ==> {
            &&& job.hooks@ == hooks@
            &&& job.repository.common_dir@ == repository.common_dir@
            &&& job.pipeline_source@ == sources.pipeline@
            &&& job.just_source@ == sources.just@
            &&& job.pipeline_dir_existed <==> layout.pipeline_dir is Directory
            &&& job.hooks_dir_existed <==> layout.hooks_dir is Directory
            &&& modes.pipeline is Auto || job.pipeline_mode == modes.pipeline
            &&& modes.just is Auto || job.just_mode == modes.just
            &&& !(job.pipeline_mode is Auto) && !(job.just_mode is Auto)
            &&& can_be_installed(pipeline.source) && can_be_installed(just.source)
        },
{
    lemma_no_way(files@);
    lemma_installable(pipeline.source);
    lemma_installable(just.source);
    if 0 <= i < hooks@.len() {
        assert(supported(hooks@[i]));
        assert(!in_the_way(files@[i]));
    }
}

/// What stands in the way is found before anything else is looked for.
pub proof fn what_is_in_the_way_is_found_first(
    repository: &Repository,
    hooks: &NameSet,
    files: &Vec<HookFile>,
    layout: &LayoutProbes,
    source: &HostPath,
    pipeline: &ExecutableFacts,
    mode: InstallMode,
    result: Result<(), HookError>,
    i: int,
)
    requires
        files@.len() == hooks@.len(),
        call_ensures(
            preflight_install,
            (repository, hooks, files, layout, source, pipeline, mode),
            result,
        ),
        0 <= i < files@.len(),
        in_the_way(files@[i]),
    ensures
        result is Err,
{
    lemma_no_way(files@);
}

/// A foreign hook is named by its path.
pub proof fn foreign_hooks_are_named(
    repository: &Repository,
    hooks: &Vec<String>,
    files: &Vec<HookFile>,
    result: Result<(), HookError>,
    hook: &str,
    path: HostPath,
    k: int,
)
    requires
        files@.len() == hooks@.len(),
        call_ensures(validate_hook_destinations, (repository, hooks, files), result),
        0 <= k < files@.len(),
        hook@ == hooks@[k]@,
        call_ensures(hook_path, (repository, hook), path),
        in_the_way(files@[k]),
        files@[k].probe is File ==> files@[k].contents is Ok,
        forall|i: int| 0 <= i < k ==> !in_the_way(#[trigger] files@[i]),
    ensures
        result matches Err(HookError::UnmanagedHook(at)) && at@ == path@,
{
    assert forall|i: int| 0 <= i < files@.len() implies (crate::hooks::install::replaceable(
        #[trigger] files@[i],
    ) <==> !in_the_way(files@[i])) by {
        lemma_owns(files@[i]);
    }
    assert(!crate::hooks::install::replaceable(files@[k]));
    assert forall|i: int| 0 <= i < k implies crate::hooks::install::replaceable(
        #[trigger] files@[i],
    ) by {
        assert(!in_the_way(files@[i]));
    }
    let n = choose|n: int|
        0 <= n < files@.len() && !crate::hooks::install::replaceable(#[trigger] files@[n])
            && crate::hooks::install::all_replaceable(files@, n)
            && crate::hooks::install::refuses_file(
            result->Err_0,
            files@[n],
            crate::hooks::ownership::hook_home(*repository, crate::text::views(hooks@)[n]),
        );
    if n < k {
        assert(crate::hooks::install::replaceable(files@[n]));
    }
    if k < n {
        assert(crate::hooks::install::replaceable(files@[k]));
    }
    assert(crate::text::views(hooks@)[k] == hooks@[k]@);
}

/// Hooks stand in `hooks` of the Git directory that all worktrees share, each
/// under its own name; the executables stand in `pipeline` beside it.
pub proof fn everything_has_its_place(
    repository: &Repository,
    hook: &str,
    path: HostPath,
    hooks: HostPath,
    pipeline: HostPath,
    just: HostPath,
)
    requires
        rooted(repository.common_dir@),
        plain_name(encode_utf8(hook@)),
        call_ensures(hook_path, (repository, hook), path),
        call_ensures(Repository::hooks_dir, (repository,), hooks),
        call_ensures(Repository::installed_pipeline, (repository,), pipeline),
        call_ensures(Repository::installed_just, (repository,), just),
    ensures
        ({
            let common = path_names(repository.common_dir@);
            &&& path_names(hooks@) == common.push(encode_utf8("hooks"@))
            &&& path_names(path@) == common.push(encode_utf8("hooks"@)).push(encode_utf8(hook@))
            &&& path_names(pipeline@) == common.push(encode_utf8("pipeline"@)).push(
                encode_utf8("pipeline"@),
            )
            &&& path_names(just@) == common.push(encode_utf8("pipeline"@)).push(
                encode_utf8("just"@),
            )
        }),
{
    let common = repository.common_dir@;
    reveal_strlit("hooks");
    reveal_strlit("pipeline");
    reveal_strlit("just");
    crate::promises::searching::lemma_plain("hooks"@);
    crate::promises::searching::lemma_plain("pipeline"@);
    crate::promises::searching::lemma_plain("just"@);
    join_adds_one_component(common, encode_utf8("hooks"@));
    join_adds_one_component(hooks@, encode_utf8(hook@));
    join_adds_one_component(common, encode_utf8("pipeline"@));
    join_adds_one_component(pipeline_home(*repository), encode_utf8("pipeline"@));
    join_adds_one_component(pipeline_home(*repository), encode_utf8("just"@));
}

} // verus!
