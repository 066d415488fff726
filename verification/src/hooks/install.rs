//! What must hold before hooks are installed, and how executables get there.

use crate::hooks::error::HookError;
use crate::hooks::ownership::{
    hook_home, hook_path, is_managed_hook, is_present, managed, present, read_failure, readable,
    FileProbe, HookFile,
};
use crate::hooks::repository::{
    hooks_home, pipeline_home, Repository, INSTALLED_JUST_NAME, INSTALLED_PIPELINE_NAME,
};
use crate::hooks::request::{InstallMode, InstallModes};
use crate::hooks::{all_supported, checks_hooks, validate_hooks};
use crate::names::{ascending, NameSet};
use crate::native::{path_join, same_path, HostPath};
use crate::text::views;
use vstd::prelude::*;
use vstd::utf8::encode_utf8;

verus! {

/// The executables to install.
#[derive(Debug)]
pub struct InstallSources {
    pub pipeline: HostPath,
    pub just: HostPath,
}

impl Clone for InstallSources {
    fn clone(&self) -> (copy: InstallSources)
        ensures
            copy.pipeline@ == self.pipeline@,
            copy.just@ == self.just@,
    {
        InstallSources { pipeline: self.pipeline.clone(), just: self.just.clone() }
    }
}

/// What an installation did.
#[derive(Debug, PartialEq, Eq)]
pub struct InstallReport {
    pub hooks: NameSet,
    pub pipeline_mode: InstallMode,
    pub just_mode: InstallMode,
}

impl Clone for InstallReport {
    fn clone(&self) -> (copy: InstallReport)
        ensures
            copy.hooks@ == self.hooks@,
            copy.pipeline_mode == self.pipeline_mode,
            copy.just_mode == self.just_mode,
    {
        InstallReport {
            hooks: self.hooks.clone(),
            pipeline_mode: self.pipeline_mode,
            just_mode: self.just_mode,
        }
    }
}

/// A checked request to install.
#[derive(Debug)]
pub struct InstallJob {
    pub repository: Repository,
    pub hooks: NameSet,
    pub pipeline_source: HostPath,
    pub just_source: HostPath,
    pub pipeline_mode: InstallMode,
    pub just_mode: InstallMode,
    pub pipeline_dir_existed: bool,
    pub hooks_dir_existed: bool,
}

/// What stands where Pipeline installs.
pub struct LayoutProbes {
    pub pipeline_dir: FileProbe,
    pub hooks_dir: FileProbe,
    pub pipeline: FileProbe,
    pub just: FileProbe,
}

/// A hook path that may be written: free, or Pipeline's own.
pub open spec fn replaceable(file: HookFile) -> bool {
    present(file.probe) ==> readable(file) && managed(file)
}

pub open spec fn all_replaceable(files: Seq<HookFile>, n: int) -> bool {
    forall|i: int| 0 <= i < n ==> replaceable(#[trigger] files[i])
}

/// The error for a hook path that may not be written.
pub open spec fn refuses_file(error: HookError, file: HookFile, path: Seq<u8>) -> bool {
    if readable(file) {
        error matches HookError::UnmanagedHook(at) && at@ == path
    } else {
        error matches HookError::Io(text) && text@ == read_failure(file)
    }
}

/// The verdict on the paths of a list of hooks: the first one that may not be
/// written is reported.
pub open spec fn checks_destinations(
    repository: Repository,
    hooks: Seq<Seq<char>>,
    files: Seq<HookFile>,
    result: Result<(), HookError>,
) -> bool {
    if all_replaceable(files, files.len() as int) {
        result is Ok
    } else {
        &&& result matches Err(error)
        &&& exists|i: int|
            0 <= i < files.len() && !replaceable(#[trigger] files[i]) && all_replaceable(files, i)
                && refuses_file(error, files[i], hook_home(repository, hooks[i]))
    }
}

/// Checks that every hook path is free or Pipeline's own. `files` describes the
/// hooks in their order.
pub fn validate_hook_destinations(
    repository: &Repository,
    hooks: &Vec<String>,
    files: &Vec<HookFile>,
) -> (result: Result<(), HookError>)
    requires
        files@.len() == hooks@.len(),
    ensures
        checks_destinations(*repository, views(hooks@), files@, result),
{
    let mut i: usize = 0;
    while i < hooks.len()
        invariant
            i <= hooks.len(),
            files@.len() == hooks@.len(),
            all_replaceable(files@, i as int),
        decreases hooks.len() - i,
    {
        if is_present(&files[i].probe) {
            match is_managed_hook(&files[i]) {
                Ok(owned) => {
                    if !owned {
                        let path = hook_path(repository, hooks[i].as_str());
                        proof {
                            assert(views(hooks@)[i as int] == hooks@[i as int]@);
                            assert(!replaceable(files@[i as int]));
                        }
                        return Err(HookError::UnmanagedHook(path));
                    }
                },
                Err(error) => {
                    proof {
                        assert(!replaceable(files@[i as int]));
                    }
                    return Err(error);
                },
            }
        }
        i += 1;
    }
    Ok(())
}

/// A place for a directory: one is there, or nothing.
pub open spec fn directory_fits(probe: FileProbe) -> bool {
    probe is Directory || probe is Missing
}

/// A place for an executable: a file or a link is there, or nothing.
pub open spec fn executable_fits(probe: FileProbe) -> bool {
    probe is File || probe is Symlink || probe is Missing
}

/// The error for a place that does not fit.
pub open spec fn refuses_place(error: HookError, probe: FileProbe, path: Seq<u8>) -> bool {
    match probe {
        FileProbe::Unknown(reason) => error matches HookError::Io(text) && text@ == reason@,
        _ => error matches HookError::InvalidInstallPath(at) && at@ == path,
    }
}

pub open spec fn pipeline_place(repository: Repository) -> Seq<u8> {
    path_join(pipeline_home(repository), encode_utf8(INSTALLED_PIPELINE_NAME@))
}

pub open spec fn just_place(repository: Repository) -> Seq<u8> {
    path_join(pipeline_home(repository), encode_utf8(INSTALLED_JUST_NAME@))
}

pub open spec fn layout_fits(layout: LayoutProbes) -> bool {
    directory_fits(layout.pipeline_dir) && directory_fits(layout.hooks_dir) && executable_fits(
        layout.pipeline,
    ) && executable_fits(layout.just)
}

/// The verdict on the places of an installation, in the order in which they are
/// checked.
pub open spec fn checks_layout(
    repository: Repository,
    layout: LayoutProbes,
    result: Result<(), HookError>,
) -> bool {
    if !directory_fits(layout.pipeline_dir) {
        result matches Err(error) && refuses_place(
            error,
            layout.pipeline_dir,
            pipeline_home(repository),
        )
    } else if !directory_fits(layout.hooks_dir) {
        result matches Err(error) && refuses_place(error, layout.hooks_dir, hooks_home(repository))
    } else if !executable_fits(layout.pipeline) {
        result matches Err(error) && refuses_place(
            error,
            layout.pipeline,
            pipeline_place(repository),
        )
    } else if !executable_fits(layout.just) {
        result matches Err(error) && refuses_place(error, layout.just, just_place(repository))
    } else {
        result is Ok
    }
}

fn check_directory(probe: &FileProbe, path: HostPath) -> (result: Result<(), HookError>)
    ensures
        directory_fits(*probe) ==> result is Ok,
        !directory_fits(*probe) ==> (result matches Err(error) && refuses_place(
            error,
            *probe,
            path@,
        )),
{
    match probe {
        FileProbe::Directory => Ok(()),
        FileProbe::Missing => Ok(()),
        FileProbe::Unknown(reason) => Err(HookError::Io(String::from_str(reason.as_str()))),
        _ => Err(HookError::InvalidInstallPath(path)),
    }
}

fn check_executable(probe: &FileProbe, path: HostPath) -> (result: Result<(), HookError>)
    ensures
        executable_fits(*probe) ==> result is Ok,
        !executable_fits(*probe) ==> (result matches Err(error) && refuses_place(
            error,
            *probe,
            path@,
        )),
{
    match probe {
        FileProbe::File => Ok(()),
        FileProbe::Symlink => Ok(()),
        FileProbe::Missing => Ok(()),
        FileProbe::Unknown(reason) => Err(HookError::Io(String::from_str(reason.as_str()))),
        _ => Err(HookError::InvalidInstallPath(path)),
    }
}

/// Checks that every place of an installation can take what goes there.
pub fn validate_install_layout(repository: &Repository, layout: &LayoutProbes) -> (result: Result<
    (),
    HookError,
>)
    ensures
        checks_layout(*repository, *layout, result),
{
    let checked = check_directory(&layout.pipeline_dir, repository.pipeline_dir());
    if checked.is_err() {
        return checked;
    }
    let checked = check_directory(&layout.hooks_dir, repository.hooks_dir());
    if checked.is_err() {
        return checked;
    }
    let checked = check_executable(&layout.pipeline, repository.installed_pipeline());
    if checked.is_err() {
        return checked;
    }
    check_executable(&layout.just, repository.installed_just())
}

/// The sort and permissions of a file.
#[derive(Clone, Copy, Debug, PartialEq, Eq, Structural)]
pub struct FileMode {
    pub is_file: bool,
    pub mode: u32,
}

/// A regular file that someone may execute.
pub open spec fn may_execute(mode: FileMode) -> bool {
    mode.is_file && mode.mode & 0o111 != 0
}

/// Whether a file is regular and someone may execute it.
pub fn is_executable(mode: FileMode) -> (yes: bool)
    ensures
        yes == may_execute(mode),
{
    mode.is_file && mode.mode & 0o111 != 0
}

/// What the system says about an executable to install.
#[derive(Debug)]
pub struct SourceFacts {
    pub canonical: Result<HostPath, String>,
    pub mode: Result<FileMode, String>,
}

/// The executable can be installed.
pub open spec fn usable(facts: SourceFacts) -> bool {
    facts.canonical is Ok && (facts.mode matches Ok(mode) && may_execute(mode))
}

/// The error for an executable that cannot be installed.
pub open spec fn refuses_source(error: HookError, path: Seq<u8>, facts: SourceFacts) -> bool {
    match facts.canonical {
        Err(text) => error matches HookError::ExecutableSource { path: at, source } && at@ == path
            && source@ == text@,
        Ok(canonical) => match facts.mode {
            Err(reason) => error matches HookError::Io(text) && text@ == reason@,
            Ok(_) => error matches HookError::NotExecutable(at) && at@ == canonical@,
        },
    }
}

/// The resolved path of an executable that can be installed.
pub fn executable_source(path: &HostPath, facts: &SourceFacts) -> (result: Result<
    HostPath,
    HookError,
>)
    ensures
        usable(*facts) ==> (result matches Ok(source) && source@ == facts.canonical->Ok_0@),
        !usable(*facts) ==> (result matches Err(error) && refuses_source(error, path@, *facts)),
{
    let canonical = match &facts.canonical {
        Ok(canonical) => canonical,
        Err(text) => {
            return Err(
                HookError::ExecutableSource {
                    path: path.clone(),
                    source: String::from_str(text.as_str()),
                },
            );
        },
    };
    match &facts.mode {
        Err(reason) => Err(HookError::Io(String::from_str(reason.as_str()))),
        Ok(mode) => if is_executable(*mode) {
            Ok(canonical.clone())
        } else {
            Err(HookError::NotExecutable(canonical.clone()))
        },
    }
}

/// The device and number of a file.
#[derive(Clone, Copy, Debug, PartialEq, Eq, Structural)]
pub struct FileId {
    pub device: u64,
    pub inode: u64,
}

/// What looking up a command in `PATH` gave: where it resolves to, and which
/// files that and the source are.
pub struct PathLookup {
    pub found: Option<HostPath>,
    pub found_id: Option<FileId>,
    pub source_id: Option<FileId>,
}

/// The same path, or two names of one file.
pub open spec fn same_file(
    left: Seq<u8>,
    left_id: Option<FileId>,
    right: Seq<u8>,
    right_id: Option<FileId>,
) -> bool {
    same_path(left, right) || (left_id is Some && left_id == right_id)
}

/// Whether two paths are the same, or two names of one file.
pub fn same_file_or_path(
    left: &HostPath,
    left_id: Option<FileId>,
    right: &HostPath,
    right_id: Option<FileId>,
) -> (same: bool)
    ensures
        same == same_file(left@, left_id, right@, right_id),
{
    if left.is_same(right) {
        return true;
    }
    match (left_id, right_id) {
        (Some(a), Some(b)) => a.device == b.device && a.inode == b.inode,
        _ => false,
    }
}

/// The command in `PATH` is the source itself.
pub open spec fn available(source: Seq<u8>, lookup: PathLookup) -> bool {
    lookup.found matches Some(found) && same_file(
        source,
        lookup.source_id,
        found@,
        lookup.found_id,
    )
}

/// How an executable is installed: linked where `PATH` has it anyway.
pub open spec fn resolves_mode(
    command: Seq<char>,
    source: Seq<u8>,
    lookup: PathLookup,
    requested: InstallMode,
    result: Result<InstallMode, HookError>,
) -> bool {
    match requested {
        InstallMode::Auto => result == Ok::<InstallMode, HookError>(
            if available(source, lookup) {
                InstallMode::Link
            } else {
                InstallMode::Copy
            },
        ),
        InstallMode::Copy => result == Ok::<InstallMode, HookError>(InstallMode::Copy),
        InstallMode::Link => if available(source, lookup) {
            result == Ok::<InstallMode, HookError>(InstallMode::Link)
        } else {
            result matches Err(HookError::LinkSourceNotInPath { command: name, path }) && name@
                == command && path@ == source
        },
    }
}

/// How an executable is installed.
pub fn resolve_install_mode(
    command: &str,
    source: &HostPath,
    facts: &SourceFacts,
    lookup: &PathLookup,
    requested: InstallMode,
) -> (result: Result<InstallMode, HookError>)
    ensures
        usable(*facts) ==> resolves_mode(
            command@,
            facts.canonical->Ok_0@,
            *lookup,
            requested,
            result,
        ),
        !usable(*facts) ==> (result matches Err(error) && refuses_source(error, source@, *facts)),
{
    let source = match executable_source(source, facts) {
        Ok(source) => source,
        Err(error) => {
            return Err(error);
        },
    };
    let from_path = match &lookup.found {
        Some(found) => same_file_or_path(&source, lookup.source_id, found, lookup.found_id),
        None => false,
    };
    match requested {
        InstallMode::Auto => if from_path {
            Ok(InstallMode::Link)
        } else {
            Ok(InstallMode::Copy)
        },
        InstallMode::Copy => Ok(InstallMode::Copy),
        InstallMode::Link => if from_path {
            Ok(InstallMode::Link)
        } else {
            Err(HookError::LinkSourceNotInPath { command: String::from_str(command), path: source })
        },
    }
}

/// How an executable is installed at a target, which may be the source itself.
pub open spec fn resolves_target_mode(
    command: Seq<char>,
    source: Seq<u8>,
    facts: SourceFacts,
    target: Seq<u8>,
    target_is_link: Result<bool, String>,
    lookup: PathLookup,
    requested: InstallMode,
    result: Result<InstallMode, HookError>,
) -> bool {
    if !usable(facts) {
        result matches Err(error) && refuses_source(error, source, facts)
    } else if same_path(facts.canonical->Ok_0@, target) && target_is_link is Err {
        result matches Err(HookError::Io(text)) && text@ == target_is_link->Err_0@
    } else if same_path(facts.canonical->Ok_0@, target) && target_is_link == Ok::<bool, String>(
        false,
    ) {
        match requested {
            InstallMode::Link => result matches Err(HookError::LinkTargetIsSource(path)) && path@
                == target,
            _ => result == Ok::<InstallMode, HookError>(InstallMode::Copy),
        }
    } else {
        resolves_mode(command, facts.canonical->Ok_0@, lookup, requested, result)
    }
}

/// The mode in which an executable can be installed at a target, if it can be.
pub open spec fn settled_mode(
    facts: SourceFacts,
    target: Seq<u8>,
    target_is_link: Result<bool, String>,
    lookup: PathLookup,
    requested: InstallMode,
) -> Option<InstallMode> {
    let source = facts.canonical->Ok_0@;
    if !usable(facts) || (same_path(source, target) && target_is_link is Err) {
        None
    } else if same_path(source, target) && target_is_link == Ok::<bool, String>(false) {
        if requested is Link {
            None
        } else {
            Some(InstallMode::Copy)
        }
    } else {
        match requested {
            InstallMode::Auto => Some(
                if available(source, lookup) {
                    InstallMode::Link
                } else {
                    InstallMode::Copy
                },
            ),
            InstallMode::Copy => Some(InstallMode::Copy),
            InstallMode::Link => if available(source, lookup) {
                Some(InstallMode::Link)
            } else {
                None
            },
        }
    }
}

/// How an executable is installed at a target. An installed executable is never
/// linked to itself.
pub fn resolve_target_install_mode(
    command: &str,
    source: &HostPath,
    facts: &SourceFacts,
    target: &HostPath,
    target_is_link: &Result<bool, String>,
    lookup: &PathLookup,
    requested: InstallMode,
) -> (result: Result<InstallMode, HookError>)
    ensures
        resolves_target_mode(
            command@,
            source@,
            *facts,
            target@,
            *target_is_link,
            *lookup,
            requested,
            result,
        ),
        match settled_mode(*facts, target@, *target_is_link, *lookup, requested) {
            Some(mode) => result == Ok::<InstallMode, HookError>(mode),
            None => result is Err,
        },
{
    let canonical = match executable_source(source, facts) {
        Ok(canonical) => canonical,
        Err(error) => {
            return Err(error);
        },
    };
    if canonical.is_same(target) {
        match target_is_link {
            Err(text) => {
                return Err(HookError::Io(String::from_str(text.as_str())));
            },
            Ok(is_link) => {
                if !*is_link {
                    return match requested {
                        InstallMode::Link => Err(HookError::LinkTargetIsSource(target.clone())),
                        _ => Ok(InstallMode::Copy),
                    };
                }
            },
        }
    }
    resolve_install_mode(command, &canonical, facts, lookup, requested)
}

/// No mode ever links an executable that is not a link to itself.
pub proof fn an_executable_is_never_linked_to_itself(
    command: Seq<char>,
    source: Seq<u8>,
    facts: SourceFacts,
    target: Seq<u8>,
    lookup: PathLookup,
    requested: InstallMode,
    result: Result<InstallMode, HookError>,
)
    requires
        resolves_target_mode(
            command,
            source,
            facts,
            target,
            Ok(false),
            lookup,
            requested,
            result,
        ),
        usable(facts),
        same_path(facts.canonical->Ok_0@, target),
    ensures
        result != Ok::<InstallMode, HookError>(InstallMode::Link),
        !(requested is Link) ==> result == Ok::<InstallMode, HookError>(InstallMode::Copy),
{
}

/// The first directory of `PATH` that holds an executable of a name.
pub open spec fn first_executable(modes: Seq<Option<FileMode>>) -> int
    decreases modes.len(),
{
    if modes.len() == 0 {
        0
    } else if modes[0] matches Some(mode) && may_execute(mode) {
        0
    } else {
        1 + first_executable(modes.drop_first())
    }
}

/// Where `PATH` has a command. `modes` describes the entry of that name in each
/// directory.
pub fn resolve_in_path(
    command: &str,
    directories: &Vec<HostPath>,
    modes: &Vec<Option<FileMode>>,
) -> (found: Option<HostPath>)
    requires
        modes@.len() == directories@.len(),
    ensures
        match found {
            Some(path) => first_executable(modes@) < modes@.len() && path@ == path_join(
                directories@[first_executable(modes@)]@,
                encode_utf8(command@),
            ),
            None => first_executable(modes@) == modes@.len(),
        },
{
    let ghost all = modes@;
    proof {
        assert(all.skip(0) =~= all);
    }
    let mut i: usize = 0;
    while i < modes.len()
        invariant
            i <= modes.len(),
            all == modes@,
            modes@.len() == directories@.len(),
            first_executable(all) == i + first_executable(all.skip(i as int)),
        decreases modes.len() - i,
    {
        proof {
            assert(all.skip(i as int)[0] == modes@[i as int]);
            assert(all.skip(i as int).drop_first() =~= all.skip(i as int + 1));
        }
        if let Some(mode) = modes[i] {
            if is_executable(mode) {
                return Some(directories[i].join(command));
            }
        }
        i += 1;
    }
    None
}

/// What stands at the target of an executable, as far as it matters for
/// staging: whether it is a link, and where the link leads.
#[derive(Debug)]
pub struct TargetLink {
    pub exists: bool,
    pub is_link: Result<bool, String>,
    pub leads_to: Result<HostPath, String>,
}

/// How an executable is staged.
#[derive(Clone, Copy, Debug, PartialEq, Eq, Structural)]
pub enum Staging {
    Nothing,
    Copy,
    Link,
}

/// How an executable is staged: not at all if the target is the wanted copy or
/// link already.
pub open spec fn stages(
    source: Seq<u8>,
    target: Seq<u8>,
    mode: InstallMode,
    link: TargetLink,
    result: Result<Staging, HookError>,
) -> bool {
    if mode is Copy {
        result == Ok::<Staging, HookError>(
            if same_path(source, target) {
                Staging::Nothing
            } else {
                Staging::Copy
            },
        )
    } else if !link.exists {
        result == Ok::<Staging, HookError>(Staging::Link)
    } else {
        match link.is_link {
            Err(reason) => result matches Err(HookError::Io(text)) && text@ == reason@,
            Ok(false) => result == Ok::<Staging, HookError>(Staging::Link),
            Ok(true) => match link.leads_to {
                Err(reason) => result matches Err(HookError::Io(text)) && text@ == reason@,
                Ok(path) => result == Ok::<Staging, HookError>(
                    if same_path(path@, source) {
                        Staging::Nothing
                    } else {
                        Staging::Link
                    },
                ),
            },
        }
    }
}

/// Decides how an executable is staged. The mode is resolved already.
pub fn staging_of(
    source: &HostPath,
    target: &HostPath,
    mode: InstallMode,
    link: &TargetLink,
) -> (result: Result<Staging, HookError>)
    requires
        !(mode is Auto),
    ensures
        stages(source@, target@, mode, *link, result),
{
    if let InstallMode::Copy = mode {
        return if source.is_same(target) {
            Ok(Staging::Nothing)
        } else {
            Ok(Staging::Copy)
        };
    }
    if !link.exists {
        return Ok(Staging::Link);
    }
    match &link.is_link {
        Err(reason) => Err(HookError::Io(String::from_str(reason.as_str()))),
        Ok(is_link) => if !*is_link {
            Ok(Staging::Link)
        } else {
            match &link.leads_to {
                Err(reason) => Err(HookError::Io(String::from_str(reason.as_str()))),
                Ok(path) => if path.is_same(source) {
                    Ok(Staging::Nothing)
                } else {
                    Ok(Staging::Link)
                },
            }
        },
    }
}

/// What is known of an executable to install.
pub struct ExecutableFacts {
    pub source: SourceFacts,
    pub target_is_link: Result<bool, String>,
    pub lookup: PathLookup,
}

/// All conditions that do not depend on the executables.
pub open spec fn checks_installation(
    repository: Repository,
    hooks: Seq<Seq<char>>,
    files: Seq<HookFile>,
    layout: LayoutProbes,
    result: Result<(), HookError>,
) -> bool {
    if !all_supported(hooks) {
        checks_hooks(hooks, result)
    } else if !all_replaceable(files, files.len() as int) {
        checks_destinations(repository, hooks, files, result)
    } else {
        checks_layout(repository, layout, result)
    }
}

fn check_installation(
    repository: &Repository,
    hooks: &NameSet,
    files: &Vec<HookFile>,
    layout: &LayoutProbes,
) -> (result: Result<(), HookError>)
    requires
        files@.len() == hooks@.len(),
    ensures
        checks_installation(*repository, hooks@, files@, *layout, result),
        result is Ok <==> all_supported(hooks@) && all_replaceable(files@, files@.len() as int)
            && layout_fits(*layout),
{
    let checked = validate_hooks(hooks.as_list());
    if checked.is_err() {
        return checked;
    }
    let checked = validate_hook_destinations(repository, hooks.as_list(), files);
    if checked.is_err() {
        return checked;
    }
    validate_install_layout(repository, layout)
}

/// Checks every condition of an installation that does not depend on a resolved
/// Just. A container image is fetched only after this succeeded.
pub fn preflight_install(
    repository: &Repository,
    hooks: &NameSet,
    files: &Vec<HookFile>,
    layout: &LayoutProbes,
    pipeline_source: &HostPath,
    pipeline: &ExecutableFacts,
    pipeline_mode: InstallMode,
) -> (result: Result<(), HookError>)
    requires
        files@.len() == hooks@.len(),
    ensures
        all_supported(hooks@) && all_replaceable(files@, files@.len() as int) && layout_fits(
            *layout,
        ) ==> {
            &&& result is Ok <==> settled_mode(
                pipeline.source,
                pipeline_place(*repository),
                pipeline.target_is_link,
                pipeline.lookup,
                pipeline_mode,
            ) is Some
            &&& result matches Err(error) ==> resolves_target_mode(
                "pipeline"@,
                pipeline_source@,
                pipeline.source,
                pipeline_place(*repository),
                pipeline.target_is_link,
                pipeline.lookup,
                pipeline_mode,
                Err(error),
            )
        },
        !(all_supported(hooks@) && all_replaceable(files@, files@.len() as int) && layout_fits(
            *layout,
        )) ==> result is Err && checks_installation(
            *repository,
            hooks@,
            files@,
            *layout,
            result,
        ),
{
    let checked = check_installation(repository, hooks, files, layout);
    if checked.is_err() {
        return checked;
    }
    let target = repository.installed_pipeline();
    let resolved = resolve_target_install_mode(
        "pipeline",
        pipeline_source,
        &pipeline.source,
        &target,
        &pipeline.target_is_link,
        &pipeline.lookup,
        pipeline_mode,
    );
    match resolved {
        Ok(_) => Ok(()),
        Err(error) => Err(error),
    }
}

/// What is to be installed, once everything was checked.
#[derive(Debug)]
pub enum InstallPlan {
    /// Nothing was asked for.
    Nothing(InstallReport),
    Install(InstallJob),
}

/// Both describe the same repository.
pub open spec fn same_repository(a: Repository, b: Repository) -> bool {
    &&& a.invocation_dir@ == b.invocation_dir@
    &&& a.git_dir@ == b.git_dir@
    &&& a.common_dir@ == b.common_dir@
    &&& a.bare == b.bare
    &&& match (a.work_tree, b.work_tree) {
        (Some(x), Some(y)) => x@ == y@,
        (None, None) => true,
        _ => false,
    }
}

/// The job that a request comes to: what was asked for, in the modes that are
/// settled, with the directories that are there already.
pub open spec fn job_for(
    repository: Repository,
    hooks: Seq<Seq<char>>,
    layout: LayoutProbes,
    sources: InstallSources,
    pipeline_mode: InstallMode,
    just_mode: InstallMode,
    job: InstallJob,
) -> bool {
    &&& same_repository(job.repository, repository)
    &&& job.hooks@ == hooks
    &&& job.pipeline_source@ == sources.pipeline@
    &&& job.just_source@ == sources.just@
    &&& job.pipeline_mode == pipeline_mode
    &&& job.just_mode == just_mode
    &&& job.pipeline_dir_existed == (layout.pipeline_dir is Directory)
    &&& job.hooks_dir_existed == (layout.hooks_dir is Directory)
}

/// The modes of a job are settled, and there are hooks in it, each once and all
/// of them supported.
pub open spec fn job_holds(job: InstallJob) -> bool {
    &&& !(job.pipeline_mode is Auto)
    &&& !(job.just_mode is Auto)
    &&& job.hooks@.len() > 0
    &&& ascending(job.hooks@)
    &&& all_supported(job.hooks@)
}

/// What a request to install comes to. Nothing is changed before this is
/// settled.
pub open spec fn plans(
    repository: Repository,
    hooks: Seq<Seq<char>>,
    files: Seq<HookFile>,
    layout: LayoutProbes,
    sources: InstallSources,
    pipeline: ExecutableFacts,
    just: ExecutableFacts,
    modes: InstallModes,
    result: Result<InstallPlan, HookError>,
) -> bool {
    let pipeline_mode = settled_mode(
        pipeline.source,
        pipeline_place(repository),
        pipeline.target_is_link,
        pipeline.lookup,
        modes.pipeline,
    );
    let just_mode = settled_mode(
        just.source,
        just_place(repository),
        just.target_is_link,
        just.lookup,
        modes.just,
    );
    if !(all_supported(hooks) && all_replaceable(files, files.len() as int) && layout_fits(
        layout,
    )) {
        result matches Err(error) && checks_installation(
            repository,
            hooks,
            files,
            layout,
            Err(error),
        )
    } else if hooks.len() == 0 {
        result matches Ok(InstallPlan::Nothing(report)) && report.hooks@.len() == 0
            && report.pipeline_mode == modes.pipeline && report.just_mode == modes.just
    } else if pipeline_mode is None {
        result matches Err(error) && resolves_target_mode(
            "pipeline"@,
            sources.pipeline@,
            pipeline.source,
            pipeline_place(repository),
            pipeline.target_is_link,
            pipeline.lookup,
            modes.pipeline,
            Err(error),
        )
    } else if just_mode is None {
        result matches Err(error) && resolves_target_mode(
            "just"@,
            sources.just@,
            just.source,
            just_place(repository),
            just.target_is_link,
            just.lookup,
            modes.just,
            Err(error),
        )
    } else {
        result matches Ok(InstallPlan::Install(job)) && job_holds(job) && job_for(
            repository,
            hooks,
            layout,
            sources,
            pipeline_mode->Some_0,
            just_mode->Some_0,
            job,
        )
    }
}

/// Decides what a request to install comes to.
pub fn plan_install(
    repository: &Repository,
    hooks: &NameSet,
    files: &Vec<HookFile>,
    layout: &LayoutProbes,
    sources: &InstallSources,
    pipeline: &ExecutableFacts,
    just: &ExecutableFacts,
    modes: InstallModes,
) -> (result: Result<InstallPlan, HookError>)
    requires
        files@.len() == hooks@.len(),
    ensures
        plans(*repository, hooks@, files@, *layout, *sources, *pipeline, *just, modes, result),
{
    if let Err(error) = check_installation(repository, hooks, files, layout) {
        return Err(error);
    }
    if hooks.is_empty() {
        return Ok(
            InstallPlan::Nothing(
                InstallReport {
                    hooks: NameSet::new(),
                    pipeline_mode: modes.pipeline,
                    just_mode: modes.just,
                },
            ),
        );
    }
    let pipeline_target = repository.installed_pipeline();
    let pipeline_mode = match resolve_target_install_mode(
        "pipeline",
        &sources.pipeline,
        &pipeline.source,
        &pipeline_target,
        &pipeline.target_is_link,
        &pipeline.lookup,
        modes.pipeline,
    ) {
        Ok(mode) => mode,
        Err(error) => {
            return Err(error);
        },
    };
    let just_target = repository.installed_just();
    let just_mode = match resolve_target_install_mode(
        "just",
        &sources.just,
        &just.source,
        &just_target,
        &just.target_is_link,
        &just.lookup,
        modes.just,
    ) {
        Ok(mode) => mode,
        Err(error) => {
            return Err(error);
        },
    };
    let job = InstallJob {
        repository: repository.clone(),
        hooks: hooks.clone(),
        pipeline_source: sources.pipeline.clone(),
        just_source: sources.just.clone(),
        pipeline_mode,
        just_mode,
        pipeline_dir_existed: matches!(layout.pipeline_dir, FileProbe::Directory),
        hooks_dir_existed: matches!(layout.hooks_dir, FileProbe::Directory),
    };
    Ok(InstallPlan::Install(job))
}

} // verus!
