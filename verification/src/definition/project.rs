//! A loaded definition and the runs that it is prepared for.

use crate::definition::check::{config_problem, hook_problem, valid_config};
use crate::definition::error::DefinitionError;
use crate::definition::graph::valid_definitions_resolve;
use crate::definition::limits::{outer_limit, JobLimit};
use crate::definition::model::{ConfigModel, PipelineConfig};
use crate::definition::render::{
    command_settings, entry_name, generated_text, render_problem, RenderProblem, RenderedPipeline,
};
use crate::definition::selection::Selection;
use crate::definition::targets::{
    declared_hooks, hook_selection, selects, valid_definitions_have_valid_selectors,
};
use crate::definition::validate::invalid;
use crate::hooks::{supported_hook_list, supported_hooks};
use crate::native::{
    lossy, native_text_round_trip, native_views, path_join, path_names, path_views, path_within,
    rooted, spelled, HostPath, NativeText, DOT,
};
use crate::text::{concat4, decimal, decimal_has_digits, decimal_text, views};
use vstd::prelude::*;
use vstd::utf8::{decode_utf8, encode_utf8, valid_utf8};

verus! {

/// Which sort of definition a project has.
#[derive(Clone, Copy, Debug, PartialEq, Eq, Structural)]
pub enum DefinitionKind {
    Pipelinefile,
    Yaml,
}

/// The sort of definition that a file of this name holds.
pub open spec fn kind_of_name(name: Seq<char>) -> Option<DefinitionKind> {
    if name == "Pipelinefile"@ {
        Some(DefinitionKind::Pipelinefile)
    } else if name == "pipeline.yml"@ || name == ".pipeline.yml"@ {
        Some(DefinitionKind::Yaml)
    } else {
        None
    }
}

fn definition_kind(name: &str) -> (kind: Option<DefinitionKind>)
    ensures
        kind == kind_of_name(name@),
{
    if *name == *"Pipelinefile" {
        Some(DefinitionKind::Pipelinefile)
    } else if *name == *"pipeline.yml" || *name == *".pipeline.yml" {
        Some(DefinitionKind::Yaml)
    } else {
        None
    }
}

/// A definition file that was found, before its contents are read.
#[derive(Debug)]
pub struct DefinitionFile {
    pub path: HostPath,
    pub root: HostPath,
    pub kind: DefinitionKind,
}

/// The last name of a path, where it is text.
pub open spec fn name_of_path(path: Seq<u8>) -> Option<Seq<char>> {
    let names = path_names(path);
    if names.len() == 0 || names.last() == seq![DOT, DOT] || names.last() == seq![DOT]
        || !valid_utf8(names.last()) {
        None
    } else {
        Some(decode_utf8(names.last()))
    }
}

/// What reading a YAML definition gave.
#[derive(Debug)]
pub enum YamlContents {
    Unreadable(String),
    Malformed(String),
    Parsed(PipelineConfig),
}

#[derive(Debug)]
enum Definition {
    Pipelinefile,
    Yaml(PipelineConfig),
}

/// A discovered and, for YAML, fully validated project definition.
#[derive(Debug)]
pub struct Project {
    path: HostPath,
    root: HostPath,
    definition: Definition,
}

/// A definition path and where it really leads, held against the directory
/// that may not be left.
pub struct ControlBoundary {
    pub root: HostPath,
    pub resolved: Result<HostPath, String>,
}

/// Where a run reads its standard input from.
#[derive(Debug)]
pub enum StdinSource {
    Inherit,
    File(HostPath),
    Null,
}

impl Default for StdinSource {
    fn default() -> (source: StdinSource)
        ensures
            source is Inherit,
    {
        StdinSource::Inherit
    }
}

impl Clone for StdinSource {
    fn clone(&self) -> (source: StdinSource)
        ensures
            source@ == self@,
    {
        match self {
            StdinSource::Inherit => StdinSource::Inherit,
            StdinSource::File(path) => StdinSource::File(path.clone()),
            StdinSource::Null => StdinSource::Null,
        }
    }
}

pub enum StdinModel {
    Inherit,
    File(Seq<u8>),
    Null,
}

impl View for StdinSource {
    type V = StdinModel;

    open spec fn view(&self) -> StdinModel {
        match self {
            StdinSource::Inherit => StdinModel::Inherit,
            StdinSource::File(path) => StdinModel::File(path@),
            StdinSource::Null => StdinModel::Null,
        }
    }
}

/// How a definition is to be run.
#[derive(Clone, Debug)]
pub struct RunOptions {
    pub arguments: Vec<NativeText>,
    pub job_limit: JobLimit,
    pub no_deps: bool,
    pub environment: Vec<(NativeText, NativeText)>,
    pub stdin: StdinSource,
    /// The directory recipes execute in, where it is not the project's own.
    /// Control files are the project's either way.
    pub working_directory: Option<HostPath>,
}

impl Default for RunOptions {
    fn default() -> (options: RunOptions)
        ensures
            options.arguments@ == Seq::<NativeText>::empty(),
            options.job_limit is Default,
            !options.no_deps,
            options.environment@ == Seq::<(NativeText, NativeText)>::empty(),
            options.stdin is Inherit,
            options.working_directory is None,
    {
        RunOptions {
            arguments: Vec::new(),
            job_limit: JobLimit::Default,
            no_deps: false,
            environment: Vec::new(),
            stdin: StdinSource::Inherit,
            working_directory: None,
        }
    }
}

/// The names and values of a list of variables.
pub open spec fn variable_views(list: Seq<(NativeText, NativeText)>) -> Seq<(Seq<u8>, Seq<u8>)> {
    Seq::new(list.len(), |i: int| (list[i].0@, list[i].1@))
}

pub fn copy_variables(list: &Vec<(NativeText, NativeText)>) -> (copy: Vec<
    (NativeText, NativeText),
>)
    ensures
        variable_views(copy@) == variable_views(list@),
{
    let ghost all = variable_views(list@);
    let mut copy: Vec<(NativeText, NativeText)> = Vec::new();
    let mut i: usize = 0;
    while i < list.len()
        invariant
            i <= list.len(),
            all == variable_views(list@),
            variable_views(copy@) =~= all.take(i as int),
        decreases list.len() - i,
    {
        let ghost before = copy@;
        let item = (list[i].0.clone(), list[i].1.clone());
        proof {
            assert(variable_views(before.push(item)) =~= variable_views(before).push(
                (item.0@, item.1@),
            ));
            assert(all.take(i as int + 1) =~= all.take(i as int).push(all[i as int]));
        }
        copy.push(item);
        i += 1;
    }
    proof {
        assert(all.take(i as int) =~= all);
    }
    copy
}

fn append_all(target: &mut Vec<NativeText>, list: &Vec<NativeText>)
    ensures
        native_views(final(target)@) == native_views(old(target)@) + native_views(list@),
{
    let ghost start = native_views(target@);
    let ghost all = native_views(list@);
    let mut i: usize = 0;
    while i < list.len()
        invariant
            i <= list.len(),
            all == native_views(list@),
            native_views(target@) =~= start + all.take(i as int),
        decreases list.len() - i,
    {
        let ghost before = target@;
        target.push(list[i].clone());
        proof {
            assert(native_views(target@) =~= native_views(before).push(target@.last()@));
            assert(all.take(i as int + 1) =~= all.take(i as int).push(all[i as int]));
        }
        i += 1;
    }
    proof {
        assert(all.take(i as int) =~= all);
    }
}

/// One invocation of Just.
#[derive(Debug)]
pub struct PreparedRun {
    program: HostPath,
    arguments: Vec<NativeText>,
    working_directory: HostPath,
    environment: Vec<(NativeText, NativeText)>,
    stdin: StdinSource,
}

/// The model of an invocation.
pub struct RunModel {
    pub program: Seq<u8>,
    pub arguments: Seq<Seq<u8>>,
    pub working_directory: Seq<u8>,
    pub environment: Seq<(Seq<u8>, Seq<u8>)>,
    pub stdin: StdinModel,
}

impl View for PreparedRun {
    type V = RunModel;

    closed spec fn view(&self) -> RunModel {
        RunModel {
            program: self.program@,
            arguments: native_views(self.arguments@),
            working_directory: self.working_directory@,
            environment: variable_views(self.environment@),
            stdin: self.stdin@,
        }
    }
}

/// The options of the scheduler itself.
pub open spec fn outer_options(limit: JobLimit, no_deps: bool) -> Seq<Seq<u8>> {
    (match outer_limit(limit) {
        Some(jobs) => seq![encode_utf8("--jobs"@), encode_utf8(decimal(jobs))],
        None => seq![],
    }) + (if no_deps {
        seq![encode_utf8("--no-deps"@)]
    } else {
        seq![]
    })
}

/// The scheduler of a generated graph is never told to skip dependencies: its
/// options leave `--no-deps` to nested processes.
pub proof fn scheduled_dependencies_always_run(limit: JobLimit, i: int)
    requires
        0 <= i < outer_options(limit, false).len(),
    ensures
        outer_options(limit, false)[i] != encode_utf8("--no-deps"@),
{
    reveal_strlit("--jobs");
    reveal_strlit("--no-deps");
    native_text_round_trip("--jobs"@);
    native_text_round_trip("--no-deps"@);
    assert("--jobs"@ != "--no-deps"@) by {
        assert("--jobs"@.len() != "--no-deps"@.len());
    }
    if let Some(jobs) = outer_limit(limit) {
        native_text_round_trip(decimal(jobs));
        decimal_has_digits(jobs);
        assert("--no-deps"@[0] == '-');
    }
}

/// The leading arguments of every invocation.
pub open spec fn file_options(justfile: Seq<u8>, directory: Seq<u8>) -> Seq<Seq<u8>> {
    seq![
        encode_utf8("--justfile"@),
        justfile,
        encode_utf8("--working-directory"@),
        directory,
    ]
}

/// The directory recipes run in.
pub open spec fn run_directory(options: RunOptions, root: Seq<u8>) -> Seq<u8> {
    match options.working_directory {
        Some(path) => path@,
        None => root,
    }
}

/// Appends the options of the scheduler.
pub fn append_outer_options(arguments: &mut Vec<NativeText>, limit: JobLimit, no_deps: bool)
    ensures
        native_views(final(arguments)@) == native_views(old(arguments)@) + outer_options(
            limit,
            no_deps,
        ),
{
    let ghost start = native_views(arguments@);
    if let Some(jobs) = limit.outer_jobs() {
        let ghost before = arguments@;
        arguments.push(NativeText::from_text("--jobs"));
        let ghost middle = arguments@;
        arguments.push(NativeText::from_text(decimal_text(jobs.get() as u64).as_str()));
        proof {
            assert(native_views(middle) =~= native_views(before).push(middle.last()@));
            assert(native_views(arguments@) =~= native_views(middle).push(arguments@.last()@));
        }
    }
    let ghost sofar = arguments@;
    if no_deps {
        arguments.push(NativeText::from_text("--no-deps"));
        proof {
            assert(native_views(arguments@) =~= native_views(sofar).push(arguments@.last()@));
        }
    }
    proof {
        assert(native_views(arguments@) =~= start + outer_options(limit, no_deps));
    }
}

fn file_arguments(justfile: &HostPath, directory: &HostPath) -> (arguments: Vec<NativeText>)
    ensures
        native_views(arguments@) == file_options(justfile@, directory@),
{
    let mut arguments: Vec<NativeText> = Vec::new();
    arguments.push(NativeText::from_text("--justfile"));
    arguments.push(NativeText { bytes: justfile.clone().bytes });
    arguments.push(NativeText::from_text("--working-directory"));
    arguments.push(NativeText { bytes: directory.clone().bytes });
    proof {
        assert(native_views(arguments@) =~= file_options(justfile@, directory@));
    }
    arguments
}

impl PreparedRun {
    fn new(
        program: HostPath,
        arguments: Vec<NativeText>,
        working_directory: HostPath,
        options: &RunOptions,
    ) -> (run: PreparedRun)
        ensures
            run@ == (RunModel {
                program: program@,
                arguments: native_views(arguments@),
                working_directory: working_directory@,
                environment: variable_views(options.environment@),
                stdin: options.stdin@,
            }),
    {
        PreparedRun {
            program,
            arguments,
            working_directory,
            environment: copy_variables(&options.environment),
            stdin: options.stdin.clone(),
        }
    }

    /// The run of a generated Justfile, once it stands in a file. The scheduler
    /// always honours dependencies: only nested processes may skip them.
    pub fn generated(
        rendered: &RenderedPipeline,
        file: &HostPath,
        just_executable: &HostPath,
        options: &RunOptions,
    ) -> (run: PreparedRun)
        ensures
            run@ == (RunModel {
                program: just_executable@,
                arguments: (file_options(file@, rendered.working_directory@) + outer_options(
                    options.job_limit,
                    false,
                )).push(encode_utf8(rendered.entrypoint@)),
                working_directory: rendered.working_directory@,
                environment: variable_views(options.environment@),
                stdin: options.stdin@,
            }),
    {
        let mut arguments = file_arguments(file, &rendered.working_directory);
        append_outer_options(&mut arguments, options.job_limit, false);
        let ghost before = arguments@;
        arguments.push(NativeText::from_text(rendered.entrypoint.as_str()));
        proof {
            assert(native_views(arguments@) =~= native_views(before).push(arguments@.last()@));
        }
        PreparedRun::new(
            just_executable.clone(),
            arguments,
            rendered.working_directory.clone(),
            options,
        )
    }

    pub fn program(&self) -> (program: &HostPath)
        ensures
            program@ == self@.program,
    {
        &self.program
    }

    pub fn arguments(&self) -> (arguments: &Vec<NativeText>)
        ensures
            native_views(arguments@) == self@.arguments,
    {
        &self.arguments
    }

    pub fn working_directory(&self) -> (directory: &HostPath)
        ensures
            directory@ == self@.working_directory,
    {
        &self.working_directory
    }

    pub fn environment(&self) -> (environment: &Vec<(NativeText, NativeText)>)
        ensures
            variable_views(environment@) == self@.environment,
    {
        &self.environment
    }

    pub fn stdin(&self) -> (stdin: &StdinSource)
        ensures
            stdin@ == self@.stdin,
    {
        &self.stdin
    }
}

/// The model of a project. YAML definitions have a model; for a Pipelinefile
/// there is none.
pub struct ProjectModel {
    pub path: Seq<u8>,
    pub root: Seq<u8>,
    pub config: Option<ConfigModel>,
}

impl View for Project {
    type V = ProjectModel;

    closed spec fn view(&self) -> ProjectModel {
        ProjectModel {
            path: self.path@,
            root: self.root@,
            config: match self.definition {
                Definition::Pipelinefile => None,
                Definition::Yaml(config) => Some(config@),
            },
        }
    }
}

/// Why a definition is refused when it is held against a control boundary.
pub open spec fn boundary_refusal(path: Seq<u8>, boundary: ControlBoundary) -> Option<
    DefinitionRefusal,
> {
    if !path_within(path, boundary.root@) {
        Some(
            DefinitionRefusal::Reason(
                "definition "@ + lossy(path) + " is outside control boundary "@ + lossy(
                    boundary.root@,
                ),
            ),
        )
    } else {
        match boundary.resolved {
            Err(text) => Some(DefinitionRefusal::System(text@)),
            Ok(target) => if path_within(target@, boundary.root@) {
                None
            } else {
                Some(
                    DefinitionRefusal::Reason(
                        "definition "@ + lossy(path) + " resolves outside control boundary "@
                            + lossy(boundary.root@),
                    ),
                )
            },
        }
    }
}

/// Why a definition is refused: for a reason of its own, or because the system
/// reported an error on its path.
pub enum DefinitionRefusal {
    Reason(Seq<char>),
    System(Seq<char>),
}

/// The error says exactly why.
pub open spec fn refuses(error: DefinitionError, refusal: DefinitionRefusal, on: Seq<u8>) -> bool {
    match refusal {
        DefinitionRefusal::Reason(text) => error matches DefinitionError::Invalid(reason)
            && reason@ == text,
        DefinitionRefusal::System(text) => error matches DefinitionError::Io { path, source }
            && path@ == on && source@ == text,
    }
}

/// The parent that a definition path is resolved by: the current directory for
/// a bare name.
pub open spec fn parent_to_resolve(path: Seq<u8>) -> Seq<u8> {
    let names = path_names(path);
    let parent = spelled(rooted(path), names.drop_last());
    if names.len() == 0 || parent.len() == 0 {
        seq![DOT]
    } else {
        parent
    }
}

/// Whether a definition is run as it is, or rendered first.
#[derive(Debug)]
pub enum Preparation {
    Ready(PreparedRun),
    Render(Selection),
}

/// The run of a Pipelinefile: Just gets the arguments as they are.
pub open spec fn direct_run(
    path: Seq<u8>,
    root: Seq<u8>,
    program: Seq<u8>,
    options: RunOptions,
) -> RunModel {
    RunModel {
        program,
        arguments: file_options(path, run_directory(options, root)) + outer_options(
            options.job_limit,
            options.no_deps,
        ) + native_views(options.arguments@),
        working_directory: run_directory(options, root),
        environment: variable_views(options.environment@),
        stdin: options.stdin@,
    }
}

/// The outcome of rendering a selection of a definition whose Justfile was
/// looked up.
pub open spec fn renders(
    config: ConfigModel,
    selection: Selection,
    directory: Seq<u8>,
    executable: Seq<u8>,
    justfile: Result<HostPath, DefinitionError>,
    limit: JobLimit,
    no_deps: bool,
    result: Result<RenderedPipeline, DefinitionError>,
) -> bool {
    match justfile {
        Err(error) => result == Err::<RenderedPipeline, DefinitionError>(error),
        Ok(control) => match render_problem(
            config,
            selection@,
            directory,
            executable,
            Some(control@),
        ) {
            Some(RenderProblem::Reason(reason)) => result matches Err(
                DefinitionError::Invalid(text),
            ) && text@ == reason,
            Some(RenderProblem::Executable) => result matches Err(
                DefinitionError::NonUnicodeExecutable(path),
            ) && path@ == executable,
            None => {
                &&& result matches Ok(rendered)
                &&& rendered.contents@ == generated_text(
                    config,
                    command_settings(directory, executable, Some(control@), limit, no_deps),
                    selection@,
                )
                &&& rendered.entrypoint@ == entry_name()
                &&& rendered.working_directory@ == directory
            },
        },
    }
}

impl Clone for Project {
    fn clone(&self) -> (copy: Project)
        ensures
            copy@ == self@,
    {
        proof {
            use_type_invariant(self);
        }
        Project {
            path: self.path.clone(),
            root: self.root.clone(),
            definition: match &self.definition {
                Definition::Pipelinefile => Definition::Pipelinefile,
                Definition::Yaml(config) => Definition::Yaml(config.clone()),
            },
        }
    }
}

impl Project {
    #[verifier::type_invariant]
    spec fn is_valid(self) -> bool {
        self.definition matches Definition::Yaml(config) ==> valid_config(config@)
    }

    /// The directory whose resolution gives the root of the project.
    pub fn parent_directory(requested: &HostPath) -> (parent: HostPath)
        ensures
            parent@ == parent_to_resolve(requested@),
    {
        let mut here: Vec<u8> = Vec::new();
        here.push(DOT);
        proof {
            assert(here@ =~= seq![DOT]);
        }
        match requested.parent() {
            Some(parent) => if parent.bytes.len() == 0 {
                HostPath { bytes: here }
            } else {
                parent
            },
            None => HostPath { bytes: here },
        }
    }

    /// Decides what a requested path is: one of the supported definition
    /// filenames, a regular file, in a directory that resolves.
    pub fn locate(
        requested: &HostPath,
        is_file: Result<bool, String>,
        root: Result<HostPath, String>,
    ) -> (result: Result<DefinitionFile, DefinitionError>)
        ensures
            match name_of_path(requested@) {
                None => result matches Err(DefinitionError::UnsupportedFilename(name)) && name@
                    == lossy(requested@),
                Some(name) => match is_file {
                    Err(text) => result matches Err(DefinitionError::Io { path, source }) && path@
                        == requested@ && source@ == text@,
                    Ok(false) => result matches Err(DefinitionError::NotAFile(path)) && path@
                        == requested@,
                    Ok(true) => match root {
                        Err(text) => result matches Err(DefinitionError::Io { path, source })
                            && path@ == parent_to_resolve(requested@) && source@ == text@,
                        Ok(directory) => match kind_of_name(name) {
                            None => result matches Err(DefinitionError::UnsupportedFilename(other))
                                && other@ == name,
                            Some(kind) => result matches Ok(file) && file.kind == kind
                                && file.root@ == directory@ && file.path@ == path_join(
                                directory@,
                                path_names(requested@).last(),
                            ),
                        },
                    },
                },
            },
    {
        let name = match requested.file_name() {
            Some(name) => name,
            None => {
                return Err(DefinitionError::UnsupportedFilename(requested.shown()));
            },
        };
        let filename = match name.to_text() {
            Some(filename) => filename,
            None => {
                return Err(DefinitionError::UnsupportedFilename(requested.shown()));
            },
        };
        match is_file {
            Err(source) => {
                return Err(DefinitionError::Io { path: requested.clone(), source });
            },
            Ok(regular) => {
                if !regular {
                    return Err(DefinitionError::NotAFile(requested.clone()));
                }
            },
        }
        let root = match root {
            Ok(root) => root,
            Err(source) => {
                return Err(
                    DefinitionError::Io { path: Project::parent_directory(requested), source },
                );
            },
        };
        match definition_kind(filename.as_str()) {
            None => Err(DefinitionError::UnsupportedFilename(filename)),
            Some(kind) => {
                let path = root.join_bytes(name.bytes.as_slice());
                Ok(DefinitionFile { path, root, kind })
            },
        }
    }

    /// Loads a located definition. A YAML definition comes with what was read
    /// of it, and is validated.
    pub fn open(file: DefinitionFile, contents: Option<YamlContents>) -> (result: Result<
        Project,
        DefinitionError,
    >)
        requires
            file.kind is Yaml ==> contents is Some,
        ensures
            file.kind is Pipelinefile ==> (result matches Ok(project) && project@ == (
            ProjectModel { path: file.path@, root: file.root@, config: None })),
            file.kind is Yaml ==> match contents->Some_0 {
                YamlContents::Unreadable(text) => result matches Err(
                    DefinitionError::Io { path, source },
                ) && path@ == file.path@ && source@ == text@,
                YamlContents::Malformed(text) => result matches Err(
                    DefinitionError::Yaml { path, source },
                ) && path@ == file.path@ && source@ == text@,
                YamlContents::Parsed(config) => match config_problem(
                    config@,
                ) {
                    Some(reason) => result matches Err(DefinitionError::Invalid(text)) && text@
                        == reason,
                    None => result matches Ok(project) && project@ == (ProjectModel {
                        path: file.path@,
                        root: file.root@,
                        config: Some(config@),
                    }),
                },
            },
    {
        let DefinitionFile { path, root, kind } = file;
        match kind {
            DefinitionKind::Pipelinefile => Ok(
                Project { path, root, definition: Definition::Pipelinefile },
            ),
            DefinitionKind::Yaml => match contents {
                Some(YamlContents::Unreadable(source)) => Err(DefinitionError::Io { path, source }),
                Some(YamlContents::Malformed(source)) => Err(
                    DefinitionError::Yaml { path, source },
                ),
                Some(YamlContents::Parsed(config)) => {
                    if let Err(error) = config.validate() {
                        return Err(error);
                    }
                    Ok(Project { path, root, definition: Definition::Yaml(config) })
                },
                None => Err(DefinitionError::NotAFile(path)),
            },
        }
    }

    pub fn path(&self) -> (path: &HostPath)
        ensures
            path@ == self@.path,
    {
        &self.path
    }

    pub fn root(&self) -> (root: &HostPath)
        ensures
            root@ == self@.root,
    {
        &self.root
    }

    pub fn kind(&self) -> (kind: DefinitionKind)
        ensures
            kind == (if self@.config is Some {
                DefinitionKind::Yaml
            } else {
                DefinitionKind::Pipelinefile
            }),
    {
        match self.definition {
            Definition::Pipelinefile => DefinitionKind::Pipelinefile,
            Definition::Yaml(_) => DefinitionKind::Yaml,
        }
    }

    /// The YAML definition, which is valid.
    pub fn yaml(&self) -> (yaml: Option<&PipelineConfig>)
        ensures
            yaml is Some <==> self@.config is Some,
            yaml matches Some(config) ==> self@.config == Some(config@) && valid_config(config@),
    {
        proof {
            use_type_invariant(self);
        }
        match &self.definition {
            Definition::Pipelinefile => None,
            Definition::Yaml(config) => Some(config),
        }
    }

    /// Resolves ordinary command-line arguments to a YAML selection.
    pub fn select(&self, arguments: &Vec<NativeText>) -> (result: Result<
        Selection,
        DefinitionError,
    >)
        ensures
            match self@.config {
                None => result matches Err(DefinitionError::Invalid(reason)) && reason@
                    == "Pipelinefile targets are passed directly to Just"@,
                Some(config) => selects(config, native_views(arguments@), result),
            },
    {
        match self.yaml() {
            None => Err(
                invalid(String::from_str("Pipelinefile targets are passed directly to Just")),
            ),
            Some(config) => config.select_pipelines(arguments),
        }
    }

    /// What a Git hook runs.
    pub fn selection_for_hook(&self, hook: &str) -> (result: Result<Selection, DefinitionError>)
        ensures
            match self@.config {
                None => result matches Err(DefinitionError::Invalid(reason)) && reason@
                    == "Pipelinefile hooks use the universal `hook` recipe"@,
                Some(config) => match hook_problem(hook@) {
                    Some(problem) => result matches Err(DefinitionError::Invalid(reason))
                        && reason@ == problem,
                    None => result matches Ok(selection) && selection@ == hook_selection(
                        config,
                        hook@,
                    ),
                },
            },
    {
        match self.yaml() {
            None => Err(
                invalid(String::from_str("Pipelinefile hooks use the universal `hook` recipe")),
            ),
            Some(config) => {
                proof {
                    valid_definitions_have_valid_selectors(config@, hook@);
                }
                config.selection_for_hook(hook)
            },
        }
    }

    /// The hooks that the project handles, in canonical order.
    pub fn managed_hooks(&self) -> (hooks: Vec<String>)
        ensures
            views(hooks@) == (match self@.config {
                None => supported_hooks(),
                Some(config) => declared_hooks(config),
            }),
    {
        match self.yaml() {
            None => supported_hook_list(),
            Some(config) => config.managed_hooks(),
        }
    }

    /// Holds the definition against a control boundary.
    fn validate_definition_boundary(&self, boundary: &ControlBoundary) -> (result: Result<
        (),
        DefinitionError,
    >)
        ensures
            match boundary_refusal(self@.path, *boundary) {
                None => result is Ok,
                Some(refusal) => result matches Err(error) && refuses(
                    error,
                    refusal,
                    self@.path,
                ),
            },
    {
        if !self.path.starts_with(&boundary.root) {
            return Err(
                invalid(
                    concat4(
                        "definition ",
                        self.path.shown().as_str(),
                        " is outside control boundary ",
                        boundary.root.shown().as_str(),
                    ),
                ),
            );
        }
        match &boundary.resolved {
            Err(text) => Err(
                DefinitionError::Io {
                    path: self.path.clone(),
                    source: String::from_str(text.as_str()),
                },
            ),
            Ok(target) => {
                if !target.starts_with(&boundary.root) {
                    return Err(
                        invalid(
                            concat4(
                                "definition ",
                                self.path.shown().as_str(),
                                " resolves outside control boundary ",
                                boundary.root.shown().as_str(),
                            ),
                        ),
                    );
                }
                Ok(())
            },
        }
    }

    /// The definition path, if it stays inside the boundary both as it is
    /// written and as it resolves.
    pub fn definition_path_with_boundary(&self, boundary: &ControlBoundary) -> (result: Result<
        HostPath,
        DefinitionError,
    >)
        ensures
            match boundary_refusal(self@.path, *boundary) {
                None => result matches Ok(path) && path@ == self@.path,
                Some(refusal) => result matches Err(error) && refuses(
                    error,
                    refusal,
                    self@.path,
                ),
            },
    {
        if let Err(error) = self.validate_definition_boundary(boundary) {
            return Err(error);
        }
        Ok(self.path.clone())
    }

    /// Every control file that the project loads itself: the definition and,
    /// for YAML, the ordinary Justfile of nested invocations.
    pub fn control_paths(&self, justfile: Option<Result<HostPath, DefinitionError>>) -> (result:
        Result<Vec<HostPath>, DefinitionError>)
        requires
            self@.config is Some ==> justfile is Some,
        ensures
            self@.config is None ==> (result matches Ok(list) && path_views(list@) == seq![
                self@.path,
            ]),
            self@.config is Some ==> match justfile->Some_0 {
                Err(error) => result == Err::<Vec<HostPath>, DefinitionError>(error),
                Ok(found) => result matches Ok(list) && path_views(list@) == seq![
                    self@.path,
                    found@,
                ],
            },
    {
        let mut list: Vec<HostPath> = Vec::new();
        list.push(self.path.clone());
        if let DefinitionKind::Yaml = self.kind() {
            match justfile {
                Some(Ok(found)) => {
                    list.push(found);
                },
                Some(Err(error)) => {
                    return Err(error);
                },
                None => {},
            }
        }
        proof {
            if self@.config is Some {
                assert(path_views(list@) =~= seq![self@.path, justfile->Some_0->Ok_0@]);
            } else {
                assert(path_views(list@) =~= seq![self@.path]);
            }
        }
        Ok(list)
    }

    /// The control files, each held against the boundary.
    pub fn control_paths_with_boundary(
        &self,
        boundary: &ControlBoundary,
        justfile: Option<Result<HostPath, DefinitionError>>,
    ) -> (result: Result<Vec<HostPath>, DefinitionError>)
        requires
            self@.config is Some ==> justfile is Some,
        ensures
            match boundary_refusal(self@.path, *boundary) {
                Some(refusal) => result matches Err(error) && refuses(
                    error,
                    refusal,
                    self@.path,
                ),
                None => {
                    &&& self@.config is None ==> (result matches Ok(list) && path_views(list@)
                        == seq![self@.path])
                    &&& self@.config is Some ==> match justfile->Some_0 {
                        Err(error) => result == Err::<Vec<HostPath>, DefinitionError>(error),
                        Ok(found) => result matches Ok(list) && path_views(list@) == seq![
                            self@.path,
                            found@,
                        ],
                    }
                },
            },
    {
        if let Err(error) = self.validate_definition_boundary(boundary) {
            return Err(error);
        }
        self.control_paths(justfile)
    }

    /// Renders a YAML selection to run in the project's own directory.
    pub fn render(
        &self,
        selection: &Selection,
        just_executable: &HostPath,
        job_limit: JobLimit,
        no_deps: bool,
        justfile: Option<Result<HostPath, DefinitionError>>,
    ) -> (result: Result<RenderedPipeline, DefinitionError>)
        requires
            self@.config is Some ==> justfile is Some,
        ensures
            match self@.config {
                None => result matches Err(DefinitionError::Invalid(reason)) && reason@
                    == "a Pipelinefile does not need rendering"@,
                Some(config) => renders(
                    config,
                    *selection,
                    self@.root,
                    just_executable@,
                    justfile->Some_0,
                    job_limit,
                    no_deps,
                    result,
                ),
            },
    {
        match (self.yaml(), justfile) {
            (Some(config), Some(found)) => {
                proof {
                    valid_definitions_resolve(config@);
                }
                match found {
                    Err(error) => Err(error),
                    Ok(control) => config.render(
                        selection,
                        &self.root,
                        just_executable,
                        Some(&control),
                        job_limit,
                        no_deps,
                    ),
                }
            },
            _ => Err(invalid(String::from_str("a Pipelinefile does not need rendering"))),
        }
    }

    /// Prepares a direct invocation of a Pipelinefile, or selects what of a
    /// YAML definition is to be rendered.
    pub fn prepare(&self, just_executable: &HostPath, options: &RunOptions) -> (result: Result<
        Preparation,
        DefinitionError,
    >)
        ensures
            match self@.config {
                None => result matches Ok(Preparation::Ready(run)) && run@ == direct_run(
                    self@.path,
                    self@.root,
                    just_executable@,
                    *options,
                ),
                Some(config) => match result {
                    Ok(Preparation::Ready(_)) => false,
                    Ok(Preparation::Render(selection)) => selects(
                        config,
                        native_views(options.arguments@),
                        Ok(selection),
                    ),
                    Err(error) => selects(config, native_views(options.arguments@), Err(error)),
                },
            },
    {
        match self.yaml() {
            None => {
                let directory = match &options.working_directory {
                    Some(path) => path.clone(),
                    None => self.root.clone(),
                };
                let mut arguments = file_arguments(&self.path, &directory);
                append_outer_options(&mut arguments, options.job_limit, options.no_deps);
                append_all(&mut arguments, &options.arguments);
                Ok(
                    Preparation::Ready(
                        PreparedRun::new(just_executable.clone(), arguments, directory, options),
                    ),
                )
            },
            Some(config) => match config.select_pipelines(&options.arguments) {
                Ok(selection) => Ok(Preparation::Render(selection)),
                Err(error) => Err(error),
            },
        }
    }

    /// Renders an explicit YAML selection for a run with the given options.
    pub fn prepare_selection(
        &self,
        selection: &Selection,
        just_executable: &HostPath,
        options: &RunOptions,
        justfile: Option<Result<HostPath, DefinitionError>>,
    ) -> (result: Result<RenderedPipeline, DefinitionError>)
        requires
            self@.config is Some ==> justfile is Some,
        ensures
            match self@.config {
                None => result matches Err(DefinitionError::Invalid(reason)) && reason@
                    == "explicit selections only apply to YAML definitions"@,
                Some(config) => renders(
                    config,
                    *selection,
                    run_directory(*options, self@.root),
                    just_executable@,
                    justfile->Some_0,
                    options.job_limit,
                    options.no_deps,
                    result,
                ),
            },
    {
        match (self.yaml(), justfile) {
            (Some(config), Some(found)) => {
                proof {
                    valid_definitions_resolve(config@);
                }
                let directory = match &options.working_directory {
                    Some(path) => path.clone(),
                    None => self.root.clone(),
                };
                match found {
                    Err(error) => Err(error),
                    Ok(control) => config.render(
                        selection,
                        &directory,
                        just_executable,
                        Some(&control),
                        options.job_limit,
                        options.no_deps,
                    ),
                }
            },
            _ => Err(
                invalid(String::from_str("explicit selections only apply to YAML definitions")),
            ),
        }
    }
}

} // verus!
