//! How Just is started.

use crate::definition::error::DefinitionError;
use crate::definition::limits::JobLimit;
use crate::definition::model::ConfigModel;
use crate::definition::project::{
    outer_options, DefinitionFile, DefinitionKind, Preparation, PreparedRun, Project, RunModel,
    RunOptions, YamlContents,
};
use crate::definition::render::RenderedPipeline;
use crate::definition::selection::TargetModel;
use crate::definition::targets::{decoded, distinct, distinct_keeps_every_name, names_pipeline};
use crate::native::{
    join_adds_one_component, last_component_is_plain, native_text_round_trip, native_views,
    path_names, rooted, HostPath,
};
use crate::text::{decimal, first_position, lemma_first_position, lemma_first_position_is};
use vstd::prelude::*;
use vstd::utf8::{decode_utf8, encode_utf8, valid_utf8};

verus! {

/// The options of Just, as far as Pipeline uses them.
pub struct JustOptions {
    pub justfile: Option<Seq<u8>>,
    pub directory: Option<Seq<u8>>,
    pub jobs: Option<Seq<u8>>,
    pub no_deps: bool,
}

/// Just reads options: each is followed by its value, except `--no-deps`.
pub open spec fn read_options(list: Seq<Seq<u8>>) -> Option<JustOptions>
    decreases list.len(),
{
    if list.len() == 0 {
        Some(JustOptions { justfile: None, directory: None, jobs: None, no_deps: false })
    } else if list[0] == encode_utf8("--no-deps"@) {
        match read_options(list.skip(1)) {
            Some(rest) => Some(JustOptions { no_deps: true, ..rest }),
            None => None,
        }
    } else if list.len() >= 2 {
        match read_options(list.skip(2)) {
            Some(rest) => if list[0] == encode_utf8("--justfile"@) {
                Some(JustOptions { justfile: Some(list[1]), ..rest })
            } else if list[0] == encode_utf8("--working-directory"@) {
                Some(JustOptions { directory: Some(list[1]), ..rest })
            } else if list[0] == encode_utf8("--jobs"@) {
                Some(JustOptions { jobs: Some(list[1]), ..rest })
            } else {
                None
            },
            None => None,
        }
    } else {
        None
    }
}

/// Just is started with these options, and then with `targets`.
pub open spec fn starts_just(
    run: RunModel,
    options: JustOptions,
    targets: Seq<Seq<u8>>,
) -> bool {
    let n = run.arguments.len() - targets.len();
    &&& 0 <= n
    &&& run.arguments.skip(n) == targets
    &&& read_options(run.arguments.take(n)) == Some(options)
}

/// The number of jobs that was asked for, if any was.
pub open spec fn asked_jobs(limit: JobLimit) -> Option<Seq<u8>> {
    match limit {
        JobLimit::Default => None,
        JobLimit::PerProcess(jobs) => Some(encode_utf8(decimal(jobs@))),
        JobLimit::Capped(jobs) => Some(encode_utf8(decimal(jobs@))),
    }
}

/// The directory that was asked for, or else the project's own.
pub open spec fn asked_directory(options: RunOptions, own: Seq<u8>) -> Seq<u8> {
    if options.working_directory is Some {
        options.working_directory->Some_0@
    } else {
        own
    }
}

proof fn lemma_flags_differ()
    ensures
        encode_utf8("--no-deps"@) != encode_utf8("--justfile"@),
        encode_utf8("--no-deps"@) != encode_utf8("--working-directory"@),
        encode_utf8("--no-deps"@) != encode_utf8("--jobs"@),
        encode_utf8("--justfile"@) != encode_utf8("--working-directory"@),
        encode_utf8("--justfile"@) != encode_utf8("--jobs"@),
        encode_utf8("--working-directory"@) != encode_utf8("--jobs"@),
{
    reveal_strlit("--no-deps");
    reveal_strlit("--justfile");
    reveal_strlit("--working-directory");
    reveal_strlit("--jobs");
    native_text_round_trip("--no-deps"@);
    native_text_round_trip("--justfile"@);
    native_text_round_trip("--working-directory"@);
    native_text_round_trip("--jobs"@);
}

proof fn lemma_outer(limit: JobLimit, no_deps: bool)
    ensures
        read_options(outer_options(limit, no_deps)) == Some(
            JustOptions { justfile: None, directory: None, jobs: asked_jobs(limit), no_deps },
        ),
{
    lemma_flags_differ();
    reveal_with_fuel(read_options, 3);
    let list = outer_options(limit, no_deps);
    let none: Seq<Seq<u8>> = seq![];
    let last: Seq<Seq<u8>> = if no_deps {
        seq![encode_utf8("--no-deps"@)]
    } else {
        none
    };
    assert(read_options(none).is_some());
    assert(last.len() > 0 ==> last.skip(1) =~= none);
    assert(read_options(last) == Some(
        JustOptions { justfile: None, directory: None, jobs: None, no_deps },
    ));
    match asked_jobs(limit) {
        Some(jobs) => {
            assert(list[0] == encode_utf8("--jobs"@) && list[1] == jobs);
            assert(list.skip(2) =~= last);
        },
        None => {
            assert(list =~= last);
        },
    }
}

proof fn lemma_options(
    list: Seq<Seq<u8>>,
    justfile: Seq<u8>,
    directory: Seq<u8>,
    limit: JobLimit,
    no_deps: bool,
)
    requires
        list == seq![
            encode_utf8("--justfile"@),
            justfile,
            encode_utf8("--working-directory"@),
            directory,
        ] + outer_options(limit, no_deps),
    ensures
        read_options(list) == Some(
            JustOptions {
                justfile: Some(justfile),
                directory: Some(directory),
                jobs: asked_jobs(limit),
                no_deps,
            },
        ),
{
    lemma_flags_differ();
    lemma_outer(limit, no_deps);
    let rest = outer_options(limit, no_deps);
    let middle = seq![encode_utf8("--working-directory"@), directory] + rest;
    assert(list.skip(2) =~= middle);
    assert(middle.skip(2) =~= rest);
    assert(middle[0] == encode_utf8("--working-directory"@) && middle[1] == directory);
    assert(read_options(middle) == Some(
        JustOptions {
            justfile: None,
            directory: Some(directory),
            jobs: asked_jobs(limit),
            no_deps,
        },
    ));
    assert(list[0] == encode_utf8("--justfile"@) && list[1] == justfile);
}

/// A Pipelinefile is handed to Just as it is: with its own path, the directory,
/// the limit and `--no-deps` as they were asked for, then the targets. Without a
/// directory the recipes run where the project is. What the run is started in,
/// its environment and its input are what was asked for.
pub proof fn pipelinefiles_run_as_asked(
    project: &Project,
    just_executable: &HostPath,
    options: &RunOptions,
    result: Result<Preparation, DefinitionError>,
)
    requires
        project@.config is None,
        call_ensures(Project::prepare, (project, just_executable, options), result),
    ensures
        result matches Ok(Preparation::Ready(run)) && {
            &&& run@.program == just_executable@
            &&& run@.working_directory == asked_directory(*options, project@.root)
            &&& run@.stdin == options.stdin@
            &&& run@.environment.len() == options.environment@.len()
            &&& forall|i: int|
                0 <= i < options.environment@.len() ==> #[trigger] run@.environment[i] == (
                    options.environment@[i].0@,
                    options.environment@[i].1@,
                )
            &&& starts_just(
                run@,
                JustOptions {
                    justfile: Some(project@.path),
                    directory: Some(asked_directory(*options, project@.root)),
                    jobs: asked_jobs(options.job_limit),
                    no_deps: options.no_deps,
                },
                native_views(options.arguments@),
            )
        },
{
    let run = result->Ok_0->Ready_0;
    let directory = asked_directory(*options, project@.root);
    let head = seq![
        encode_utf8("--justfile"@),
        project@.path,
        encode_utf8("--working-directory"@),
        directory,
    ] + outer_options(options.job_limit, options.no_deps);
    let targets = native_views(options.arguments@);
    assert(run@.arguments =~= head + targets);
    let n = run@.arguments.len() - targets.len();
    assert(run@.arguments.take(n) =~= head);
    assert(run@.arguments.skip(n) =~= targets);
    lemma_options(head, project@.path, directory, options.job_limit, options.no_deps);
}

/// A compiled definition is started by its entry point, in the directory that it
/// was compiled for. The scheduler is never told to skip dependencies.
pub proof fn compiled_definitions_run_their_entry_point(
    rendered: &RenderedPipeline,
    file: &HostPath,
    just_executable: &HostPath,
    options: &RunOptions,
    run: PreparedRun,
)
    requires
        call_ensures(PreparedRun::generated, (rendered, file, just_executable, options), run),
    ensures
        run@.program == just_executable@,
        run@.working_directory == rendered.working_directory@,
        run@.stdin == options.stdin@,
        run@.environment.len() == options.environment@.len(),
        forall|i: int|
            0 <= i < options.environment@.len() ==> #[trigger] run@.environment[i] == (
                options.environment@[i].0@,
                options.environment@[i].1@,
            ),
        starts_just(
            run@,
            JustOptions {
                justfile: Some(file@),
                directory: Some(rendered.working_directory@),
                jobs: asked_jobs(options.job_limit),
                no_deps: false,
            },
            seq![encode_utf8(rendered.entrypoint@)],
        ),
{
    let directory = rendered.working_directory@;
    let head = seq![
        encode_utf8("--justfile"@),
        file@,
        encode_utf8("--working-directory"@),
        directory,
    ] + outer_options(options.job_limit, false);
    let targets = seq![encode_utf8(rendered.entrypoint@)];
    assert(run@.arguments =~= head + targets);
    let n = run@.arguments.len() - targets.len();
    assert(run@.arguments.take(n) =~= head);
    assert(run@.arguments.skip(n) =~= targets);
    lemma_options(head, file@, directory, options.job_limit, false);
}

/// A definition is one of the three files that Pipeline knows. Its project is
/// the directory that the file stands in.
pub proof fn projects_are_where_their_definition_is(
    requested: &HostPath,
    directory: HostPath,
    file: DefinitionFile,
)
    requires
        rooted(directory@),
        call_ensures(Project::locate, (requested, Ok(true), Ok(directory)), Ok(file)),
    ensures
        file.root@ == directory@,
        path_names(file.path@) == path_names(file.root@).push(path_names(requested@).last()),
        ({
            let name = decode_utf8(path_names(requested@).last());
            match file.kind {
                DefinitionKind::Pipelinefile => name == "Pipelinefile"@,
                DefinitionKind::Yaml => name == "pipeline.yml"@ || name == ".pipeline.yml"@,
            }
        }),
{
    last_component_is_plain(requested@);
    let names = path_names(requested@);
    join_adds_one_component(directory@, names.last());
}

/// Only a regular file with one of the three names, in a directory that
/// resolves, is a definition.
pub proof fn nothing_else_is_a_definition(
    requested: &HostPath,
    is_file: Result<bool, String>,
    root: Result<HostPath, String>,
    result: Result<DefinitionFile, DefinitionError>,
)
    requires
        call_ensures(Project::locate, (requested, is_file, root), result),
    ensures
        ({
            let names = path_names(requested@);
            let known = |text: Seq<char>|
                names.len() > 0 && valid_utf8(names.last()) && decode_utf8(names.last()) == text;
            result is Ok <==> is_file == Ok::<bool, String>(true) && root is Ok && (known(
                "Pipelinefile"@,
            ) || known("pipeline.yml"@) || known(".pipeline.yml"@))
        }),
{
    let names = path_names(requested@);
    if names.len() > 0 && valid_utf8(names.last()) {
        let name = names.last();
        if name == seq![crate::native::DOT] || name == seq![crate::native::DOT, crate::native::DOT] {
            reveal_strlit("Pipelinefile");
            reveal_strlit("pipeline.yml");
            reveal_strlit(".pipeline.yml");
            reveal_strlit(".");
            reveal_strlit("..");
            vstd::utf8::is_ascii_chars_encode_utf8("."@);
            vstd::utf8::is_ascii_chars_encode_utf8(".."@);
            native_text_round_trip("."@);
            native_text_round_trip(".."@);
            assert(encode_utf8("."@) =~= seq![crate::native::DOT]);
            assert(encode_utf8(".."@) =~= seq![crate::native::DOT, crate::native::DOT]);
        }
    }
}

/// A located definition is opened as it is: a project has the path, the
/// directory and the contents of its definition.
pub proof fn projects_are_opened_as_located(
    file: DefinitionFile,
    contents: Option<YamlContents>,
    project: Project,
)
    requires
        file.kind is Yaml ==> contents is Some,
        call_ensures(Project::open, (file, contents), Ok(project)),
    ensures
        project@.path == file.path@,
        project@.root == file.root@,
        file.kind is Pipelinefile ==> project@.config is None,
        file.kind is Yaml ==> (contents matches Some(YamlContents::Parsed(config))
            && project@.config == Some(config@)),
{
}

proof fn lemma_first_of_push(list: Seq<Seq<char>>, last: Seq<char>, name: Seq<char>)
    ensures
        list.contains(name) ==> first_position(list.push(last), name) == first_position(list, name)
            && first_position(list, name) < list.len(),
        !list.contains(name) && name == last ==> first_position(list.push(last), name)
            == list.len(),
{
    let grown = list.push(last);
    lemma_first_position(list, name);
    if list.contains(name) {
        let i = choose|i: int| 0 <= i < list.len() && list[i] == name;
        assert(list[i] == name);
        let n = first_position(list, name);
        assert forall|k: int| 0 <= k < n implies grown[k] != name by {
            assert(grown[k] == list[k]);
        }
        lemma_first_position_is(grown, name, n);
    } else if name == last {
        assert forall|k: int| 0 <= k < list.len() implies grown[k] != name by {
            assert(list.contains(list[k]));
        }
        lemma_first_position_is(grown, name, list.len() as int);
    }
}

proof fn lemma_distinct_in_order(values: Seq<Seq<char>>)
    ensures
        forall|a: int, b: int|
            0 <= a < b < distinct(values).len() ==> first_position(
                values,
                #[trigger] distinct(values)[a],
            ) < first_position(values, #[trigger] distinct(values)[b]),
    decreases values.len(),
{
    if values.len() > 0 {
        let front = values.drop_last();
        let last = values.last();
        let rest = distinct(front);
        let list = distinct(values);
        lemma_distinct_in_order(front);
        distinct_keeps_every_name(front);
        assert(values =~= front.push(last));
        assert forall|a: int, b: int| 0 <= a < b < list.len() implies first_position(
            values,
            #[trigger] list[a],
        ) < first_position(values, #[trigger] list[b]) by {
            assert(rest.contains(rest[a]));
            lemma_first_of_push(front, last, list[a]);
            if b < rest.len() {
                assert(rest.contains(rest[b]));
            }
            lemma_first_of_push(front, last, list[b]);
        }
    }
}

/// The selection has each named pipeline once, in the order in which they were
/// named first.
pub open spec fn selects_the_named(names: Seq<Seq<char>>, targets: Seq<TargetModel>) -> bool {
    &&& forall|t: int|
        0 <= t < targets.len() ==> (#[trigger] targets[t] matches TargetModel::Pipeline(name)
            && names.contains(name))
    &&& forall|k: int|
        0 <= k < names.len() ==> targets.contains(TargetModel::Pipeline(#[trigger] names[k]))
    &&& forall|a: int, b: int|
        0 <= a < b < targets.len() ==> first_position(
            names,
            (#[trigger] targets[a])->Pipeline_0,
        ) < first_position(names, (#[trigger] targets[b])->Pipeline_0)
}

/// Without a target the pipeline that is declared first is run; otherwise the
/// pipelines that are named, if the definition has all of them.
pub proof fn targets_name_pipelines(
    project: &Project,
    just_executable: &HostPath,
    options: &RunOptions,
    config: ConfigModel,
    result: Result<Preparation, DefinitionError>,
)
    requires
        project@.config == Some(config),
        call_ensures(Project::prepare, (project, just_executable, options), result),
    ensures
        options.arguments@.len() == 0 ==> (result matches Ok(Preparation::Render(selection))
            && selection@ == seq![TargetModel::Pipeline(config.pipelines[0].0)]),
        options.arguments@.len() > 0 ==> {
            let arguments = native_views(options.arguments@);
            let all_known = forall|i: int|
                0 <= i < arguments.len() ==> valid_utf8(#[trigger] arguments[i]) && exists|p: int|
                    0 <= p < config.pipelines.len() && (#[trigger] config.pipelines[p]).0
                        == decode_utf8(arguments[i]);
            &&& result is Ok <==> all_known
            &&& result matches Ok(preparation) ==> (preparation matches Preparation::Render(
                selection,
            ) && selects_the_named(decoded(arguments), selection@))
        },
{
    let arguments = native_views(options.arguments@);
    assert(arguments.len() == options.arguments@.len());
    assert forall|i: int| 0 <= i < arguments.len() implies (names_pipeline(
        config,
        #[trigger] arguments[i],
    ) <==> valid_utf8(arguments[i]) && exists|p: int|
        0 <= p < config.pipelines.len() && (#[trigger] config.pipelines[p]).0 == decode_utf8(
            arguments[i],
        )) by {
        let keys = crate::definition::model::keys(config.pipelines);
        let name = decode_utf8(arguments[i]);
        if keys.contains(name) {
            let p = choose|p: int| 0 <= p < keys.len() && keys[p] == name;
            assert(config.pipelines[p].0 == name);
        }
        if exists|p: int|
            0 <= p < config.pipelines.len() && (#[trigger] config.pipelines[p]).0 == name {
            let p = choose|p: int|
                0 <= p < config.pipelines.len() && (#[trigger] config.pipelines[p]).0 == name;
            assert(keys[p] == name);
        }
    }
    if options.arguments@.len() > 0 && result is Ok {
        let names = decoded(arguments);
        let list = distinct(names);
        let targets = (result->Ok_0->Render_0)@;
        distinct_keeps_every_name(names);
        lemma_distinct_in_order(names);
        assert forall|t: int| 0 <= t < targets.len() implies (
        #[trigger] targets[t] matches TargetModel::Pipeline(name) && names.contains(name)) by {
            assert(list.contains(list[t]));
        }
        assert forall|k: int| 0 <= k < names.len() implies targets.contains(
            TargetModel::Pipeline(#[trigger] names[k]),
        ) by {
            assert(names.contains(names[k]));
            let t = choose|t: int| 0 <= t < list.len() && list[t] == names[k];
            assert(targets[t] == TargetModel::Pipeline(names[k]));
        }
    }
}

} // verus!
