//! What is checked, and what is said of what does not pass.

use crate::definition::cycle::{edges, find_cycle, ints, is_graph};
use crate::definition::error::DefinitionError;
use crate::definition::validate::{
    detect_cycle, is_identifier, reject_duplicates, validate_hook, validate_identifier,
    validate_just_path,
};
use crate::dispatch::input::unicode_argument;
use crate::error::PipelineError;
use crate::hooks::error::HookError;
use crate::hooks::git::{ensure_git_success, git_text, output_text, GitOutput};
use crate::hooks::install::{
    resolve_install_mode, validate_install_layout, LayoutProbes, PathLookup, SourceFacts,
};
use crate::hooks::repository::Repository;
use crate::hooks::request::InstallMode;
use crate::hooks::validate_hooks;
use crate::just_runtime::version::JustVersion;
use crate::native::{path_names, rooted, HostPath, NativeText};
use crate::policy::{LayerContents, Policy, PolicyError};
use crate::promises::asking::{answers, lemma_answer};
use crate::promises::finding::bare;
use crate::promises::installing::{can_be_installed, has_room, in_search_path};
use crate::promises::selecting::git_hooks;
use crate::promises::validating::{
    lemma_name, lemma_no_colon, name_char, proper_name, without_repetition,
};
use crate::text::{decimal, path_parts, views};
use vstd::prelude::*;
use vstd::utf8::encode_utf8;

verus! {

/// Names begin with a letter or an underscore and go on with letters, digits,
/// underscores and hyphens. What is none is named, with what it was for.
pub proof fn names_are_spelled_properly(
    name: &str,
    kind: &str,
    yes: bool,
    result: Result<(), DefinitionError>,
)
    requires
        call_ensures(is_identifier, (name,), yes),
        call_ensures(validate_identifier, (name, kind), result),
    ensures
        yes <==> proper_name(name@),
        result is Ok <==> yes,
        name@.len() == 0 ==> (result matches Err(DefinitionError::Invalid(reason)) && reason@
            == kind@ + " name cannot be empty"@),
        name@.len() > 0 && !yes ==> (result matches Err(DefinitionError::Invalid(reason)) && reason@
            == "invalid "@ + kind@ + " name `"@ + name@
            + "`; expected [A-Za-z_][A-Za-z0-9_-]*"@),
{
    lemma_name(name@);
}

/// Names with two colons between them.
pub open spec fn behind_colons(names: Seq<Seq<char>>) -> Seq<char>
    decreases names.len(),
{
    if names.len() == 0 {
        seq![]
    } else if names.len() == 1 {
        names[0]
    } else {
        names[0] + "::"@ + behind_colons(names.drop_first())
    }
}

pub open spec fn all_proper(names: Seq<Seq<char>>) -> bool {
    forall|i: int| 0 <= i < names.len() ==> proper_name(#[trigger] names[i])
}

/// A recipe is a proper name, or one behind the names of its modules.
pub proof fn recipes_are_named_with_their_modules(
    value: &str,
    result: Result<(), DefinitionError>,
    names: Seq<Seq<char>>,
)
    requires
        call_ensures(validate_just_path, (value,), result),
    ensures
        names.len() > 0 && all_proper(names) && value@ == behind_colons(names) ==> result is Ok,
        result is Ok ==> all_proper(path_parts(value@)) && value@ == behind_colons(
            path_parts(value@),
        ),
        result matches Err(error) ==> (error matches DefinitionError::Invalid(reason) && reason@
            == "invalid Just target path"@),
{
    if names.len() > 0 && all_proper(names) && value@ == behind_colons(names) {
        lemma_behind_colons(names);
        assert forall|i: int| 0 <= i < path_parts(value@).len() implies
            crate::definition::check::identifier(#[trigger] path_parts(value@)[i]) by {
            assert(proper_name(names[i]));
            lemma_name(names[i]);
        }
    }
    lemma_parts(value@);
    if result is Ok {
        let parts = path_parts(value@);
        assert forall|i: int| 0 <= i < parts.len() implies proper_name(#[trigger] parts[i]) by {
            lemma_name(parts[i]);
        }
    }
}

proof fn lemma_behind_colons(names: Seq<Seq<char>>)
    requires
        names.len() > 0,
        all_proper(names),
    ensures
        path_parts(behind_colons(names)) == names,
    decreases names.len(),
{
    reveal_strlit("::");
    let first = names[0];
    assert(proper_name(names[0]));
    assert forall|i: int| 0 <= i < first.len() implies #[trigger] first[i] != ':' by {
        assert(name_char(first[i]));
    }
    let none: Seq<char> = seq![];
    if names.len() == 1 {
        lemma_no_colon(first, none);
        assert(first + none =~= first);
        assert(seq![first] =~= names);
    } else {
        let rest = names.drop_first();
        assert forall|i: int| 0 <= i < rest.len() implies proper_name(#[trigger] rest[i]) by {
            assert(rest[i] == names[i + 1]);
        }
        lemma_behind_colons(rest);
        let tail = "::"@ + behind_colons(rest);
        lemma_no_colon(first, tail);
        let whole = behind_colons(names);
        let n = first.len() as int;
        assert(whole =~= first + tail);
        assert(whole.take(n) =~= first);
        assert(whole.skip(n + 2) =~= behind_colons(rest));
        assert(seq![first] + rest =~= names);
    }
}

proof fn lemma_parts(text: Seq<char>)
    ensures
        path_parts(text).len() > 0,
        behind_colons(path_parts(text)) == text,
    decreases text.len(),
{
    reveal_strlit("::");
    crate::promises::compiling::lemma_colons_at(text);
    let n = crate::text::double_colon(text);
    if n + 2 <= text.len() {
        let rest = text.skip(n + 2);
        lemma_parts(rest);
        assert(path_parts(text) =~= seq![text.take(n)] + path_parts(rest));
        assert(path_parts(text).drop_first() =~= path_parts(rest));
        assert(behind_colons(path_parts(text)) =~= text);
    }
}

/// A hook of a definition is one of Git, or is named.
pub proof fn definitions_name_real_hooks(
    hook: &str,
    result: Result<(), DefinitionError>,
    list: &Vec<String>,
    checked: Result<(), HookError>,
    k: int,
)
    requires
        call_ensures(validate_hook, (hook,), result),
        call_ensures(validate_hooks, (list,), checked),
    ensures
        result is Ok <==> git_hooks().contains(hook@),
        result matches Err(error) ==> (error matches DefinitionError::Invalid(reason) && reason@
            == "unknown Git hook `"@ + hook@ + "`"@),
        checked is Ok && 0 <= k < list@.len() ==> git_hooks().contains(list@[k]@),
        0 <= k < list@.len() && !git_hooks().contains(list@[k]@) && (forall|i: int|
            0 <= i < k ==> git_hooks().contains((#[trigger] list@[i])@)) ==> (checked matches Err(
            HookError::UnsupportedHook(name),
        ) && name@ == list@[k]@),
{
    crate::promises::selecting::lemma_git_hooks();
    let all = views(list@);
    assert(all.len() == list@.len());
    if 0 <= k < list@.len() {
        assert(all[k] == list@[k]@);
        if checked is Ok {
            assert(crate::hooks::supported(all[k]));
        }
        if !git_hooks().contains(list@[k]@) && (forall|i: int|
            0 <= i < k ==> git_hooks().contains((#[trigger] list@[i])@)) {
            assert(!crate::hooks::supported(all[k]));
            let n = choose|n: int|
                0 <= n < all.len() && !crate::hooks::supported(#[trigger] all[n])
                    && crate::hooks::all_supported(all.take(n)) && checked->Err_0->UnsupportedHook_0@
                    == all[n];
            if n < k {
                assert(git_hooks().contains(list@[n]@));
                assert(all[n] == list@[n]@);
            }
            if k < n {
                assert(all.take(n)[k] == all[k]);
                assert(crate::hooks::supported(all.take(n)[k]));
            }
        }
    }
}

/// A list passes if nothing stands in it twice; otherwise the first that does is
/// named.
pub proof fn repetitions_are_named(
    values: &Vec<String>,
    description: &str,
    result: Result<(), DefinitionError>,
    k: int,
)
    requires
        call_ensures(reject_duplicates, (values, description), result),
    ensures
        result is Ok <==> without_repetition(views(values@)),
        0 <= k < values@.len() && without_repetition(views(values@).take(k)) && views(values@).take(
            k,
        ).contains(values@[k]@) ==> (result matches Err(DefinitionError::Invalid(reason)) && reason@
            == "duplicate `"@ + values@[k]@ + "` in "@ + description@),
{
    let all = views(values@);
    let f = crate::definition::check::duplicate_problems(all, description@);
    let n = all.len() as int;
    assert(n == values@.len());
    crate::definition::error::lemma_no_problem(n, f);
    if without_repetition(all) {
        assert forall|i: int| 0 <= i < n implies #[trigger] f(i) is None by {
            if all.take(i).contains(all[i]) {
                let j = choose|j: int| 0 <= j < all.take(i).len() && all.take(i)[j] == all[i];
                assert(all[j] == all[i]);
            }
        }
    }
    if forall|i: int| 0 <= i < n ==> #[trigger] f(i) is None {
        assert forall|i: int, j: int| 0 <= i < j < all.len() implies all[i] != all[j] by {
            assert(f(j) is None);
            if all[i] == all[j] {
                assert(all.take(j)[i] == all[j]);
                assert(all.take(j).contains(all[j]));
            }
        }
    }
    if 0 <= k < n && without_repetition(all.take(k)) && all.take(k).contains(values@[k]@) {
        assert(all[k] == values@[k]@);
        assert(f(k) is Some);
        assert forall|i: int| 0 <= i < k implies #[trigger] f(i) is None by {
            if all.take(i).contains(all[i]) {
                let j = choose|j: int| 0 <= j < all.take(i).len() && all.take(i)[j] == all[i];
                assert(all.take(k)[j] == all.take(k)[i]);
            }
        }
        crate::definition::error::lemma_no_problem(k, f);
        assert(crate::definition::error::first_problem(k + 1, f) == f(k));
        crate::definition::error::lemma_problem_stays(k + 1, n, f);
    }
}

/// One depends on the other.
pub open spec fn depends(graph: Seq<Vec<usize>>, from: int, to: int) -> bool {
    exists|k: int| 0 <= k < graph[from]@.len() && #[trigger] graph[from]@[k] == to
}

/// A cycle that is found is one: it ends where it began, and every node of it
/// depends on the next.
pub proof fn cycles_lead_back(graph: &Vec<Vec<usize>>, cycle: Option<Vec<usize>>, i: int)
    requires
        is_graph(edges(graph@)),
        call_ensures(find_cycle, (graph,), cycle),
    ensures
        cycle matches Some(path) ==> {
            &&& path@.len() >= 2
            &&& path@[0] == path@.last()
            &&& 0 <= i < path@.len() - 1 ==> path@[i] < graph@.len() && depends(
                graph@,
                path@[i] as int,
                path@[i + 1] as int,
            )
        },
{
    if let Some(path) = cycle {
        let nodes = ints(path@);
        assert(nodes.len() == path@.len());
        assert(nodes[0] == path@[0]);
        assert(nodes.last() == path@.last());
        if 0 <= i < path@.len() - 1 {
            assert(nodes[i] == path@[i]);
            assert(nodes[i + 1] == path@[i + 1]);
            assert(edges(graph@)[nodes[i]].contains(nodes[i + 1]));
            let all = ints(graph@[nodes[i]]@);
            let k = choose|k: int| 0 <= k < all.len() && all[k] == nodes[i + 1];
            assert(graph@[nodes[i]]@[k] == nodes[i + 1]);
        }
    }
}

/// Where ranks fall along every dependency there is no cycle, and none is found.
pub proof fn ordered_graphs_have_no_cycle(
    graph: &Vec<Vec<usize>>,
    names: &Vec<String>,
    kind: &str,
    rank: spec_fn(int) -> int,
    cycle: Option<Vec<usize>>,
    result: Result<(), DefinitionError>,
)
    requires
        is_graph(edges(graph@)),
        names@.len() == graph@.len(),
        forall|i: int, k: int|
            0 <= i < graph@.len() && 0 <= k < graph@[i]@.len() ==> rank(
                #[trigger] graph@[i]@[k] as int,
            ) < rank(i),
        call_ensures(find_cycle, (graph,), cycle),
        call_ensures(detect_cycle, (names, graph, kind), result),
    ensures
        cycle is None,
        result is Ok,
{
    let all = edges(graph@);
    let flat = |i: int| 0int;
    assert forall|i: int, k: int| 0 <= i < all.len() && 0 <= k < all[i].len() implies ({
        let to = #[trigger] all[i][k];
        rank(to) < rank(i) || (rank(to) == rank(i) && flat(to) < flat(i))
    }) by {
        assert(all[i][k] == graph@[i]@[k] as int);
    }
    crate::definition::cycle::falling_ranks_exclude_cycles(all, rank, flat);
}

/// A cycle is told by the names along it.
pub proof fn cycles_are_told_by_names(
    graph: &Vec<Vec<usize>>,
    names: &Vec<String>,
    kind: &str,
    path: Vec<usize>,
    result: Result<(), DefinitionError>,
)
    requires
        is_graph(edges(graph@)),
        names@.len() == graph@.len(),
        call_ensures(find_cycle, (graph,), Some(path)),
        call_ensures(detect_cycle, (names, graph, kind), result),
        path@.len() == 2,
    ensures
        result matches Err(DefinitionError::Invalid(reason)) && reason@ == kind@
            + " dependency cycle: "@ + (names@[path@[0] as int]@ + " -> "@
            + names@[path@[0] as int]@),
{
    let nodes = ints(path@);
    let all = views(names@);
    let told = crate::definition::check::named(all, nodes);
    assert(nodes[0] == path@[0] && nodes[1] == path@[1]);
    assert(nodes.last() == nodes[1]);
    assert(told.len() == 2);
    assert(0 <= nodes[0] < edges(graph@).len());
    assert(told[0] == names@[path@[0] as int]@);
    assert(told[1] == told[0]);
    assert(told.drop_last().len() == 1);
    assert(told.drop_last()[0] == told[0]);
    assert(crate::text::joined(told.drop_last(), " -> "@) == told[0]);
    assert(crate::text::joined(told, " -> "@) == told[0] + " -> "@ + told[1]);
}

/// The machine's policy stands in `/etc`, that of a repository in its shared Git
/// directory. A file that cannot be read or is none, or of another version, is
/// refused, and named.
pub proof fn broken_policies_are_refused(
    common: &HostPath,
    place: HostPath,
    system: LayerContents,
    repository: LayerContents,
    result: Result<Policy, PolicyError>,
)
    requires
        rooted(common@),
        call_ensures(Policy::repository_path, (common,), place),
        call_ensures(Policy::load, (common, system, repository), result),
    ensures
        path_names(place@) == path_names(common@).push(encode_utf8("pipeline"@)).push(
            encode_utf8("config.yml"@),
        ),
        breaks(system) ==> (result matches Err(error) && refuses(
            error,
            system,
            encode_utf8("/etc/pipeline.yml"@),
        )),
        !breaks(system) && breaks(repository) ==> (result matches Err(error) && refuses(
            error,
            repository,
            place@,
        )),
{
    lemma_config_path(common@);
}

/// A policy file that cannot be used.
pub open spec fn breaks(contents: LayerContents) -> bool {
    contents is Unreadable || contents is Malformed || (contents matches LayerContents::Parsed(
        layer,
    ) && (layer.version matches Some(version) && version != 1))
}

pub open spec fn refuses(error: PolicyError, contents: LayerContents, on: Seq<u8>) -> bool {
    match contents {
        LayerContents::Unreadable(text) => error matches PolicyError::Read { path, source }
            && path@ == on && source@ == text@,
        LayerContents::Malformed(text) => error matches PolicyError::Parse { path, message }
            && path@ == on && message@ == text@,
        _ => error matches PolicyError::UnsupportedVersion { path, version } && path@ == on,
    }
}

proof fn lemma_config_path(common: Seq<u8>)
    requires
        rooted(common),
    ensures
        path_names(crate::native::path_join(common, encode_utf8("pipeline/config.yml"@)))
            == path_names(common).push(encode_utf8("pipeline"@)).push(encode_utf8("config.yml"@)),
{
    reveal_strlit("pipeline");
    reveal_strlit("config.yml");
    reveal_strlit("pipeline/config.yml");
    crate::promises::searching::lemma_plain("pipeline"@);
    crate::promises::searching::lemma_plain("config.yml"@);
    let a = encode_utf8("pipeline"@);
    let b = encode_utf8("config.yml"@);
    let slash: Seq<char> = seq!['/'];
    vstd::utf8::is_ascii_chars_encode_utf8("pipeline"@);
    vstd::utf8::is_ascii_chars_encode_utf8(slash);
    assert(slash[0] as u8 == encode_utf8(slash)[0]);
    assert(encode_utf8(slash) =~= seq![47u8]);
    assert("pipeline/config.yml"@ =~= "pipeline"@ + slash + "config.yml"@);
    crate::text::encoding_is_piecewise("pipeline"@ + slash, "config.yml"@);
    crate::text::encoding_is_piecewise("pipeline"@, slash);
    let whole = encode_utf8("pipeline/config.yml"@);
    assert(whole =~= a + seq![47u8] + b);
    crate::native::join_adds_one_component(common, a);
    let first = crate::native::path_join(common, a);
    crate::native::join_adds_one_component(first, b);
    assert(a.contains(a[0]));
    assert(a.contains(a[a.len() - 1]));
    assert(b.contains(b[0]));
    assert(whole[0] == a[0]);
    assert(first.last() == a[a.len() - 1]);
    assert(crate::native::path_join(common, whole) =~= crate::native::path_join(first, b));
}

/// An argument of Git is read as text, or named as what it was for.
pub proof fn arguments_are_read_as_text(
    argument: &NativeText,
    description: &str,
    text: Seq<char>,
    result: Result<String, PipelineError>,
)
    requires
        call_ensures(unicode_argument, (argument, description), result),
    ensures
        argument@ == encode_utf8(text) ==> (result matches Ok(read) && read@ == text),
        result matches Err(error) ==> (error matches PipelineError::Message(told) && told@
            == "Git supplied a non-UTF-8 "@ + description@),
{
    if argument@ == encode_utf8(text) {
        crate::native::native_text_round_trip(text);
    }
}

/// A command of Git gives its text, or is reported with its code and its errors.
pub proof fn git_gives_its_text(
    operation: &str,
    reply: &Result<GitOutput, String>,
    output: &GitOutput,
    text: Seq<char>,
    errors: Seq<char>,
    given: Result<String, HookError>,
    ensured: Result<(), HookError>,
)
    requires
        *reply == Ok::<GitOutput, String>(*output),
        call_ensures(output_text, (operation, output), given),
        call_ensures(ensure_git_success, (operation, reply), ensured),
    ensures
        bare(text) && answers(*reply, text) ==> ensured is Ok && (given matches Ok(told) && told@
            == text),
        output.code != Some(0i32) ==> ensured is Err && given is Err,
        output.code != Some(0i32) && bare(errors) && output.stderr@ == encode_utf8(errors) ==> (
        given matches Err(HookError::GitFailed { operation: name, status, stderr }) && name@
            == operation@ && status == output.code && stderr@ == errors) && (ensured matches Err(
            HookError::GitFailed { operation: name, status, stderr },
        ) && name@ == operation@ && status == output.code && stderr@ == errors),
{
    if bare(text) && answers(*reply, text) {
        lemma_answer(*reply, text);
        crate::native::native_text_round_trip(text.push('\n'));
    }
    if bare(errors) && output.stderr@ == encode_utf8(errors) {
        crate::native::native_text_round_trip(errors);
        crate::promises::finding::lemma_bare(errors);
    }
}

/// A command of Git is named by its words.
pub proof fn git_commands_are_named_by_their_words(
    arguments: &Vec<String>,
    reply: &Result<GitOutput, String>,
    result: Result<String, HookError>,
)
    requires
        call_ensures(git_text, (arguments, reply), result),
        arguments@.len() == 2,
        *reply matches Ok(output) && output.code != Some(0i32),
    ensures
        result matches Err(HookError::GitFailed { operation, status, stderr }) && operation@
            == "git "@ + (arguments@[0]@ + " "@ + arguments@[1]@),
{
    let all = views(arguments@);
    assert(all[0] == arguments@[0]@ && all[1] == arguments@[1]@);
    assert(all.drop_last().len() == 1);
    assert(all.drop_last()[0] == all[0]);
    assert(crate::text::joined(all.drop_last(), " "@) == all[0]);
}

/// An installation has room exactly if its places are free or hold what can be
/// there.
pub proof fn installations_need_room(
    repository: &Repository,
    layout: &LayoutProbes,
    result: Result<(), HookError>,
    directory: HostPath,
)
    requires
        call_ensures(validate_install_layout, (repository, layout), result),
        call_ensures(Repository::pipeline_dir, (repository,), directory),
    ensures
        result is Ok <==> has_room(*layout),
        layout.pipeline_dir is File || layout.pipeline_dir is Symlink || layout.pipeline_dir
            is Other ==> (result matches Err(HookError::InvalidInstallPath(path)) && path@
            == directory@),
{
}

/// Without a target in the way, the mode is settled by the search path alone.
pub proof fn modes_are_settled(
    command: &str,
    source: &HostPath,
    facts: &SourceFacts,
    lookup: &PathLookup,
    requested: InstallMode,
    result: Result<InstallMode, HookError>,
)
    requires
        call_ensures(resolve_install_mode, (command, source, facts, lookup, requested), result),
    ensures
        !can_be_installed(*facts) ==> result is Err,
        can_be_installed(*facts) ==> {
            let linkable = in_search_path(facts.canonical->Ok_0@, *lookup);
            match requested {
                InstallMode::Copy => result == Ok::<InstallMode, HookError>(InstallMode::Copy),
                InstallMode::Link => if linkable {
                    result == Ok::<InstallMode, HookError>(InstallMode::Link)
                } else {
                    result matches Err(HookError::LinkSourceNotInPath { command: name, path })
                        && name@ == command@ && path@ == facts.canonical->Ok_0@
                },
                InstallMode::Auto => result == Ok::<InstallMode, HookError>(
                    if linkable {
                        InstallMode::Link
                    } else {
                        InstallMode::Copy
                    },
                ),
            }
        },
{
    crate::promises::installing::lemma_installable(*facts);
}

/// A release is written with its three numbers, and ordered by them.
pub proof fn releases_are_ordered_by_their_numbers(
    a: (u64, u64, u64),
    b: (u64, u64, u64),
    first: JustVersion,
    second: JustVersion,
    below: bool,
)
    requires
        call_ensures(JustVersion::release, (a.0, a.1, a.2), first),
        call_ensures(JustVersion::release, (b.0, b.1, b.2), second),
        call_ensures(JustVersion::is_below, (&first, &second), below),
    ensures
        first@ == decimal(a.0 as nat) + "."@ + decimal(a.1 as nat) + "."@ + decimal(a.2 as nat),
        below <==> a.0 < b.0 || (a.0 == b.0 && (a.1 < b.1 || (a.1 == b.1 && a.2 < b.2))),
{
    let x = crate::just_runtime::version::Release {
        major: a.0 as nat,
        minor: a.1 as nat,
        patch: a.2 as nat,
    };
    let y = crate::just_runtime::version::Release {
        major: b.0 as nat,
        minor: b.1 as nat,
        patch: b.2 as nat,
    };
    assert(first@ == crate::just_runtime::version::release_text(x));
    assert(second@ == crate::just_runtime::version::release_text(y));
    assert(crate::just_runtime::version::countable(x));
    assert(crate::just_runtime::version::countable(y));
}

} // verus!
