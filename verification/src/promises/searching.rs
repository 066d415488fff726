//! Where definitions are looked for.

use crate::definition::error::DefinitionError;
use crate::definition::search::{
    candidates_in, definition_candidates, definition_names, first_found, found_definition,
    found_justfile, justfile_candidates, justfile_names, nearer_candidates_come_first,
    search_directories, search_root, search_takes_the_first_present, through, FileFacts,
};
use crate::native::{
    ancestors_of, components_are_plain, join_adds_one_component, path_names, path_view, path_views,
    path_within, plain_name, rooted, same_path, spelled_components, HostPath,
};
use vstd::prelude::*;
use vstd::utf8::encode_utf8;

verus! {

/// The place of a file in the directory that is `up` levels above `directory`.
pub open spec fn place_above(directory: Seq<u8>, up: int, name: Seq<char>) -> Seq<Seq<u8>> {
    let names = path_names(directory);
    names.take(names.len() - up).push(encode_utf8(name))
}

/// How many directories are searched: `directory` and all above it, up to the
/// boundary where there is one.
pub open spec fn levels(directory: Seq<u8>, boundary: Option<&HostPath>) -> int {
    path_names(directory).len() - (match boundary {
        Some(limit) => path_names(limit@).len() as int,
        None => 0,
    }) + 1
}

/// The list has, from the nearest directory upwards, the three names in this
/// order.
pub open spec fn looks_upwards(
    list: Seq<HostPath>,
    directory: Seq<u8>,
    count: int,
    first: Seq<char>,
    second: Seq<char>,
    third: Seq<char>,
) -> bool {
    &&& list.len() == 3 * count
    &&& forall|up: int|
        #![trigger place_above(directory, up, first)]
        0 <= up < count ==> {
            &&& path_names(list[3 * up]@) == place_above(directory, up, first)
            &&& path_names(list[3 * up + 1]@) == place_above(directory, up, second)
            &&& path_names(list[3 * up + 2]@) == place_above(directory, up, third)
        }
}

proof fn lemma_ancestors(directory: Seq<u8>, up: int)
    requires
        rooted(directory),
        0 <= up <= path_names(directory).len(),
    ensures
        ancestors_of(directory).len() == path_names(directory).len() + 1,
        rooted(ancestors_of(directory)[up]),
        path_names(ancestors_of(directory)[up]) == path_names(directory).take(
            path_names(directory).len() - up,
        ),
{
    components_are_plain(directory);
    let names = path_names(directory);
    let part = names.take(names.len() - up);
    assert forall|i: int| 0 <= i < part.len() implies plain_name(#[trigger] part[i]) by {
        assert(plain_name(names[i]));
    }
    spelled_components(part);
    crate::definition::search::lemma_spelled_rooted(part);
}

proof fn lemma_through_all(list: Seq<Seq<u8>>, boundary: Seq<u8>, stop: int)
    requires
        0 <= stop < list.len(),
        same_path(list[stop], boundary),
        forall|e: int| 0 <= e < stop ==> !same_path(#[trigger] list[e], boundary),
    ensures
        through(list, boundary).len() == stop + 1,
        forall|e: int| 0 <= e <= stop ==> #[trigger] through(list, boundary)[e] == list[e],
    decreases list.len(),
{
    if stop > 0 {
        assert(!same_path(list[0], boundary));
        let rest = list.drop_first();
        assert forall|e: int| 0 <= e < stop - 1 implies !same_path(#[trigger] rest[e], boundary) by {
            assert(rest[e] == list[e + 1]);
        }
        lemma_through_all(rest, boundary, stop - 1);
        assert forall|e: int| 0 <= e <= stop implies #[trigger] through(list, boundary)[e]
            == list[e] by {
            if e > 0 {
                assert(through(rest, boundary)[e - 1] == rest[e - 1]);
            }
        }
    }
}

proof fn lemma_directories(directory: Seq<u8>, boundary: Option<&HostPath>)
    requires
        rooted(directory),
        boundary matches Some(limit) ==> rooted(limit@) && path_within(directory, limit@),
    ensures
        search_directories(directory, path_view(boundary)).len() == levels(directory, boundary),
        forall|up: int|
            0 <= up < levels(directory, boundary) ==> rooted(
                #[trigger] search_directories(directory, path_view(boundary))[up],
            ) && path_names(search_directories(directory, path_view(boundary))[up]) == path_names(
                directory,
            ).take(path_names(directory).len() - up),
{
    let names = path_names(directory);
    let all = ancestors_of(directory);
    let list = search_directories(directory, path_view(boundary));
    lemma_ancestors(directory, 0);
    if let Some(limit) = boundary {
        let base = path_names(limit@);
        let stop = names.len() - base.len();
        assert(base =~= names.take(base.len() as int));
        lemma_ancestors(directory, stop);
        assert(same_path(all[stop], limit@));
        assert forall|e: int| 0 <= e < stop implies !same_path(#[trigger] all[e], limit@) by {
            lemma_ancestors(directory, e);
            assert(path_names(all[e]).len() > base.len());
        }
        lemma_through_all(all, limit@, stop);
    }
    assert forall|up: int| 0 <= up < levels(directory, boundary) implies rooted(
        #[trigger] list[up],
    ) && path_names(list[up]) == names.take(names.len() - up) by {
        lemma_ancestors(directory, up);
        assert(list[up] == all[up]);
    }
}

proof fn lemma_looks(
    list: Seq<HostPath>,
    directory: Seq<u8>,
    boundary: Option<&HostPath>,
    names: Seq<Seq<char>>,
)
    requires
        rooted(directory),
        boundary matches Some(limit) ==> rooted(limit@) && path_within(directory, limit@),
        names.len() == 3,
        forall|n: int| 0 <= n < 3 ==> plain_name(encode_utf8(#[trigger] names[n])),
        path_views(list) == candidates_in(
            search_directories(directory, path_view(boundary)),
            names,
        ),
    ensures
        looks_upwards(
            list,
            directory,
            levels(directory, boundary),
            names[0],
            names[1],
            names[2],
        ),
{
    let directories = search_directories(directory, path_view(boundary));
    let count = levels(directory, boundary);
    lemma_directories(directory, boundary);
    assert(path_views(list).len() == list.len());
    nearer_candidates_come_first(directories, names, 0, 0);
    assert forall|up: int|
        #![trigger place_above(directory, up, names[0])]
        0 <= up < count implies {
        &&& path_names(list[3 * up]@) == place_above(directory, up, names[0])
        &&& path_names(list[3 * up + 1]@) == place_above(directory, up, names[1])
        &&& path_names(list[3 * up + 2]@) == place_above(directory, up, names[2])
    } by {
        nearer_candidates_come_first(directories, names, up, 0);
        nearer_candidates_come_first(directories, names, up, 1);
        nearer_candidates_come_first(directories, names, up, 2);
        assert(path_views(list)[3 * up] == list[3 * up]@);
        assert(path_views(list)[3 * up + 1] == list[3 * up + 1]@);
        assert(path_views(list)[3 * up + 2] == list[3 * up + 2]@);
        assert(plain_name(encode_utf8(names[0])) && plain_name(encode_utf8(names[1]))
            && plain_name(encode_utf8(names[2])));
        join_adds_one_component(directories[up], encode_utf8(names[0]));
        join_adds_one_component(directories[up], encode_utf8(names[1]));
        join_adds_one_component(directories[up], encode_utf8(names[2]));
    }
}

pub proof fn lemma_plain(name: Seq<char>)
    requires
        name.len() > 1,
        forall|i: int|
            0 <= i < name.len() ==> '\0' <= #[trigger] name[i] <= '\u{7f}' && name[i] != '/',
    ensures
        plain_name(encode_utf8(name)),
{
    vstd::utf8::is_ascii_chars_encode_utf8(name);
    let bytes = encode_utf8(name);
    assert forall|i: int| 0 <= i < bytes.len() implies bytes[i] != crate::native::SLASH by {
        assert(name[i] as u8 == bytes[i]);
    }
}

/// A search for a definition looks into the directory and those above it, up to
/// the boundary, for a `Pipelinefile`, a `pipeline.yml` and a `.pipeline.yml`,
/// in this order. It never starts outside its boundary.
pub proof fn definitions_are_looked_for_upwards(
    directory: &HostPath,
    boundary: Option<&HostPath>,
    result: Result<Vec<HostPath>, DefinitionError>,
)
    requires
        rooted(directory@),
        boundary matches Some(limit) ==> rooted(limit@),
        call_ensures(definition_candidates, (directory, boundary), result),
    ensures
        result is Ok <==> (boundary matches Some(limit) ==> path_within(directory@, limit@)),
        result matches Ok(list) ==> looks_upwards(
            list@,
            directory@,
            levels(directory@, boundary),
            "Pipelinefile"@,
            "pipeline.yml"@,
            ".pipeline.yml"@,
        ),
{
    if let Ok(list) = result {
        let names = definition_names();
        assert(names[0] == "Pipelinefile"@ && names[1] == "pipeline.yml"@ && names[2]
            == ".pipeline.yml"@);
        reveal_strlit("Pipelinefile");
        reveal_strlit("pipeline.yml");
        reveal_strlit(".pipeline.yml");
        lemma_plain("Pipelinefile"@);
        lemma_plain("pipeline.yml"@);
        lemma_plain(".pipeline.yml"@);
        lemma_looks(list@, directory@, boundary, names);
    }
}

/// A search for a Justfile looks for a `justfile`, a `Justfile` and a
/// `.justfile`, in this order.
pub proof fn justfiles_are_looked_for_upwards(
    directory: &HostPath,
    boundary: Option<&HostPath>,
    result: Result<Vec<HostPath>, DefinitionError>,
)
    requires
        rooted(directory@),
        boundary matches Some(limit) ==> rooted(limit@),
        call_ensures(justfile_candidates, (directory, boundary), result),
    ensures
        result is Ok <==> (boundary matches Some(limit) ==> path_within(directory@, limit@)),
        result matches Ok(list) ==> looks_upwards(
            list@,
            directory@,
            levels(directory@, boundary),
            "justfile"@,
            "Justfile"@,
            ".justfile"@,
        ),
{
    if let Ok(list) = result {
        let names = justfile_names();
        assert(names[0] == "justfile"@ && names[1] == "Justfile"@ && names[2] == ".justfile"@);
        reveal_strlit("justfile");
        reveal_strlit("Justfile");
        reveal_strlit(".justfile");
        lemma_plain("justfile"@);
        lemma_plain("Justfile"@);
        lemma_plain(".justfile"@);
        lemma_looks(list@, directory@, boundary, names);
    }
}

/// Of all places, the first at which something is counts.
pub proof fn the_first_place_counts(
    start: &HostPath,
    candidates: &Vec<HostPath>,
    present: &Vec<bool>,
    found: Option<HostPath>,
    result: Result<HostPath, DefinitionError>,
    k: int,
)
    requires
        present@.len() == candidates@.len(),
        call_ensures(first_found, (candidates, present), found),
        call_ensures(found_definition, (start, candidates, present), result),
        0 <= k < present@.len(),
        present@[k],
        forall|i: int| 0 <= i < k ==> !#[trigger] present@[i],
    ensures
        found matches Some(path) && path@ == candidates@[k]@,
        result matches Ok(path) && path@ == candidates@[k]@,
{
    search_takes_the_first_present(present@);
    assert(path_views(candidates@)[k] == candidates@[k]@);
}

/// Where nothing is, nothing is found.
pub proof fn nothing_is_found_where_nothing_is(
    start: &HostPath,
    candidates: &Vec<HostPath>,
    present: &Vec<bool>,
    found: Option<HostPath>,
    result: Result<HostPath, DefinitionError>,
)
    requires
        present@.len() == candidates@.len(),
        call_ensures(first_found, (candidates, present), found),
        call_ensures(found_definition, (start, candidates, present), result),
        forall|i: int| 0 <= i < present@.len() ==> !#[trigger] present@[i],
    ensures
        found is None,
        result matches Err(DefinitionError::NotFound { start: from }) && from@ == start@,
{
    search_takes_the_first_present(present@);
}

/// A search that starts at a file starts in the directory of that file.
pub proof fn searches_start_in_a_directory(resolved: &HostPath, is_file: bool, directory: HostPath)
    requires
        rooted(resolved@),
        is_file ==> path_names(resolved@).len() > 0,
        call_ensures(search_root, (resolved, is_file), directory),
    ensures
        !is_file ==> directory@ == resolved@,
        is_file ==> rooted(directory@) && path_names(directory@) == path_names(
            resolved@,
        ).drop_last(),
{
    if is_file {
        components_are_plain(resolved@);
        let names = path_names(resolved@);
        let part = names.drop_last();
        assert forall|i: int| 0 <= i < part.len() implies plain_name(#[trigger] part[i]) by {
            assert(plain_name(names[i]));
        }
        spelled_components(part);
        crate::definition::search::lemma_spelled_rooted(part);
    }
}

/// A Justfile is used as it was found, if it is a regular file that resolves to
/// a place inside the boundary.
pub proof fn justfiles_stay_inside(
    start: &HostPath,
    found: Option<&HostPath>,
    facts: &FileFacts,
    boundary: Option<&HostPath>,
    result: Result<HostPath, DefinitionError>,
)
    requires
        call_ensures(found_justfile, (start, found, facts, boundary), result),
    ensures
        result is Ok <==> found is Some && facts.is_file == Ok::<bool, String>(true) && (
        facts.resolved matches Ok(target) && (boundary matches Some(limit) ==> path_within(
            target@,
            limit@,
        ))),
        result matches Ok(path) ==> path@ == found->Some_0@,
        found is None ==> result matches Err(DefinitionError::JustfileNotFound { start: from }),
{
}

} // verus!
