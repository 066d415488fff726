//! Where definitions and Justfiles are looked for.

use crate::definition::error::DefinitionError;
use crate::definition::validate::invalid;
use crate::native::{
    ancestors_of, components_are_plain, lemma_empty_path, lossy, path_join, path_names, path_view,
    path_views, path_within, plain_name, rooted, same_path, spelled, spelled_components, HostPath,
};
use crate::text::concat4;
use vstd::prelude::*;
use vstd::utf8::encode_utf8;

verus! {

/// Definition names, in precedence order within a directory.
pub const DEFINITION_NAMES: [&'static str; 3] = ["Pipelinefile", "pipeline.yml", ".pipeline.yml"];

/// Just's conventional definition names, in lookup order.
pub const JUSTFILE_NAMES: [&'static str; 3] = ["justfile", "Justfile", ".justfile"];

pub open spec fn definition_names() -> Seq<Seq<char>> {
    seq!["Pipelinefile"@, "pipeline.yml"@, ".pipeline.yml"@]
}

pub open spec fn justfile_names() -> Seq<Seq<char>> {
    seq!["justfile"@, "Justfile"@, ".justfile"@]
}

/// The directories of a list up to the boundary, which is included.
pub open spec fn through(list: Seq<Seq<u8>>, boundary: Seq<u8>) -> Seq<Seq<u8>>
    decreases list.len(),
{
    if list.len() == 0 {
        seq![]
    } else if same_path(list[0], boundary) {
        seq![list[0]]
    } else {
        seq![list[0]] + through(list.drop_first(), boundary)
    }
}

/// The directories of an upward search, nearest first.
pub open spec fn search_directories(directory: Seq<u8>, boundary: Option<Seq<u8>>) -> Seq<
    Seq<u8>,
> {
    match boundary {
        None => ancestors_of(directory),
        Some(limit) => through(ancestors_of(directory), limit),
    }
}

/// The names of a directory, in order.
pub open spec fn entries_of(directory: Seq<u8>, names: Seq<Seq<char>>) -> Seq<Seq<u8>> {
    Seq::new(names.len(), |n: int| path_join(directory, encode_utf8(names[n])))
}

/// Every name in every directory, directory by directory.
pub open spec fn candidates_in(directories: Seq<Seq<u8>>, names: Seq<Seq<char>>) -> Seq<Seq<u8>>
    decreases directories.len(),
{
    if directories.len() == 0 {
        seq![]
    } else {
        candidates_in(directories.drop_last(), names) + entries_of(directories.last(), names)
    }
}

pub open spec fn search_candidates(
    directory: Seq<u8>,
    boundary: Option<Seq<u8>>,
    names: Seq<Seq<char>>,
) -> Seq<Seq<u8>> {
    candidates_in(search_directories(directory, boundary), names)
}

/// The search does not start outside its boundary.
pub open spec fn starts_inside(directory: Seq<u8>, boundary: Option<Seq<u8>>) -> bool {
    boundary matches Some(limit) ==> path_within(directory, limit)
}

/// The nearest directory comes first, and within a directory the names keep
/// their order of precedence.
pub proof fn nearer_candidates_come_first(
    directories: Seq<Seq<u8>>,
    names: Seq<Seq<char>>,
    d: int,
    n: int,
)
    requires
        0 <= d < directories.len(),
        0 <= n < names.len(),
    ensures
        candidates_in(directories, names).len() == directories.len() * names.len(),
        0 <= d * names.len() + n < candidates_in(directories, names).len(),
        candidates_in(directories, names)[d * names.len() + n] == path_join(
            directories[d],
            encode_utf8(names[n]),
        ),
    decreases directories.len(),
{
    let k = names.len() as int;
    let c = directories.len() as int;
    lemma_candidate_count(directories, names);
    lemma_candidate_count(directories.drop_last(), names);
    assert(d * k + n < c * k) by (nonlinear_arith)
        requires
            0 <= d < c,
            0 <= n < k,
    ;
    assert(0 <= d * k) by (nonlinear_arith)
        requires
            0 <= d,
            0 <= k,
    ;
    if d < c - 1 {
        assert(d * k + n < (c - 1) * k) by (nonlinear_arith)
            requires
                0 <= d < c - 1,
                0 <= n < k,
        ;
        nearer_candidates_come_first(directories.drop_last(), names, d, n);
    }
}

proof fn lemma_candidate_count(directories: Seq<Seq<u8>>, names: Seq<Seq<char>>)
    ensures
        candidates_in(directories, names).len() == directories.len() * names.len(),
    decreases directories.len(),
{
    if directories.len() > 0 {
        lemma_candidate_count(directories.drop_last(), names);
        let c = directories.len() as int;
        let k = names.len() as int;
        assert((c - 1) * k + k == c * k) by (nonlinear_arith);
    }
}

proof fn lemma_through(list: Seq<Seq<u8>>, boundary: Seq<u8>, d: int)
    requires
        0 <= d < through(list, boundary).len(),
    ensures
        d < list.len(),
        through(list, boundary)[d] == list[d],
        forall|e: int| 0 <= e < d ==> !same_path(#[trigger] list[e], boundary),
    decreases list.len(),
{
    if list.len() > 0 && !same_path(list[0], boundary) && d > 0 {
        lemma_through(list.drop_first(), boundary, d - 1);
        assert forall|e: int| 0 <= e < d implies !same_path(#[trigger] list[e], boundary) by {
            if e > 0 {
                assert(list.drop_first()[e - 1] == list[e]);
            }
        }
    }
}

/// An upward search that starts inside its boundary never leaves it.
pub proof fn search_stays_within_boundary(directory: Seq<u8>, boundary: Seq<u8>, d: int)
    requires
        rooted(directory),
        path_within(directory, boundary),
        0 <= d < search_directories(directory, Some(boundary)).len(),
    ensures
        path_within(search_directories(directory, Some(boundary))[d], boundary),
{
    let all = ancestors_of(directory);
    lemma_through(all, boundary, d);
    components_are_plain(directory);
    let names = path_names(directory);
    let base = path_names(boundary);
    let count = base.len() as int;
    assert forall|k: int| 0 <= k < all.len() implies rooted(#[trigger] all[k]) && path_names(all[k])
        == names.take(names.len() - k) by {
        let part = names.take(names.len() - k);
        assert forall|i: int| 0 <= i < part.len() implies plain_name(#[trigger] part[i]) by {
            assert(plain_name(names[i]));
        }
        spelled_components(part);
        lemma_spelled_rooted(part);
    }
    assert(base =~= names.take(count));
    let stop = names.len() - count;
    if boundary.len() == 0 {
        lemma_empty_path(boundary);
    }
    if d > stop {
        assert(path_names(all[stop]) == base);
        assert(same_path(all[stop], boundary));
        assert(false);
    }
    assert(all[d] == search_directories(directory, Some(boundary))[d]);
    assert(base =~= path_names(all[d]).subrange(0, count));
}

pub proof fn lemma_spelled_rooted(names: Seq<Seq<u8>>)
    ensures
        rooted(spelled(true, names)),
    decreases names.len(),
{
    if names.len() > 0 {
        lemma_spelled_rooted(names.drop_last());
    }
}

fn directories_to_search(directory: &HostPath, boundary: Option<&HostPath>) -> (list: Vec<HostPath>)
    ensures
        path_views(list@) == search_directories(directory@, path_view(boundary)),
{
    let all = directory.ancestors();
    match boundary {
        None => all,
        Some(limit) => {
            let mut list: Vec<HostPath> = Vec::new();
            let ghost views = path_views(all@);
            let mut i: usize = 0;
            proof {
                assert(views.skip(0) =~= views);
            }
            while i < all.len()
                invariant
                    i <= all.len(),
                    views == path_views(all@),
                    views == ancestors_of(directory@),
                    boundary == Some(limit),
                    path_views(list@) + through(views.skip(i as int), limit@) == through(
                        views,
                        limit@,
                    ),
                decreases all.len() - i,
            {
                let ghost before = list@;
                let ghost rest = views.skip(i as int);
                list.push(all[i].clone());
                proof {
                    assert(rest[0] == all@[i as int]@);
                    assert(rest.drop_first() =~= views.skip(i as int + 1));
                    assert(path_views(list@) =~= path_views(before).push(list@.last()@));
                    assert(path_views(list@) =~= path_views(before) + seq![rest[0]]);
                }
                if all[i].is_same(limit) {
                    return list;
                }
                proof {
                    assert(path_views(list@) + through(views.skip(i as int + 1), limit@)
                        =~= path_views(before) + through(rest, limit@));
                }
                i += 1;
            }
            proof {
                assert(through(views.skip(i as int), limit@) =~= seq![]);
                assert(path_views(list@) =~= through(views, limit@));
            }
            list
        },
    }
}

fn candidate_list(directories: &Vec<HostPath>, names: &[&'static str; 3]) -> (list: Vec<HostPath>)
    ensures
        path_views(list@) == candidates_in(
            path_views(directories@),
            Seq::new(3, |n: int| names@[n]@),
        ),
{
    let ghost all = path_views(directories@);
    let ghost wanted = Seq::new(3, |n: int| names@[n]@);
    let mut list: Vec<HostPath> = Vec::new();
    let mut d: usize = 0;
    while d < directories.len()
        invariant
            d <= directories.len(),
            all == path_views(directories@),
            wanted == Seq::new(3, |n: int| names@[n]@),
            path_views(list@) =~= candidates_in(all.take(d as int), wanted),
        decreases directories.len() - d,
    {
        let ghost before = path_views(list@);
        let ghost entries = entries_of(directories@[d as int]@, wanted);
        let mut n: usize = 0;
        while n < 3
            invariant
                n <= 3,
                d < directories.len(),
                wanted == Seq::new(3, |n: int| names@[n]@),
                entries == entries_of(directories@[d as int]@, wanted),
                path_views(list@) =~= before + entries.take(n as int),
            decreases 3 - n,
        {
            let ghost sofar = list@;
            list.push(directories[d].join(names[n]));
            proof {
                assert(path_views(list@) =~= path_views(sofar).push(list@.last()@));
                assert(entries[n as int] == list@.last()@);
                assert(path_views(list@) =~= before + entries.take(n as int + 1));
            }
            n += 1;
        }
        proof {
            let next = all.take(d as int + 1);
            assert(entries.take(3) =~= entries);
            assert(next.drop_last() =~= all.take(d as int));
            assert(next.last() == directories@[d as int]@);
        }
        d += 1;
    }
    proof {
        assert(all.take(d as int) =~= all);
    }
    list
}

/// Where an upward search for a definition looks, in order. `directory` is the
/// resolved start.
pub fn definition_candidates(directory: &HostPath, boundary: Option<&HostPath>) -> (result: Result<
    Vec<HostPath>,
    DefinitionError,
>)
    ensures
        starts_inside(directory@, path_view(boundary)) ==> (result matches Ok(list) && path_views(
            list@,
        ) == search_candidates(directory@, path_view(boundary), definition_names())),
        !starts_inside(directory@, path_view(boundary)) ==> (result matches Err(
            DefinitionError::Invalid(reason),
        ) && reason@ == "search start "@ + lossy(directory@) + " is outside boundary "@ + lossy(
            boundary->Some_0@,
        )),
{
    if let Some(limit) = boundary {
        if !directory.starts_with(limit) {
            return Err(
                invalid(
                    concat4(
                        "search start ",
                        directory.shown().as_str(),
                        " is outside boundary ",
                        limit.shown().as_str(),
                    ),
                ),
            );
        }
    }
    let directories = directories_to_search(directory, boundary);
    proof {
        assert(Seq::new(3, |n: int| DEFINITION_NAMES@[n]@) =~= definition_names());
    }
    Ok(candidate_list(&directories, &DEFINITION_NAMES))
}

/// Where an upward search for a Justfile looks, in order. `directory` is the
/// resolved start.
pub fn justfile_candidates(directory: &HostPath, boundary: Option<&HostPath>) -> (result: Result<
    Vec<HostPath>,
    DefinitionError,
>)
    ensures
        starts_inside(directory@, path_view(boundary)) ==> (result matches Ok(list) && path_views(
            list@,
        ) == search_candidates(directory@, path_view(boundary), justfile_names())),
        !starts_inside(directory@, path_view(boundary)) ==> (result matches Err(
            DefinitionError::Invalid(reason),
        ) && reason@ == "Justfile search start "@ + lossy(directory@) + " is outside boundary "@
            + lossy(boundary->Some_0@)),
{
    if let Some(limit) = boundary {
        if !directory.starts_with(limit) {
            return Err(
                invalid(
                    concat4(
                        "Justfile search start ",
                        directory.shown().as_str(),
                        " is outside boundary ",
                        limit.shown().as_str(),
                    ),
                ),
            );
        }
    }
    let directories = directories_to_search(directory, boundary);
    proof {
        assert(Seq::new(3, |n: int| JUSTFILE_NAMES@[n]@) =~= justfile_names());
    }
    Ok(candidate_list(&directories, &JUSTFILE_NAMES))
}

/// The directory that a search starts in: the file's own directory if the
/// resolved start is a file.
pub fn search_root(resolved: &HostPath, is_file: bool) -> (directory: HostPath)
    requires
        is_file ==> path_names(resolved@).len() > 0,
    ensures
        directory@ == (if is_file {
            spelled(rooted(resolved@), path_names(resolved@).drop_last())
        } else {
            resolved@
        }),
{
    if is_file {
        match resolved.parent() {
            Some(parent) => parent,
            None => resolved.clone(),
        }
    } else {
        resolved.clone()
    }
}

/// The position of the first candidate that is present, if any is.
pub open spec fn first_present(present: Seq<bool>) -> Option<int>
    decreases present.len(),
{
    if present.len() == 0 {
        None
    } else if let Some(k) = first_present(present.drop_last()) {
        Some(k)
    } else if present.last() {
        Some(present.len() - 1)
    } else {
        None
    }
}

proof fn lemma_first_present(present: Seq<bool>, n: int)
    requires
        0 <= n <= present.len(),
        forall|k: int| 0 <= k < n ==> !#[trigger] present[k],
    ensures
        first_present(present.take(n)) is None,
        n < present.len() && present[n] ==> first_present(present) == Some(n),
    decreases present.len(), n,
{
    if n > 0 {
        lemma_first_present(present, n - 1);
        assert(present.take(n).drop_last() =~= present.take(n - 1));
    }
    if n < present.len() && present[n] {
        if present.len() == n + 1 {
            assert(present.drop_last() =~= present.take(n));
        } else {
            lemma_first_present(present.drop_last(), n);
        }
    }
}

/// What an upward search found: the first candidate that is present.
pub fn first_found(candidates: &Vec<HostPath>, present: &Vec<bool>) -> (found: Option<HostPath>)
    requires
        present@.len() == candidates@.len(),
    ensures
        match first_present(present@) {
            Some(k) => 0 <= k < candidates@.len() && (found matches Some(path) && path@
                == path_views(candidates@)[k]),
            None => found is None,
        },
{
    let mut i: usize = 0;
    while i < present.len()
        invariant
            i <= present.len(),
            present@.len() == candidates@.len(),
            forall|k: int| 0 <= k < i ==> !#[trigger] present@[k],
        decreases present.len() - i,
    {
        if present[i] {
            proof {
                lemma_first_present(present@, i as int);
            }
            return Some(candidates[i].clone());
        }
        i += 1;
    }
    proof {
        lemma_first_present(present@, i as int);
        assert(present@.take(i as int) =~= present@);
    }
    None
}

/// The definition that an upward search from `start` found.
pub fn found_definition(
    start: &HostPath,
    candidates: &Vec<HostPath>,
    present: &Vec<bool>,
) -> (result: Result<HostPath, DefinitionError>)
    requires
        present@.len() == candidates@.len(),
    ensures
        match first_present(present@) {
            Some(k) => 0 <= k < candidates@.len() && (result matches Ok(path) && path@
                == path_views(candidates@)[k]),
            None => result matches Err(DefinitionError::NotFound { start: from }) && from@
                == start@,
        },
{
    match first_found(candidates, present) {
        Some(path) => Ok(path),
        None => Err(DefinitionError::NotFound { start: start.clone() }),
    }
}

/// What the system says of a file that a search found: whether it is a regular
/// file, and where it resolves to.
pub struct FileFacts {
    pub is_file: Result<bool, String>,
    pub resolved: Result<HostPath, String>,
}

/// The Justfile that an upward search from `start` found. `facts` describes the
/// candidate that was found.
pub fn found_justfile(
    start: &HostPath,
    found: Option<&HostPath>,
    facts: &FileFacts,
    boundary: Option<&HostPath>,
) -> (result: Result<HostPath, DefinitionError>)
    ensures
        match found {
            None => result matches Err(DefinitionError::JustfileNotFound { start: from }) && from@
                == start@,
            Some(candidate) => match facts.is_file {
                Err(text) => result matches Err(DefinitionError::Io { path, source }) && path@
                    == candidate@ && source@ == text@,
                Ok(false) => result matches Err(DefinitionError::NotAFile(path)) && path@
                    == candidate@,
                Ok(true) => match facts.resolved {
                    Err(text) => result matches Err(DefinitionError::Io { path, source }) && path@
                        == candidate@ && source@ == text@,
                    Ok(target) => if starts_inside(target@, path_view(boundary)) {
                        result matches Ok(path) && path@ == candidate@
                    } else {
                        result matches Err(DefinitionError::Invalid(reason)) && reason@
                            == "Justfile "@ + lossy(target@)
                            + " resolves outside control boundary "@ + lossy(
                            boundary->Some_0@,
                        )
                    },
                },
            },
        },
{
    let candidate = match found {
        Some(candidate) => candidate,
        None => {
            return Err(DefinitionError::JustfileNotFound { start: start.clone() });
        },
    };
    match &facts.is_file {
        Err(text) => {
            return Err(
                DefinitionError::Io {
                    path: candidate.clone(),
                    source: String::from_str(text.as_str()),
                },
            );
        },
        Ok(is_file) => {
            if !*is_file {
                return Err(DefinitionError::NotAFile(candidate.clone()));
            }
        },
    }
    match &facts.resolved {
        Err(text) => Err(
            DefinitionError::Io {
                path: candidate.clone(),
                source: String::from_str(text.as_str()),
            },
        ),
        Ok(target) => {
            if let Some(limit) = boundary {
                if !target.starts_with(limit) {
                    return Err(
                        invalid(
                            concat4(
                                "Justfile ",
                                target.shown().as_str(),
                                " resolves outside control boundary ",
                                limit.shown().as_str(),
                            ),
                        ),
                    );
                }
            }
            Ok(candidate.clone())
        },
    }
}

/// A search whose first present candidate is the `k`-th has found nothing
/// nearer and nothing of higher precedence.
pub proof fn search_takes_the_first_present(present: Seq<bool>)
    ensures
        match first_present(present) {
            Some(k) => 0 <= k < present.len() && present[k] && forall|i: int|
                0 <= i < k ==> !#[trigger] present[i],
            None => forall|i: int| 0 <= i < present.len() ==> !#[trigger] present[i],
        },
    decreases present.len(),
{
    if present.len() > 0 {
        let rest = present.drop_last();
        search_takes_the_first_present(rest);
        assert forall|i: int| 0 <= i < rest.len() implies rest[i] == #[trigger] present[i] by {}
    }
}

} // verus!
