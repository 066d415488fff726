//! What Git is asked, and what its answers mean.

use crate::hooks::error::HookError;
use crate::hooks::git::{discovery_directory, reject_configured_hooks_path, GitOutput};
use crate::hooks::materialize::{Materialization, MaterializedTree, TreeReply, TreeStep};
use crate::hooks::repository::{
    bare_query, common_dir_query, first_belonging, git_dir_query, top_level_query, work_tree_among,
    work_tree_candidates, DiscoveryReplies, Repository, TrackedQuery, WorkTreeProbe,
};
use crate::native::{
    join_adds_one_component, native_text_round_trip, path_names, rooted, same_path, HostPath,
    NativeText,
};
use crate::promises::finding::bare;
use crate::promises::searching::lemma_plain;
use crate::text::{trim_end, trim_start, trimmed, views, white_space};
use vstd::prelude::*;
use vstd::utf8::encode_utf8;

verus! {

/// Git answered with this text on a line.
pub open spec fn answers(reply: Result<GitOutput, String>, text: Seq<char>) -> bool {
    reply matches Ok(output) && output.code == Some(0i32) && output.stdout@ == encode_utf8(
        text.push('\n'),
    )
}

/// Git failed.
pub open spec fn fails(reply: Result<GitOutput, String>) -> bool {
    reply is Err || (reply matches Ok(output) && output.code != Some(0i32))
}

pub proof fn lemma_answer(reply: Result<GitOutput, String>, text: Seq<char>)
    requires
        answers(reply, text),
        bare(text),
    ensures
        crate::hooks::repository::reply_text(reply) == Some(text),
        trimmed(text.push('\n')) == text,
{
    native_text_round_trip(text.push('\n'));
    lemma_line(text);
}

/// Git is asked for its own directory, for the shared one, for the root of the
/// worktree, and whether there is any.
pub proof fn git_is_asked_for_its_places(
    own: Vec<String>,
    shared: Vec<String>,
    whether_bare: Vec<String>,
    root: Vec<String>,
)
    requires
        call_ensures(git_dir_query, (), own),
        call_ensures(common_dir_query, (), shared),
        call_ensures(bare_query, (), whether_bare),
        call_ensures(top_level_query, (), root),
    ensures
        own@.len() == 3 && own@[0]@ == "rev-parse"@ && own@[1]@ == "--path-format=absolute"@
            && own@[2]@ == "--git-dir"@,
        shared@.len() == 3 && shared@[0]@ == "rev-parse"@ && shared@[1]@
            == "--path-format=absolute"@ && shared@[2]@ == "--git-common-dir"@,
        whether_bare@.len() == 2 && whether_bare@[0]@ == "rev-parse"@ && whether_bare@[1]@
            == "--is-bare-repository"@,
        root@.len() == 2 && root@[0]@ == "rev-parse"@ && root@[1]@ == "--show-toplevel"@,
{
    assert(views(own@).len() == own@.len());
    assert(views(shared@).len() == shared@.len());
    assert(views(whether_bare@).len() == whether_bare@.len());
    assert(views(root@).len() == root@.len());
    assert(views(own@)[0] == own@[0]@ && views(own@)[1] == own@[1]@ && views(own@)[2]
        == own@[2]@);
    assert(views(shared@)[0] == shared@[0]@ && views(shared@)[1] == shared@[1]@
        && views(shared@)[2] == shared@[2]@);
    assert(views(whether_bare@)[0] == whether_bare@[0]@ && views(whether_bare@)[1]
        == whether_bare@[1]@);
    assert(views(root@)[0] == root@[0]@ && views(root@)[1] == root@[1]@);
}

/// A repository is what Git answers, with its paths as they resolve. It has a
/// worktree unless it is bare.
pub proof fn repositories_are_what_git_says(
    directory: &HostPath,
    replies: DiscoveryReplies,
    own: Seq<char>,
    shared: Seq<char>,
    whether_bare: Seq<char>,
    root: Seq<char>,
    result: Result<Repository, HookError>,
)
    requires
        call_ensures(Repository::discover, (directory, replies), result),
        bare(own) && answers(replies.git_dir, own),
        bare(shared) && answers(replies.common_dir, shared),
        bare(whether_bare) && answers(replies.bare, whether_bare),
        whether_bare != "true"@ ==> bare(root) && answers(replies.work_tree.top_level, root)
            && replies.work_tree.resolved_top_level is Ok,
        replies.hooks_path matches Ok(output) && output.code == Some(1i32),
        replies.resolved_git_dir is Ok,
        replies.resolved_common_dir is Ok,
        replies.resolved_invocation_dir is Ok,
    ensures
        result matches Ok(repository) && {
            &&& repository.git_dir@ == replies.resolved_git_dir->Ok_0@
            &&& repository.common_dir@ == replies.resolved_common_dir->Ok_0@
            &&& repository.invocation_dir@ == replies.resolved_invocation_dir->Ok_0@
            &&& repository.bare <==> whether_bare == "true"@
            &&& repository.work_tree is Some <==> whether_bare != "true"@
            &&& repository.work_tree matches Some(tree) ==> tree@
                == replies.work_tree.resolved_top_level->Ok_0@
        },
{
    lemma_answer(replies.git_dir, own);
    lemma_answer(replies.common_dir, shared);
    lemma_answer(replies.bare, whether_bare);
    if whether_bare != "true"@ {
        lemma_answer(replies.work_tree.top_level, root);
    }
}

/// Without an answer of Git there is no repository, nor with hooks that live
/// elsewhere, nor with a path that does not resolve.
pub proof fn repositories_need_every_answer(
    directory: &HostPath,
    replies: DiscoveryReplies,
    result: Result<Repository, HookError>,
)
    requires
        call_ensures(Repository::discover, (directory, replies), result),
        fails(replies.git_dir) || fails(replies.common_dir) || fails(replies.bare) || !(
        replies.hooks_path matches Ok(output) && output.code == Some(1i32))
            || replies.resolved_git_dir is Err || replies.resolved_common_dir is Err
            || replies.resolved_invocation_dir is Err,
    ensures
        result is Err,
{
}

/// A hooks directory that is configured is refused, and named.
pub proof fn configured_hooks_are_refused(
    reply: &Result<GitOutput, String>,
    configured: Seq<char>,
    result: Result<(), HookError>,
)
    requires
        call_ensures(reject_configured_hooks_path, (reply,), result),
    ensures
        result is Ok <==> (*reply matches Ok(output) && output.code == Some(1i32)),
        bare(configured) && answers(*reply, configured) ==> (result matches Err(
            HookError::ConfiguredHooksPath(path),
        ) && path@ == configured),
{
    if bare(configured) && answers(*reply, configured) {
        lemma_answer(*reply, configured);
        native_text_round_trip(configured.push('\n'));
    }
}

/// The words that Git is run with.
pub open spec fn has_words(list: Seq<NativeText>, words: Seq<Seq<u8>>) -> bool {
    list.len() == words.len() && forall|i: int|
        0 <= i < words.len() ==> (#[trigger] list[i])@ == words[i]
}

proof fn lemma_words(list: Seq<NativeText>, words: Seq<Seq<u8>>)
    requires
        crate::native::native_views(list) == words,
    ensures
        has_words(list, words),
{
    let all = crate::native::native_views(list);
    assert forall|i: int| 0 <= i < words.len() implies (#[trigger] list[i])@ == words[i] by {
        assert(all[i] == list[i]@);
    }
}

/// Names with slashes between them.
pub open spec fn slashed(names: Seq<Seq<u8>>) -> Seq<u8>
    decreases names.len(),
{
    if names.len() == 0 {
        seq![]
    } else if names.len() == 1 {
        names[0]
    } else {
        slashed(names.drop_last()) + seq![47u8] + names.last()
    }
}

pub proof fn lemma_slashed(names: Seq<Seq<u8>>)
    requires
        forall|i: int| 0 <= i < names.len() ==> crate::native::plain_name(#[trigger] names[i]),
    ensures
        crate::native::spelled(false, names) == slashed(names),
        names.len() > 0 ==> slashed(names).len() > 0 && slashed(names).last() != 47u8,
    decreases names.len(),
{
    if names.len() > 0 {
        let front = names.drop_last();
        let last = names.last();
        assert forall|i: int| 0 <= i < front.len() implies crate::native::plain_name(
            #[trigger] front[i],
        ) by {
            assert(front[i] == names[i]);
        }
        lemma_slashed(front);
        assert(crate::native::plain_name(names[names.len() - 1]));
        assert(last.contains(last[0]));
        assert(last.contains(last[last.len() - 1]));
        if names.len() == 1 {
            assert(slashed(front) =~= Seq::<u8>::empty());
            assert(slashed(front) + last =~= last);
        } else {
            assert(slashed(front).push(47u8) + last =~= slashed(front) + seq![47u8] + last);
        }
    }
}

/// In a worktree Git is asked whether it tracks a path; a path outside of it is
/// an error. Without a worktree all that is checked out is tracked.
pub proof fn git_is_asked_what_it_tracks(
    repository: &Repository,
    path: &HostPath,
    materialized: Option<&HostPath>,
    result: Result<TrackedQuery, HookError>,
)
    requires
        rooted(path@),
        repository.work_tree matches Some(tree) ==> rooted(tree@),
        materialized matches Some(root) ==> rooted(root@),
        call_ensures(Repository::tracked_query, (repository, path, materialized), result),
    ensures
        repository.work_tree is None ==> result == Ok::<TrackedQuery, HookError>(
            TrackedQuery::Known(
                materialized is Some && crate::promises::selecting::lies_in(
                    path@,
                    materialized->Some_0@,
                ),
            ),
        ),
        repository.work_tree matches Some(tree) ==> {
            &&& result is Ok <==> crate::promises::selecting::lies_in(path@, tree@)
            &&& result matches Ok(query) ==> (query matches TrackedQuery::Ask(list) && list@.len()
                == 6 && list@[0]@ == encode_utf8("-C"@) && list@[1]@ == tree@ && list@[2]@
                == encode_utf8("ls-files"@) && list@[3]@ == encode_utf8("--error-unmatch"@)
                && list@[4]@ == encode_utf8("--"@) && list@[5]@ == slashed(
                path_names(path@).skip(path_names(tree@).len() as int),
            ))
        },
{
    if let Some(root) = materialized {
        crate::promises::selecting::lemma_lies_in(path@, root@);
    }
    if let Some(tree) = repository.work_tree {
        crate::promises::selecting::lemma_lies_in(path@, tree@);
        if let Ok(TrackedQuery::Ask(list)) = result {
            lemma_words(
                list@,
                crate::hooks::repository::tracking_arguments(
                    tree@,
                    crate::native::path_rest(path@, tree@),
                ),
            );
            assert(list@[0]@ == encode_utf8("-C"@));
            assert(list@[1]@ == tree@);
            assert(list@[2]@ == encode_utf8("ls-files"@));
            assert(list@[3]@ == encode_utf8("--error-unmatch"@));
            assert(list@[4]@ == encode_utf8("--"@));
            let names = path_names(path@);
            let rest = names.skip(path_names(tree@).len() as int);
            crate::native::components_are_plain(path@);
            assert forall|i: int| 0 <= i < rest.len() implies crate::native::plain_name(
                #[trigger] rest[i],
            ) by {
                assert(rest[i] == names[path_names(tree@).len() + i]);
            }
            lemma_slashed(rest);
            assert(list@[5]@ == crate::native::path_rest(path@, tree@));
        }
    }
}

/// Git tracks a path if it succeeds, and does not if it fails with one.
pub proof fn one_says_that_a_path_is_not_tracked(
    reply: &Result<GitOutput, String>,
    result: Result<bool, HookError>,
)
    requires
        call_ensures(Repository::is_tracked, (reply,), result),
    ensures
        result == Ok::<bool, HookError>(true) <==> (*reply matches Ok(output) && output.code
            == Some(0i32)),
        result == Ok::<bool, HookError>(false) <==> (*reply matches Ok(output) && output.code
            == Some(1i32)),
{
}

/// Git is asked for the commit of a revision, in the Git directory, and its
/// answer is that commit.
pub proof fn revisions_are_resolved_to_commits(
    repository: &Repository,
    git_dir: Seq<char>,
    revision: &str,
    query: Result<Vec<NativeText>, HookError>,
    reply: &Result<GitOutput, String>,
    commit: Seq<char>,
    result: Result<String, HookError>,
)
    requires
        repository.git_dir@ == encode_utf8(git_dir),
        call_ensures(Repository::commit_query, (repository, revision), query),
        call_ensures(Repository::resolve_commit, (revision, reply), result),
    ensures
        ({
            let blank = forall|i: int|
                0 <= i < revision@.len() ==> white_space(#[trigger] revision@[i]);
            &&& blank ==> (query matches Err(HookError::InvalidRevision(text)) && text@
                == revision@) && (result matches Err(HookError::InvalidRevision(text)) && text@
                == revision@)
            &&& !blank ==> (query matches Ok(list) && has_words(
                list@,
                seq![
                    encode_utf8("--git-dir="@ + git_dir),
                    encode_utf8("rev-parse"@),
                    encode_utf8("--verify"@),
                    encode_utf8("--end-of-options"@),
                    encode_utf8(revision@ + "^{commit}"@),
                ],
            ))
            &&& !blank && bare(commit) && answers(*reply, commit) ==> (result matches Ok(found)
                && found@ == commit)
            &&& !blank && (*reply matches Ok(output) && output.code != Some(0i32)) ==> (
            result matches Err(HookError::InvalidRevision(text)) && text@ == revision@)
            &&& *reply is Err ==> result is Err
        }),
{
    native_text_round_trip(git_dir);
    crate::promises::resolving::lemma_visible(revision@);
    if let Ok(list) = query {
        lemma_words(
            list@,
            crate::hooks::repository::commit_arguments(repository.git_dir@, revision@),
        );
    }
    if bare(commit) && answers(*reply, commit) {
        lemma_answer(*reply, commit);
        native_text_round_trip(commit.push('\n'));
    }
}

/// A worktree may be beside its `.git` directory.
pub proof fn worktrees_are_beside_their_git_directory(
    git_dir: &HostPath,
    configured: &Result<GitOutput, String>,
    result: Result<Vec<HostPath>, HookError>,
)
    requires
        call_ensures(work_tree_candidates, (git_dir, None, configured), result),
        rooted(git_dir@),
        *configured matches Ok(output) && output.code == Some(1i32),
    ensures
        result matches Ok(list) && {
            let names = path_names(git_dir@);
            let is_dot_git = names.len() > 0 && names.last() == encode_utf8(".git"@);
            &&& list@.len() == (if is_dot_git {
                1int
            } else {
                0
            })
            &&& is_dot_git ==> path_names(list@[0]@) == names.drop_last()
        },
{
    let names = path_names(git_dir@);
    if let Ok(list) = result {
        let all = crate::native::path_views(list@);
        assert(all.len() == list@.len());
        if names.len() > 0 && names.last() == encode_utf8(".git"@) {
            assert(all[0] == list@[0]@);
            crate::native::components_are_plain(git_dir@);
            let front = names.drop_last();
            assert forall|i: int| 0 <= i < front.len() implies crate::native::plain_name(
                #[trigger] front[i],
            ) by {
                assert(front[i] == names[i]);
            }
            crate::native::spelled_components(front);
        }
    }
}

/// A linked worktree is the directory of its `gitdir` pointer, and a configured
/// one where the configuration says.
pub proof fn worktrees_are_where_they_are_linked_or_configured(
    git_dir: &HostPath,
    pointer: &str,
    target: Seq<char>,
    configured: &Result<GitOutput, String>,
    place: Seq<char>,
    result: Result<Vec<HostPath>, HookError>,
)
    requires
        call_ensures(work_tree_candidates, (git_dir, Some(pointer), configured), result),
        rooted(git_dir@),
        !(path_names(git_dir@).len() > 0 && path_names(git_dir@).last() == encode_utf8(".git"@)),
        pointer@ == target.push('\n'),
        bare(target),
        rooted(encode_utf8(target)),
        path_names(encode_utf8(target)).len() > 0,
        bare(place),
        answers(*configured, place),
    ensures
        result matches Ok(list) && {
            &&& list@.len() == 2
            &&& path_names(list@[0]@) == path_names(encode_utf8(target)).drop_last()
            &&& rooted(encode_utf8(place)) ==> list@[1]@ == encode_utf8(place)
            &&& crate::native::plain_name(encode_utf8(place)) ==> path_names(list@[1]@)
                == path_names(git_dir@).push(encode_utf8(place))
        },
{
    lemma_answer(*configured, place);
    native_text_round_trip(place.push('\n'));
    lemma_line(target);
    if let Ok(list) = result {
        let all = crate::native::path_views(list@);
        assert(all.len() == list@.len());
        assert(all[0] == list@[0]@);
        assert(all[1] == list@[1]@);
        let bytes = encode_utf8(target);
        crate::native::components_are_plain(bytes);
        let front = path_names(bytes).drop_last();
        assert forall|i: int| 0 <= i < front.len() implies crate::native::plain_name(
            #[trigger] front[i],
        ) by {
            assert(front[i] == path_names(bytes)[i]);
        }
        crate::native::spelled_components(front);
        if crate::native::plain_name(encode_utf8(place)) {
            let word = encode_utf8(place);
            assert(word.contains(word[0]));
            join_adds_one_component(git_dir@, word);
        }
    }
}

proof fn lemma_line(text: Seq<char>)
    requires
        bare(text),
    ensures
        trimmed(text.push('\n')) == text,
{
    let line = text.push('\n');
    assert(line[0] == text[0]);
    assert(trim_start(line) == line);
    assert(line.last() == '\n');
    assert(line.drop_last() =~= text);
    assert(white_space('\n'));
    assert(trim_end(line) == trim_end(text));
    assert(trim_end(text) == text);
}

/// The first place that belongs to the Git directory is its worktree.
pub proof fn the_first_place_of_a_git_directory_is_its_worktree(
    git_dir: &HostPath,
    probes: &Vec<WorkTreeProbe>,
    result: Result<HostPath, HookError>,
    k: int,
)
    requires
        call_ensures(work_tree_among, (git_dir, probes), result),
    ensures
        0 <= k < probes@.len() && is_of(probes@[k], git_dir@) && (forall|i: int|
            0 <= i < k ==> !is_of(#[trigger] probes@[i], git_dir@)) ==> (result matches Ok(path)
            && path@ == probes@[k].resolved->Some_0@),
        (forall|i: int| 0 <= i < probes@.len() ==> !is_of(#[trigger] probes@[i], git_dir@))
            ==> result is Err,
{
    lemma_first_belonging(probes@, git_dir@, k);
}

/// A place resolves, and Git names this directory as its own there.
pub open spec fn is_of(probe: WorkTreeProbe, git_dir: Seq<u8>) -> bool {
    probe.resolved is Some && probe.git_dir is Some && same_path(probe.git_dir->Some_0@, git_dir)
}

proof fn lemma_first_belonging(probes: Seq<WorkTreeProbe>, git_dir: Seq<u8>, k: int)
    ensures
        0 <= k < probes.len() && is_of(probes[k], git_dir) && (forall|i: int|
            0 <= i < k ==> !is_of(#[trigger] probes[i], git_dir)) ==> first_belonging(
            probes,
            git_dir,
        ) == Some(probes[k].resolved->Some_0@),
        (forall|i: int| 0 <= i < probes.len() ==> !is_of(#[trigger] probes[i], git_dir))
            ==> first_belonging(probes, git_dir) is None,
    decreases probes.len(),
{
    if probes.len() > 0 {
        let rest = probes.skip(1);
        lemma_first_belonging(rest, git_dir, k - 1);
        if 0 < k < probes.len() && (forall|i: int|
            0 <= i < k ==> !is_of(#[trigger] probes[i], git_dir)) {
            assert(!is_of(probes[0], git_dir));
            assert(rest[k - 1] == probes[k]);
            assert forall|i: int| 0 <= i < k - 1 implies !is_of(#[trigger] rest[i], git_dir) by {
                assert(!is_of(probes[i + 1], git_dir));
            }
        }
        if forall|i: int| 0 <= i < probes.len() ==> !is_of(#[trigger] probes[i], git_dir) {
            assert(!is_of(probes[0], git_dir));
            assert forall|i: int| 0 <= i < rest.len() implies !is_of(
                #[trigger] rest[i],
                git_dir,
            ) by {
                assert(!is_of(probes[i + 1], git_dir));
            }
        }
    }
}

/// A repository is looked for in a directory, or in that of a file.
pub proof fn repositories_are_looked_for_in_a_directory(
    path: &HostPath,
    is_directory: bool,
    exists_: bool,
    result: Result<HostPath, HookError>,
)
    requires
        rooted(path@),
        path_names(path@).len() > 0,
        call_ensures(discovery_directory, (path, is_directory, exists_), result),
    ensures
        result is Ok <==> is_directory || exists_,
        result matches Ok(directory) ==> path_names(directory@) == (if is_directory {
            path_names(path@)
        } else {
            path_names(path@).drop_last()
        }),
{
    crate::native::components_are_plain(path@);
    let names = path_names(path@);
    let front = names.drop_last();
    assert forall|i: int| 0 <= i < front.len() implies crate::native::plain_name(
        #[trigger] front[i],
    ) by {
        assert(front[i] == names[i]);
    }
    crate::native::spelled_components(front);
}

/// The root is that of the worktree, or the shared Git directory. The policy of a
/// repository stands beside the executables.
pub proof fn repositories_have_a_root_and_a_policy(
    repository: &Repository,
    root: &HostPath,
    directory: HostPath,
    policy: HostPath,
)
    requires
        rooted(repository.common_dir@),
        call_ensures(Repository::root, (repository,), root),
        call_ensures(Repository::pipeline_dir, (repository,), directory),
        call_ensures(Repository::policy_path, (repository,), policy),
    ensures
        repository.work_tree matches Some(tree) ==> root@ == tree@,
        repository.work_tree is None ==> root@ == repository.common_dir@,
        path_names(directory@) == path_names(repository.common_dir@).push(
            encode_utf8("pipeline"@),
        ),
        path_names(policy@) == path_names(directory@).push(encode_utf8("config.yml"@)),
{
    reveal_strlit("pipeline");
    reveal_strlit("config.yml");
    lemma_plain("pipeline"@);
    lemma_plain("config.yml"@);
    join_adds_one_component(repository.common_dir@, encode_utf8("pipeline"@));
    join_adds_one_component(directory@, encode_utf8("config.yml"@));
}

/// A checkout that was advanced from one state to the next by the replies to its
/// steps.
pub open spec fn follows(
    states: Seq<Materialization>,
    steps: Seq<TreeStep>,
    replies: Seq<TreeReply>,
) -> bool {
    &&& states.len() == replies.len() + 1
    &&& steps.len() == states.len()
    &&& forall|i: int| #![trigger states[i]]
        0 <= i < states.len() ==> call_ensures(Materialization::step, (&states[i],), steps[i])
    &&& forall|i: int| #![trigger replies[i]]
        0 <= i < replies.len() ==> call_ensures(
            Materialization::advance,
            (states[i], replies[i]),
            states[i + 1],
        )
}

/// A step runs Git with these words, and these variables.
pub open spec fn runs_git(
    step: TreeStep,
    words: Seq<Seq<u8>>,
    variables: Seq<(Seq<u8>, Seq<u8>)>,
) -> bool {
    step matches TreeStep::Git { arguments, environment } && has_words(arguments@, words)
        && environment@.len() == variables.len() && forall|i: int|
        0 <= i < variables.len() ==> ((#[trigger] environment@[i]).0@, environment@[i].1@)
            == variables[i]
}

proof fn lemma_runs_git(
    step: TreeStep,
    words: Seq<Seq<u8>>,
    variables: Seq<(Seq<u8>, Seq<u8>)>,
)
    requires
        crate::hooks::materialize::tree_step_view(step)
            == (crate::hooks::materialize::TreeStepView::Git {
            arguments: words,
            environment: variables,
        }),
    ensures
        runs_git(step, words, variables),
{
    if let TreeStep::Git { arguments, environment } = step {
        lemma_words(arguments@, words);
        let all = crate::definition::project::variable_views(environment@);
        assert(all.len() == environment@.len());
        assert forall|i: int| 0 <= i < variables.len() implies ((
        #[trigger] environment@[i]).0@, environment@[i].1@) == variables[i] by {
            assert(all[i] == (environment@[i].0@, environment@[i].1@));
        }
    }
}

/// A revision is resolved in the Git directory, a directory is made, and the tree
/// of the commit is read into an index there and written out beside it. Git LFS
/// is kept from fetching. What is given back is that tree, with that index.
pub proof fn commits_are_checked_out_on_their_own(
    repository: &Repository,
    git_dir: Seq<char>,
    revision: &str,
    states: Seq<Materialization>,
    steps: Seq<TreeStep>,
    replies: Seq<TreeReply>,
    commit: Seq<char>,
    directory: Seq<char>,
    result: Result<MaterializedTree, HookError>,
)
    requires
        repository.git_dir@ == encode_utf8(git_dir),
        bare(revision@),
        bare(commit),
        call_ensures(Materialization::new, (repository, revision), states[0]),
        follows(states, steps, replies),
        replies.len() == 5,
        replies[0] matches TreeReply::Ran(reply) && answers(reply, commit),
        replies[1] matches TreeReply::Directory(path) && rooted(path@),
        replies[2] is Done,
        replies[3] matches TreeReply::Ran(Ok(output)) && output.code == Some(0i32),
        replies[4] matches TreeReply::Ran(Ok(output)) && output.code == Some(0i32),
        call_ensures(Materialization::finish, (states[5],), result),
    ensures
        result matches Ok(tree) && {
            let home = replies[1]->Directory_0@;
            &&& tree.commit@ == commit
            &&& path_names(tree.root@) == path_names(home).push(encode_utf8("worktree"@))
            &&& path_names(tree.index@) == path_names(home).push(encode_utf8("index"@))
            &&& runs_git(
                steps[0],
                seq![
                    encode_utf8("--git-dir="@ + git_dir),
                    encode_utf8("rev-parse"@),
                    encode_utf8("--verify"@),
                    encode_utf8("--end-of-options"@),
                    encode_utf8(revision@ + "^{commit}"@),
                ],
                seq![],
            )
            &&& steps[1] is MakeTemporary
            &&& steps[2] matches TreeStep::MakeDirectory(path) && path@ == tree.root@
            &&& runs_git(
                steps[3],
                seq![
                    encode_utf8("--git-dir="@ + git_dir),
                    encode_utf8("read-tree"@),
                    encode_utf8("--"@),
                    encode_utf8(commit),
                ],
                seq![(encode_utf8("GIT_INDEX_FILE"@), tree.index@)],
            )
            &&& runs_git(
                steps[4],
                seq![
                    encode_utf8("--git-dir="@ + git_dir),
                    encode_utf8("--work-tree="@ + crate::native::lossy(tree.root@)),
                    encode_utf8("checkout-index"@),
                    encode_utf8("--all"@),
                    encode_utf8("--force"@),
                ],
                seq![
                    (encode_utf8("GIT_INDEX_FILE"@), tree.index@),
                    (encode_utf8("GIT_LFS_SKIP_SMUDGE"@), encode_utf8("1"@)),
                ],
            )
            &&& steps[5] is End
        },
{
    native_text_round_trip(git_dir);
    crate::promises::resolving::lemma_visible(revision@);
    assert(!white_space(revision@[0]));
    lemma_answer(replies[0]->Ran_0, commit);
    native_text_round_trip(commit.push('\n'));
    let home = replies[1]->Directory_0@;
    reveal_strlit("worktree");
    reveal_strlit("index");
    lemma_plain("worktree"@);
    lemma_plain("index"@);
    join_adds_one_component(home, encode_utf8("worktree"@));
    join_adds_one_component(home, encode_utf8("index"@));
    let s0 = states[0];
    let s1 = states[1];
    let s2 = states[2];
    let s3 = states[3];
    let s4 = states[4];
    let s5 = states[5];
    let r0 = replies[0];
    let r1 = replies[1];
    let r2 = replies[2];
    let r3 = replies[3];
    let r4 = replies[4];
    assert(s0@.phase is Resolve);
    assert(s1@.phase is MakeTemporary);
    assert(s2@.phase is MakeRoot);
    assert(s3@.phase is ReadTree);
    assert(s4@.phase is Checkout);
    assert(s5@.phase is Ready);
    let tree = result->Ok_0;
    lemma_runs_git(
        steps[0],
        seq![
            encode_utf8("--git-dir="@ + git_dir),
            encode_utf8("rev-parse"@),
            encode_utf8("--verify"@),
            encode_utf8("--end-of-options"@),
            encode_utf8(revision@ + "^{commit}"@),
        ],
        seq![],
    );
    lemma_runs_git(
        steps[3],
        seq![
            encode_utf8("--git-dir="@ + git_dir),
            encode_utf8("read-tree"@),
            encode_utf8("--"@),
            encode_utf8(commit),
        ],
        seq![(encode_utf8("GIT_INDEX_FILE"@), tree.index@)],
    );
    lemma_runs_git(
        steps[4],
        seq![
            encode_utf8("--git-dir="@ + git_dir),
            encode_utf8("--work-tree="@ + crate::native::lossy(tree.root@)),
            encode_utf8("checkout-index"@),
            encode_utf8("--all"@),
            encode_utf8("--force"@),
        ],
        seq![
            (encode_utf8("GIT_INDEX_FILE"@), tree.index@),
            (encode_utf8("GIT_LFS_SKIP_SMUDGE"@), encode_utf8("1"@)),
        ],
    );
}

/// A checkout that fails on the way gives no tree.
pub proof fn broken_checkouts_give_no_tree(
    state: Materialization,
    reply: TreeReply,
    next: Materialization,
    step: TreeStep,
    result: Result<MaterializedTree, HookError>,
)
    requires
        !(state@.phase is Ready),
        call_ensures(Materialization::advance, (state, reply), next),
        call_ensures(Materialization::step, (&next,), step),
        call_ensures(Materialization::finish, (next,), result),
        reply is Refused || (reply matches TreeReply::Ran(answer) && fails(answer)
            && !(state@.phase is MakeTemporary) && !(state@.phase is MakeRoot)),
    ensures
        step is End,
        result is Err,
{
}

} // verus!
