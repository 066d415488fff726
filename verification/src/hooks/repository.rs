//! A Git repository and where its parts live.

use crate::hooks::error::HookError;
use crate::hooks::git::{
    answers_text, canonicalize_existing, git_failure, git_text, hooks_path_outcome, operation_name,
    output_text, reject_configured_hooks_path, reports_failure, resolves, succeeded, GitOutput,
};
use crate::native::{
    copy_bytes, from_utf8, lossy, native_views, path_join, path_names, path_rest, path_views,
    path_within, rooted, same_path, spelled, HostPath, NativeText, DOT,
};
use crate::text::{chars_of, concat2, trim, trimmed, views};
use vstd::prelude::*;
use vstd::utf8::{decode_utf8, encode_utf8, valid_utf8};

verus! {

pub const PIPELINE_DIRECTORY: &'static str = "pipeline";

pub const INSTALLED_PIPELINE_NAME: &'static str = "pipeline";

pub const INSTALLED_JUST_NAME: &'static str = "just";

/// A repository.
#[derive(Debug, PartialEq, Eq)]
pub struct Repository {
    /// Directory from which discovery was requested.
    pub invocation_dir: HostPath,
    /// Worktree-specific Git directory (`.git` for an ordinary repository).
    pub git_dir: HostPath,
    /// Shared Git directory. Hook wrappers and installed binaries live here.
    pub common_dir: HostPath,
    /// Worktree root, or `None` for a bare repository.
    pub work_tree: Option<HostPath>,
    pub bare: bool,
}

/// The directory below the shared Git directory that Pipeline owns.
pub open spec fn pipeline_home(repository: Repository) -> Seq<u8> {
    path_join(repository.common_dir@, encode_utf8(PIPELINE_DIRECTORY@))
}

/// The hooks directory.
pub open spec fn hooks_home(repository: Repository) -> Seq<u8> {
    path_join(repository.common_dir@, encode_utf8("hooks"@))
}

fn three(a: &str, b: &str, c: &str) -> (list: Vec<String>)
    ensures
        views(list@) == seq![a@, b@, c@],
{
    let mut list: Vec<String> = Vec::new();
    list.push(String::from_str(a));
    list.push(String::from_str(b));
    list.push(String::from_str(c));
    proof {
        assert(views(list@) =~= seq![a@, b@, c@]);
    }
    list
}

/// Asks for the worktree-specific Git directory.
pub fn git_dir_query() -> (arguments: Vec<String>)
    ensures
        views(arguments@) == seq!["rev-parse"@, "--path-format=absolute"@, "--git-dir"@],
{
    three("rev-parse", "--path-format=absolute", "--git-dir")
}

/// Asks for the shared Git directory.
pub fn common_dir_query() -> (arguments: Vec<String>)
    ensures
        views(arguments@) == seq!["rev-parse"@, "--path-format=absolute"@, "--git-common-dir"@],
{
    three("rev-parse", "--path-format=absolute", "--git-common-dir")
}

/// Asks whether the repository is bare.
pub fn bare_query() -> (arguments: Vec<String>)
    ensures
        views(arguments@) == seq!["rev-parse"@, "--is-bare-repository"@],
{
    let mut list: Vec<String> = Vec::new();
    list.push(String::from_str("rev-parse"));
    list.push(String::from_str("--is-bare-repository"));
    proof {
        assert(views(list@) =~= seq!["rev-parse"@, "--is-bare-repository"@]);
    }
    list
}

/// Asks for the root of the worktree.
pub fn top_level_query() -> (arguments: Vec<String>)
    ensures
        views(arguments@) == seq!["rev-parse"@, "--show-toplevel"@],
{
    let mut list: Vec<String> = Vec::new();
    list.push(String::from_str("rev-parse"));
    list.push(String::from_str("--show-toplevel"));
    proof {
        assert(views(list@) =~= seq!["rev-parse"@, "--show-toplevel"@]);
    }
    list
}

/// What Git and the system say about a directory.
pub struct DiscoveryReplies {
    pub git_dir: Result<GitOutput, String>,
    pub common_dir: Result<GitOutput, String>,
    pub bare: Result<GitOutput, String>,
    pub hooks_path: Result<GitOutput, String>,
    pub resolved_git_dir: Result<HostPath, String>,
    pub resolved_common_dir: Result<HostPath, String>,
    pub work_tree: WorkTreeReplies,
    pub resolved_invocation_dir: Result<HostPath, String>,
}

/// What Git and the system say about the worktree of a Git directory.
pub struct WorkTreeReplies {
    pub top_level: Result<GitOutput, String>,
    pub resolved_top_level: Result<HostPath, String>,
    /// Asked for where Git does not name the root.
    pub elsewhere: Option<Elsewhere>,
}

/// The places where a worktree may be, besides the root that Git names: the
/// `gitdir` file, if it could be read, what `git config --get core.worktree`
/// answers, and what stands at the candidates that these two give.
pub struct Elsewhere {
    pub pointer: Option<String>,
    pub configured: Result<GitOutput, String>,
    pub probes: Vec<WorkTreeProbe>,
}

/// The trimmed text of an answer that has one.
pub open spec fn reply_text(reply: Result<GitOutput, String>) -> Option<Seq<char>> {
    match reply {
        Ok(output) => if output.code == Some(0i32) && valid_utf8(output.stdout@) {
            Some(trimmed(decode_utf8(output.stdout@)))
        } else {
            None
        },
        Err(_) => None,
    }
}

/// The repository is bare.
pub open spec fn says_bare(replies: DiscoveryReplies) -> bool {
    reply_text(replies.bare) == Some("true"@)
}

/// The hooks directory is Git's own.
pub open spec fn standard_hooks(reply: Result<GitOutput, String>) -> bool {
    reply matches Ok(output) && output.code == Some(1i32)
}

/// What the replies make of a directory: the first failure in the order in
/// which Git is asked, or the repository.
pub open spec fn discovers(
    invocation_dir: Seq<u8>,
    replies: DiscoveryReplies,
    result: Result<Repository, HookError>,
) -> bool {
    if reply_text(replies.git_dir) is None {
        result matches Err(error) && answers_text(
            operation_name(seq!["rev-parse"@, "--path-format=absolute"@, "--git-dir"@]),
            replies.git_dir,
            Err(error),
        )
    } else if reply_text(replies.common_dir) is None {
        result matches Err(error) && answers_text(
            operation_name(seq!["rev-parse"@, "--path-format=absolute"@, "--git-common-dir"@]),
            replies.common_dir,
            Err(error),
        )
    } else if reply_text(replies.bare) is None {
        result matches Err(error) && answers_text(
            operation_name(seq!["rev-parse"@, "--is-bare-repository"@]),
            replies.bare,
            Err(error),
        )
    } else if !standard_hooks(replies.hooks_path) {
        result matches Err(error) && hooks_path_outcome(replies.hooks_path, Err(error))
    } else if replies.resolved_git_dir is Err {
        result matches Err(error) && resolves(
            encode_utf8(reply_text(replies.git_dir)->Some_0),
            replies.resolved_git_dir,
            Err(error),
        )
    } else if replies.resolved_common_dir is Err {
        result matches Err(error) && resolves(
            encode_utf8(reply_text(replies.common_dir)->Some_0),
            replies.resolved_common_dir,
            Err(error),
        )
    } else if !says_bare(replies) && found_work_tree(
        replies.resolved_git_dir->Ok_0@,
        replies.work_tree,
    ) is None {
        result matches Err(error) && finds_work_tree(
            replies.resolved_git_dir->Ok_0@,
            replies.work_tree,
            Err(error),
        )
    } else if replies.resolved_invocation_dir is Err {
        result matches Err(error) && resolves(
            invocation_dir,
            replies.resolved_invocation_dir,
            Err(error),
        )
    } else {
        &&& result matches Ok(repository)
        &&& repository.invocation_dir@ == replies.resolved_invocation_dir->Ok_0@
        &&& repository.git_dir@ == replies.resolved_git_dir->Ok_0@
        &&& repository.common_dir@ == replies.resolved_common_dir->Ok_0@
        &&& repository.bare == says_bare(replies)
        &&& match repository.work_tree {
            None => says_bare(replies),
            Some(tree) => !says_bare(replies) && Some(tree@) == found_work_tree(
                replies.resolved_git_dir->Ok_0@,
                replies.work_tree,
            ),
        }
    }
}

/// A revision of blanks only.
pub open spec fn blank(revision: Seq<char>) -> bool {
    trimmed(revision).len() == 0
}

/// What resolving a revision to a commit gives.
pub open spec fn resolves_commit(
    revision: Seq<char>,
    reply: Result<GitOutput, String>,
    result: Result<String, HookError>,
) -> bool {
    if blank(revision) {
        result matches Err(HookError::InvalidRevision(text)) && text@ == revision
    } else {
        match reply {
            Err(text) => result matches Err(HookError::GitStart { source }) && source@ == text@,
            Ok(output) => if output.code != Some(0i32) {
                result matches Err(HookError::InvalidRevision(text)) && text@ == revision
            } else if !valid_utf8(output.stdout@) {
                result matches Err(HookError::GitNonUtf8(name)) && name@ == "git rev-parse"@
            } else if trimmed(decode_utf8(output.stdout@)).len() == 0 {
                result matches Err(HookError::InvalidRevision(text)) && text@ == revision
            } else {
                result matches Ok(commit) && commit@ == trimmed(decode_utf8(output.stdout@))
            },
        }
    }
}

/// The path of a worktree file, from its root where it is relative.
pub open spec fn in_work_tree(work_tree: Seq<u8>, path: Seq<u8>) -> Seq<u8> {
    if rooted(path) {
        path
    } else {
        path_join(work_tree, path)
    }
}

fn is_blank(text: &str) -> (yes: bool)
    ensures
        yes == blank(text@),
{
    let rest = trim(text);
    let chars = chars_of(rest.as_str());
    chars.len() == 0
}

/// The arguments by which Git looks a path of the worktree up in the index.
pub open spec fn tracking_arguments(work_tree: Seq<u8>, relative: Seq<u8>) -> Seq<Seq<u8>> {
    seq![
        encode_utf8("-C"@),
        work_tree,
        encode_utf8("ls-files"@),
        encode_utf8("--error-unmatch"@),
        encode_utf8("--"@),
        relative,
    ]
}

/// The arguments by which Git resolves a revision to a commit.
pub open spec fn commit_arguments(git_dir: Seq<u8>, revision: Seq<char>) -> Seq<Seq<u8>> {
    seq![
        encode_utf8("--git-dir="@ + lossy(git_dir)),
        encode_utf8("rev-parse"@),
        encode_utf8("--verify"@),
        encode_utf8("--end-of-options"@),
        encode_utf8(revision + "^{commit}"@),
    ]
}

/// Whether a path is tracked, or how Git is asked about it.
#[derive(Debug, PartialEq, Eq)]
pub enum TrackedQuery {
    Ask(Vec<NativeText>),
    Known(bool),
}

impl Clone for Repository {
    fn clone(&self) -> (copy: Repository)
        ensures
            copy.invocation_dir@ == self.invocation_dir@,
            copy.git_dir@ == self.git_dir@,
            copy.common_dir@ == self.common_dir@,
            match self.work_tree {
                Some(path) => copy.work_tree matches Some(same) && same@ == path@,
                None => copy.work_tree is None,
            },
            copy.bare == self.bare,
    {
        Repository {
            invocation_dir: self.invocation_dir.clone(),
            git_dir: self.git_dir.clone(),
            common_dir: self.common_dir.clone(),
            work_tree: match &self.work_tree {
                Some(path) => Some(path.clone()),
                None => None,
            },
            bare: self.bare,
        }
    }
}

impl Repository {
    /// The repository that a directory belongs to.
    pub fn discover(invocation_dir: &HostPath, replies: DiscoveryReplies) -> (result: Result<
        Repository,
        HookError,
    >)
        requires
            !says_bare(replies) && replies.resolved_git_dir is Ok ==> work_tree_asked(
                replies.resolved_git_dir->Ok_0@,
                replies.work_tree,
            ),
        ensures
            discovers(invocation_dir@, replies, result),
    {
        let git_dir = match git_text(&git_dir_query(), &replies.git_dir) {
            Ok(text) => text,
            Err(error) => {
                return Err(error);
            },
        };
        let common_dir = match git_text(&common_dir_query(), &replies.common_dir) {
            Ok(text) => text,
            Err(error) => {
                return Err(error);
            },
        };
        let bare = match git_text(&bare_query(), &replies.bare) {
            Ok(text) => *text.as_str() == *"true",
            Err(error) => {
                return Err(error);
            },
        };
        if let Err(error) = reject_configured_hooks_path(&replies.hooks_path) {
            return Err(error);
        }
        let git_dir = match canonicalize_existing(
            &HostPath::from_text(git_dir.as_str()),
            replies.resolved_git_dir,
        ) {
            Ok(path) => path,
            Err(error) => {
                return Err(error);
            },
        };
        let common_dir = match canonicalize_existing(
            &HostPath::from_text(common_dir.as_str()),
            replies.resolved_common_dir,
        ) {
            Ok(path) => path,
            Err(error) => {
                return Err(error);
            },
        };
        let work_tree = if bare {
            None
        } else {
            match discover_work_tree(&git_dir, replies.work_tree) {
                Ok(path) => Some(path),
                Err(error) => {
                    return Err(error);
                },
            }
        };
        match canonicalize_existing(invocation_dir, replies.resolved_invocation_dir) {
            Ok(invocation_dir) => Ok(
                Repository { invocation_dir, git_dir, common_dir, work_tree, bare },
            ),
            Err(error) => Err(error),
        }
    }

    pub fn hooks_dir(&self) -> (path: HostPath)
        ensures
            path@ == hooks_home(*self),
    {
        self.common_dir.join("hooks")
    }

    pub fn pipeline_dir(&self) -> (path: HostPath)
        ensures
            path@ == pipeline_home(*self),
    {
        self.common_dir.join(PIPELINE_DIRECTORY)
    }

    pub fn installed_pipeline(&self) -> (path: HostPath)
        ensures
            path@ == path_join(pipeline_home(*self), encode_utf8(INSTALLED_PIPELINE_NAME@)),
    {
        self.pipeline_dir().join(INSTALLED_PIPELINE_NAME)
    }

    pub fn installed_just(&self) -> (path: HostPath)
        ensures
            path@ == path_join(pipeline_home(*self), encode_utf8(INSTALLED_JUST_NAME@)),
    {
        self.pipeline_dir().join(INSTALLED_JUST_NAME)
    }

    pub fn policy_path(&self) -> (path: HostPath)
        ensures
            path@ == path_join(pipeline_home(*self), encode_utf8("config.yml"@)),
    {
        self.pipeline_dir().join("config.yml")
    }

    /// The worktree, or the Git directory of a bare repository.
    pub fn root(&self) -> (path: &HostPath)
        ensures
            path@ == (match self.work_tree {
                Some(tree) => tree@,
                None => self.common_dir@,
            }),
    {
        match &self.work_tree {
            Some(tree) => tree,
            None => &self.common_dir,
        }
    }

    /// The option by which Git is pointed at this repository: its own Git
    /// directory, through which shared objects and refs are reached as well.
    pub fn git_dir_option(&self) -> (option: String)
        ensures
            option@ == "--git-dir="@ + lossy(self.git_dir@),
    {
        concat2("--git-dir=", self.git_dir.shown().as_str())
    }

    /// What is known of whether a path is tracked. Without a worktree, what
    /// stands below `materialized` is tracked: a commit that is checked out
    /// there holds nothing else.
    pub fn tracked_query(&self, path: &HostPath, materialized: Option<&HostPath>) -> (result:
        Result<TrackedQuery, HookError>)
        ensures
            match self.work_tree {
                None => result matches Ok(TrackedQuery::Known(yes)) && yes == (
                materialized matches Some(root) && path_within(path@, root@)),
                Some(tree) => {
                    let absolute = in_work_tree(tree@, path@);
                    if path_within(absolute, tree@) {
                        result matches Ok(TrackedQuery::Ask(list)) && native_views(list@)
                            == tracking_arguments(tree@, path_rest(absolute, tree@))
                    } else {
                        result matches Err(HookError::OutsideRepository { path: at, root })
                            && at@ == absolute && root@ == tree@
                    }
                },
            },
    {
        let tree = match &self.work_tree {
            Some(tree) => tree,
            None => {
                let yes = match materialized {
                    Some(root) => path.starts_with(root),
                    None => false,
                };
                return Ok(TrackedQuery::Known(yes));
            },
        };
        let absolute = if path.is_absolute() {
            path.clone()
        } else {
            tree.join_bytes(path.bytes.as_slice())
        };
        match absolute.relative_to(tree) {
            Some(relative) => {
                let mut list: Vec<NativeText> = Vec::new();
                list.push(NativeText::from_text("-C"));
                list.push(NativeText { bytes: tree.clone().bytes });
                list.push(NativeText::from_text("ls-files"));
                list.push(NativeText::from_text("--error-unmatch"));
                list.push(NativeText::from_text("--"));
                list.push(NativeText { bytes: relative.bytes });
                proof {
                    assert(native_views(list@) =~= tracking_arguments(
                        tree@,
                        path_rest(absolute@, tree@),
                    ));
                }
                Ok(TrackedQuery::Ask(list))
            },
            None => Err(HookError::OutsideRepository { path: absolute, root: tree.clone() }),
        }
    }

    /// Whether `git ls-files --error-unmatch` knows a path.
    pub fn is_tracked(reply: &Result<GitOutput, String>) -> (result: Result<bool, HookError>)
        ensures
            match reply {
                Err(text) => result matches Err(HookError::GitStart { source }) && source@
                    == text@,
                Ok(output) => if output.code == Some(0i32) {
                    result == Ok::<bool, HookError>(true)
                } else if output.code == Some(1i32) {
                    result == Ok::<bool, HookError>(false)
                } else {
                    result matches Err(error) && reports_failure(
                        error,
                        "git ls-files"@,
                        *output,
                    )
                },
            },
    {
        match reply {
            Err(text) => Err(HookError::GitStart { source: String::from_str(text.as_str()) }),
            Ok(output) => match output.code {
                Some(0) => Ok(true),
                Some(1) => Ok(false),
                _ => Err(git_failure("git ls-files", output)),
            },
        }
    }

    /// How Git is asked for the commit of a revision, unless that is blank.
    pub fn commit_query(&self, revision: &str) -> (result: Result<Vec<NativeText>, HookError>)
        ensures
            blank(revision@) ==> (result matches Err(HookError::InvalidRevision(text)) && text@
                == revision@),
            !blank(revision@) ==> (result matches Ok(list) && native_views(list@)
                == commit_arguments(self.git_dir@, revision@)),
    {
        if is_blank(revision) {
            return Err(HookError::InvalidRevision(String::from_str(revision)));
        }
        let mut list: Vec<NativeText> = Vec::new();
        list.push(NativeText::from_text(self.git_dir_option().as_str()));
        list.push(NativeText::from_text("rev-parse"));
        list.push(NativeText::from_text("--verify"));
        list.push(NativeText::from_text("--end-of-options"));
        list.push(NativeText::from_text(concat2(revision, "^{commit}").as_str()));
        proof {
            assert(native_views(list@) =~= commit_arguments(self.git_dir@, revision@));
        }
        Ok(list)
    }

    /// The commit that a revision resolves to, from what `git rev-parse
    /// --verify` answered. Objects other than commits are not accepted.
    pub fn resolve_commit(revision: &str, reply: &Result<GitOutput, String>) -> (result: Result<
        String,
        HookError,
    >)
        ensures
            resolves_commit(revision@, *reply, result),
    {
        if is_blank(revision) {
            return Err(HookError::InvalidRevision(String::from_str(revision)));
        }
        match reply {
            Err(text) => Err(HookError::GitStart { source: String::from_str(text.as_str()) }),
            Ok(output) => {
                if !succeeded(output) {
                    return Err(HookError::InvalidRevision(String::from_str(revision)));
                }
                let commit = match output_text("git rev-parse", output) {
                    Ok(commit) => commit,
                    Err(error) => {
                        return Err(error);
                    },
                };
                let chars = chars_of(commit.as_str());
                if chars.len() == 0 {
                    Err(HookError::InvalidRevision(String::from_str(revision)))
                } else {
                    Ok(commit)
                }
            },
        }
    }
}

/// Where a worktree may be, besides the root that Git names: beside a `.git`
/// directory, where the `gitdir` pointer of a linked worktree leads, and where
/// `core.worktree` says.
pub open spec fn work_tree_places(
    git_dir: Seq<u8>,
    pointer: Option<Seq<char>>,
    configured: GitOutput,
) -> Seq<Seq<u8>> {
    let names = path_names(git_dir);
    let beside: Seq<Seq<u8>> = if names.len() > 0 && names.last() == encode_utf8(".git"@) {
        seq![spelled(rooted(git_dir), names.drop_last())]
    } else {
        seq![]
    };
    let linked: Seq<Seq<u8>> = match pointer {
        Some(text) => {
            let target = in_work_tree(git_dir, encode_utf8(trimmed(text)));
            let parts = path_names(target);
            if parts.len() > 0 {
                seq![spelled(rooted(target), parts.drop_last())]
            } else {
                seq![]
            }
        },
        None => seq![],
    };
    let named: Seq<Seq<u8>> = if configured.code == Some(0i32) {
        seq![in_work_tree(git_dir, encode_utf8(trimmed(decode_utf8(configured.stdout@))))]
    } else {
        seq![]
    };
    beside + linked + named
}

fn below(git_dir: &HostPath, text: &str) -> (path: HostPath)
    ensures
        path@ == in_work_tree(git_dir@, encode_utf8(text@)),
{
    let path = HostPath::from_text(text);
    if path.is_absolute() {
        path
    } else {
        git_dir.join_bytes(path.bytes.as_slice())
    }
}

/// The places where a worktree is looked for. `pointer` is the `gitdir` file,
/// if it could be read; `configured` answers `git config --get core.worktree`.
pub fn work_tree_candidates(
    git_dir: &HostPath,
    pointer: Option<&str>,
    configured: &Result<GitOutput, String>,
) -> (result: Result<Vec<HostPath>, HookError>)
    ensures
        match configured {
            Err(text) => result matches Err(HookError::GitStart { source }) && source@ == text@,
            Ok(output) => if output.code == Some(0i32) && !valid_utf8(output.stdout@) {
                result matches Err(HookError::GitNonUtf8(name)) && name@
                    == "git config --get core.worktree"@
            } else {
                result matches Ok(list) && path_views(list@) == work_tree_places(
                    git_dir@,
                    match pointer {
                        Some(text) => Some(text@),
                        None => None,
                    },
                    *output,
                )
            },
        },
{
    let mut list: Vec<HostPath> = Vec::new();
    let ghost mut expected: Seq<Seq<u8>> = seq![];
    if let Some(name) = git_dir.file_name() {
        if name.is_text(".git") {
            if let Some(parent) = git_dir.parent() {
                list.push(parent);
            }
        }
    }
    proof {
        lemma_git_name();
        expected = path_views(list@);
        let names = path_names(git_dir@);
        if names.len() > 0 && names.last() == encode_utf8(".git"@) {
            assert(expected =~= seq![spelled(rooted(git_dir@), names.drop_last())]);
        } else {
            assert(expected =~= seq![]);
        }
    }
    let ghost beside = list@;
    if let Some(text) = pointer {
        let target = below(git_dir, trim(text).as_str());
        if let Some(parent) = target.parent() {
            list.push(parent);
            proof {
                assert(path_views(list@) =~= path_views(beside) + seq![parent@]);
            }
        }
    }
    let ghost linked = list@;
    match configured {
        Err(text) => Err(HookError::GitStart { source: String::from_str(text.as_str()) }),
        Ok(output) => {
            if succeeded(output) {
                match from_utf8(copy_bytes(output.stdout.as_slice())) {
                    Some(text) => {
                        let place = below(git_dir, trim(text.as_str()).as_str());
                        proof {
                            assert(path_views(linked.push(place)) =~= path_views(linked) + seq![
                                place@,
                            ]);
                        }
                        list.push(place);
                    },
                    None => {
                        return Err(
                            HookError::GitNonUtf8(
                                String::from_str("git config --get core.worktree"),
                            ),
                        );
                    },
                }
            }
            proof {
                assert(path_views(list@) =~= work_tree_places(
                    git_dir@,
                    match pointer {
                        Some(text) => Some(text@),
                        None => None,
                    },
                    *output,
                ));
            }
            Ok(list)
        },
    }
}

proof fn lemma_git_name()
    ensures
        encode_utf8(".git"@) != seq![DOT],
        encode_utf8(".git"@) != seq![DOT, DOT],
{
    reveal_strlit(".git");
    vstd::utf8::is_ascii_chars_encode_utf8(".git"@);
    assert(encode_utf8(".git"@).len() == 4);
}

/// A place where a worktree was looked for: where it resolves to, and which Git
/// directory it belongs to, as far as either could be told.
pub struct WorkTreeProbe {
    pub resolved: Option<HostPath>,
    pub git_dir: Option<HostPath>,
}

/// The place belongs to the Git directory.
pub open spec fn belongs(probe: WorkTreeProbe, git_dir: Seq<u8>) -> bool {
    probe.resolved is Some && (probe.git_dir matches Some(found) && same_path(found@, git_dir))
}

/// The first place that belongs to the Git directory.
pub open spec fn first_belonging(probes: Seq<WorkTreeProbe>, git_dir: Seq<u8>) -> Option<Seq<u8>>
    decreases probes.len(),
{
    if probes.len() == 0 {
        None
    } else if belongs(probes[0], git_dir) {
        Some(probes[0].resolved->Some_0@)
    } else {
        first_belonging(probes.skip(1), git_dir)
    }
}

/// The worktree of a Git directory: the first place that belongs to it.
pub fn work_tree_among(git_dir: &HostPath, probes: &Vec<WorkTreeProbe>) -> (result: Result<
    HostPath,
    HookError,
>)
    ensures
        match first_belonging(probes@, git_dir@) {
            Some(place) => result matches Ok(path) && path@ == place,
            None => result matches Err(HookError::WorkTreeNotFound(path)) && path@ == git_dir@,
        },
{
    proof {
        assert(probes@.skip(0) =~= probes@);
    }
    let mut i: usize = 0;
    while i < probes.len()
        invariant
            i <= probes.len(),
            first_belonging(probes@, git_dir@) == first_belonging(
                probes@.skip(i as int),
                git_dir@,
            ),
        decreases probes.len() - i,
    {
        proof {
            assert(probes@.skip(i as int)[0] == probes@[i as int]);
            assert(probes@.skip(i as int).skip(1) =~= probes@.skip(i as int + 1));
        }
        if let Some(path) = &probes[i].resolved {
            if let Some(found) = &probes[i].git_dir {
                if found.is_same(git_dir) {
                    return Ok(path.clone());
                }
            }
        }
        i += 1;
    }
    Err(HookError::WorkTreeNotFound(git_dir.clone()))
}

pub open spec fn pointer_view(pointer: Option<String>) -> Option<Seq<char>> {
    match pointer {
        Some(text) => Some(text@),
        None => None,
    }
}

/// Git says where else a worktree may be.
pub open spec fn configured_readable(configured: Result<GitOutput, String>) -> bool {
    configured matches Ok(output) && (output.code == Some(0i32) ==> valid_utf8(output.stdout@))
}

/// Where Git does not name the root, every other place was looked at.
pub open spec fn work_tree_asked(git_dir: Seq<u8>, replies: WorkTreeReplies) -> bool {
    reply_text(replies.top_level) is None ==> {
        &&& replies.elsewhere matches Some(other)
        &&& configured_readable(other.configured) ==> other.probes@.len() == work_tree_places(
            git_dir,
            pointer_view(other.pointer),
            other.configured->Ok_0,
        ).len()
    }
}

/// The worktree of a Git directory: the root that Git names, and only where Git
/// names none the first other place that belongs to the Git directory.
pub open spec fn found_work_tree(git_dir: Seq<u8>, replies: WorkTreeReplies) -> Option<Seq<u8>> {
    if reply_text(replies.top_level) is Some {
        match replies.resolved_top_level {
            Ok(path) => Some(path@),
            Err(_) => None,
        }
    } else if configured_readable(replies.elsewhere->Some_0.configured) {
        first_belonging(replies.elsewhere->Some_0.probes@, git_dir)
    } else {
        None
    }
}

/// The worktree of a Git directory, or why there is none.
pub open spec fn finds_work_tree(
    git_dir: Seq<u8>,
    replies: WorkTreeReplies,
    result: Result<HostPath, HookError>,
) -> bool {
    match found_work_tree(git_dir, replies) {
        Some(place) => result matches Ok(path) && path@ == place,
        None => match reply_text(replies.top_level) {
            Some(text) => resolves(encode_utf8(text), replies.resolved_top_level, result),
            None => match replies.elsewhere->Some_0.configured {
                Err(text) => result matches Err(HookError::GitStart { source }) && source@ == text@,
                Ok(output) => if output.code == Some(0i32) && !valid_utf8(output.stdout@) {
                    result matches Err(HookError::GitNonUtf8(name)) && name@
                        == "git config --get core.worktree"@
                } else {
                    result matches Err(HookError::WorkTreeNotFound(path)) && path@ == git_dir
                },
            },
        },
    }
}

/// The worktree of a Git directory.
pub fn discover_work_tree(git_dir: &HostPath, replies: WorkTreeReplies) -> (result: Result<
    HostPath,
    HookError,
>)
    requires
        work_tree_asked(git_dir@, replies),
    ensures
        finds_work_tree(git_dir@, replies, result),
{
    if let Ok(text) = git_text(&top_level_query(), &replies.top_level) {
        return canonicalize_existing(
            &HostPath::from_text(text.as_str()),
            replies.resolved_top_level,
        );
    }
    match replies.elsewhere {
        Some(other) => {
            let pointer = match &other.pointer {
                Some(text) => Some(text.as_str()),
                None => None,
            };
            match work_tree_candidates(git_dir, pointer, &other.configured) {
                Ok(_) => work_tree_among(git_dir, &other.probes),
                Err(error) => Err(error),
            }
        },
        None => Err(HookError::WorkTreeNotFound(git_dir.clone())),
    }
}

} // verus!
