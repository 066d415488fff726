//! Checking one commit out into a directory of its own.
//!
//! The tree gets an index of its own, so neither the index nor the references
//! of the repository change.

use crate::definition::project::variable_views;
use crate::hooks::error::HookError;
use crate::hooks::git::{ensure_git_success, GitOutput};
use crate::hooks::repository::{blank, commit_arguments, Repository};
use crate::native::{lossy, native_views, path_join, HostPath, NativeText};
use crate::text::{concat2, trimmed};
use vstd::prelude::*;
use vstd::utf8::{decode_utf8, encode_utf8, valid_utf8};

verus! {

/// A commit that is checked out.
#[derive(Debug, PartialEq, Eq)]
pub struct MaterializedTree {
    pub root: HostPath,
    pub index: HostPath,
    pub commit: String,
}

impl MaterializedTree {
    /// The root of the tree.
    pub fn path(&self) -> (path: &HostPath)
        ensures
            path@ == self.root@,
    {
        &self.root
    }

    /// The index of the tree.
    pub fn index_path(&self) -> (path: &HostPath)
        ensures
            path@ == self.index@,
    {
        &self.index
    }
}

/// Where the files of a tree go, in a directory of one's own.
pub open spec fn root_in(directory: Seq<u8>) -> Seq<u8> {
    path_join(directory, encode_utf8("worktree"@))
}

/// Where the index of a tree goes, in a directory of one's own.
pub open spec fn index_in(directory: Seq<u8>) -> Seq<u8> {
    path_join(directory, encode_utf8("index"@))
}

/// How far a checkout has got.
#[derive(Debug)]
pub enum TreePhase<P, T, F> {
    Resolve,
    MakeTemporary { commit: T },
    MakeRoot { commit: T, directory: P },
    ReadTree { commit: T, directory: P },
    Checkout { commit: T, directory: P },
    Ready { commit: T, directory: P },
    Failed(F),
}

/// Why a checkout failed.
pub enum TreeFailure {
    Revision(Seq<char>),
    Start(Seq<char>),
    Git { operation: Seq<char>, code: Option<i32>, stderr: Seq<char> },
    NonText(Seq<char>),
    System(Seq<char>),
    Other(HookError),
}

/// The failure that an error reports.
pub open spec fn tree_failure(error: HookError) -> TreeFailure {
    match error {
        HookError::InvalidRevision(text) => TreeFailure::Revision(text@),
        HookError::GitStart { source } => TreeFailure::Start(source@),
        HookError::GitFailed { operation, status, stderr } => TreeFailure::Git {
            operation: operation@,
            code: status,
            stderr: stderr@,
        },
        HookError::GitNonUtf8(operation) => TreeFailure::NonText(operation@),
        HookError::Io(text) => TreeFailure::System(text@),
        _ => TreeFailure::Other(error),
    }
}

pub type TreePhaseView = TreePhase<Seq<u8>, Seq<char>, TreeFailure>;

pub open spec fn tree_phase_view(phase: TreePhase<HostPath, String, HookError>) -> TreePhaseView {
    match phase {
        TreePhase::Resolve => TreePhase::Resolve,
        TreePhase::MakeTemporary { commit } => TreePhase::MakeTemporary { commit: commit@ },
        TreePhase::MakeRoot { commit, directory } => TreePhase::MakeRoot {
            commit: commit@,
            directory: directory@,
        },
        TreePhase::ReadTree { commit, directory } => TreePhase::ReadTree {
            commit: commit@,
            directory: directory@,
        },
        TreePhase::Checkout { commit, directory } => TreePhase::Checkout {
            commit: commit@,
            directory: directory@,
        },
        TreePhase::Ready { commit, directory } => TreePhase::Ready {
            commit: commit@,
            directory: directory@,
        },
        TreePhase::Failed(error) => TreePhase::Failed(tree_failure(error)),
    }
}

/// A checkout that is under way.
#[derive(Debug)]
pub struct Materialization {
    repository: Repository,
    revision: String,
    phase: TreePhase<HostPath, String, HookError>,
}

pub struct MaterializationModel {
    pub git_dir: Seq<u8>,
    pub revision: Seq<char>,
    pub phase: TreePhaseView,
}

impl View for Materialization {
    type V = MaterializationModel;

    closed spec fn view(&self) -> MaterializationModel {
        MaterializationModel {
            git_dir: self.repository.git_dir@,
            revision: self.revision@,
            phase: tree_phase_view(self.phase),
        }
    }
}

/// What is to be done next.
#[derive(Debug)]
pub enum TreeStep {
    /// Run Git with these arguments and these variables.
    Git { arguments: Vec<NativeText>, environment: Vec<(NativeText, NativeText)> },
    /// Make a directory of one's own.
    MakeTemporary,
    MakeDirectory(HostPath),
    /// There is nothing left to do.
    End,
}

pub enum TreeStepView {
    Git { arguments: Seq<Seq<u8>>, environment: Seq<(Seq<u8>, Seq<u8>)> },
    MakeTemporary,
    MakeDirectory(Seq<u8>),
    End,
}

pub open spec fn tree_step_view(step: TreeStep) -> TreeStepView {
    match step {
        TreeStep::Git { arguments, environment } => TreeStepView::Git {
            arguments: native_views(arguments@),
            environment: variable_views(environment@),
        },
        TreeStep::MakeTemporary => TreeStepView::MakeTemporary,
        TreeStep::MakeDirectory(path) => TreeStepView::MakeDirectory(path@),
        TreeStep::End => TreeStepView::End,
    }
}

/// How a step went.
#[derive(Debug)]
pub enum TreeReply {
    Ran(Result<GitOutput, String>),
    Directory(HostPath),
    Done,
    Refused(String),
}

/// The arguments by which Git fills an index with a commit.
pub open spec fn read_tree_arguments(git_dir: Seq<u8>, commit: Seq<char>) -> Seq<Seq<u8>> {
    seq![
        encode_utf8("--git-dir="@ + lossy(git_dir)),
        encode_utf8("read-tree"@),
        encode_utf8("--"@),
        encode_utf8(commit),
    ]
}

/// The arguments by which Git writes an index out.
pub open spec fn checkout_arguments(git_dir: Seq<u8>, root: Seq<u8>) -> Seq<Seq<u8>> {
    seq![
        encode_utf8("--git-dir="@ + lossy(git_dir)),
        encode_utf8("--work-tree="@ + lossy(root)),
        encode_utf8("checkout-index"@),
        encode_utf8("--all"@),
        encode_utf8("--force"@),
    ]
}

/// The variable that gives Git an index of its own.
pub open spec fn index_variable(directory: Seq<u8>) -> (Seq<u8>, Seq<u8>) {
    (encode_utf8("GIT_INDEX_FILE"@), index_in(directory))
}

/// The step that comes next.
pub open spec fn next_tree_step(m: MaterializationModel) -> TreeStepView {
    match m.phase {
        TreePhase::Resolve => TreeStepView::Git {
            arguments: commit_arguments(m.git_dir, m.revision),
            environment: seq![],
        },
        TreePhase::MakeTemporary { commit } => TreeStepView::MakeTemporary,
        TreePhase::MakeRoot { commit, directory } => TreeStepView::MakeDirectory(
            root_in(directory),
        ),
        TreePhase::ReadTree { commit, directory } => TreeStepView::Git {
            arguments: read_tree_arguments(m.git_dir, commit),
            environment: seq![index_variable(directory)],
        },
        TreePhase::Checkout { commit, directory } => TreeStepView::Git {
            arguments: checkout_arguments(m.git_dir, root_in(directory)),
            environment: seq![
                index_variable(directory),
                (encode_utf8("GIT_LFS_SKIP_SMUDGE"@), encode_utf8("1"@)),
            ],
        },
        TreePhase::Ready { commit, directory } => TreeStepView::End,
        TreePhase::Failed(_) => TreeStepView::End,
    }
}

/// The reply is one that the step can have.
pub open spec fn tree_fits(m: MaterializationModel, reply: TreeReply) -> bool {
    match m.phase {
        TreePhase::Resolve => reply is Ran,
        TreePhase::MakeTemporary { commit } => reply is Directory || reply is Refused,
        TreePhase::MakeRoot { commit, directory } => reply is Done || reply is Refused,
        TreePhase::ReadTree { commit, directory } => reply is Ran,
        TreePhase::Checkout { commit, directory } => reply is Ran,
        TreePhase::Ready { commit, directory } => false,
        TreePhase::Failed(_) => false,
    }
}

/// What a Git command that has to succeed comes to.
pub open spec fn git_problem(operation: Seq<char>, reply: Result<GitOutput, String>) -> Option<
    TreeFailure,
> {
    match reply {
        Err(text) => Some(TreeFailure::Start(text@)),
        Ok(output) => if output.code == Some(0i32) {
            None
        } else {
            Some(
                TreeFailure::Git {
                    operation,
                    code: output.code,
                    stderr: trimmed(lossy(output.stderr@)),
                },
            )
        },
    }
}

/// The phase after the revision was resolved.
pub open spec fn after_resolving(
    revision: Seq<char>,
    reply: Result<GitOutput, String>,
) -> TreePhaseView {
    match reply {
        Err(text) => TreePhase::Failed(TreeFailure::Start(text@)),
        Ok(output) => if output.code != Some(0i32) {
            TreePhase::Failed(TreeFailure::Revision(revision))
        } else if !valid_utf8(output.stdout@) {
            TreePhase::Failed(TreeFailure::NonText("git rev-parse"@))
        } else {
            let commit = trimmed(decode_utf8(output.stdout@));
            if commit.len() == 0 {
                TreePhase::Failed(TreeFailure::Revision(revision))
            } else {
                TreePhase::MakeTemporary { commit }
            }
        },
    }
}

/// The phase after a step.
pub open spec fn tree_phase_after(m: MaterializationModel, reply: TreeReply) -> TreePhaseView {
    match (m.phase, reply) {
        (TreePhase::Resolve, TreeReply::Ran(answer)) => after_resolving(m.revision, answer),
        (TreePhase::MakeTemporary { commit }, TreeReply::Directory(path)) => TreePhase::MakeRoot {
            commit,
            directory: path@,
        },
        (TreePhase::MakeRoot { commit, directory }, TreeReply::Done) => TreePhase::ReadTree {
            commit,
            directory,
        },
        (TreePhase::ReadTree { commit, directory }, TreeReply::Ran(answer)) => match git_problem(
            "git read-tree"@,
            answer,
        ) {
            Some(failure) => TreePhase::Failed(failure),
            None => TreePhase::Checkout { commit, directory },
        },
        (TreePhase::Checkout { commit, directory }, TreeReply::Ran(answer)) => match git_problem(
            "git checkout-index"@,
            answer,
        ) {
            Some(failure) => TreePhase::Failed(failure),
            None => TreePhase::Ready { commit, directory },
        },
        (_, TreeReply::Refused(text)) => TreePhase::Failed(TreeFailure::System(text@)),
        _ => m.phase,
    }
}

/// The checkout after a step.
pub open spec fn after_tree_step(
    m: MaterializationModel,
    reply: TreeReply,
) -> MaterializationModel {
    MaterializationModel { phase: tree_phase_after(m, reply), ..m }
}

fn variable(name: &str, value: NativeText) -> (pair: (NativeText, NativeText))
    ensures
        pair.0@ == encode_utf8(name@),
        pair.1@ == value@,
{
    (NativeText::from_text(name), value)
}

impl Materialization {
    /// Starts to check a revision out. A blank one is no revision.
    pub fn new(repository: &Repository, revision: &str) -> (tree: Materialization)
        ensures
            tree@ == (MaterializationModel {
                git_dir: repository.git_dir@,
                revision: revision@,
                phase: if blank(revision@) {
                    TreePhase::Failed(TreeFailure::Revision(revision@))
                } else {
                    TreePhase::Resolve
                },
            }),
    {
        let phase = match repository.commit_query(revision) {
            Ok(_) => TreePhase::Resolve,
            Err(error) => TreePhase::Failed(error),
        };
        Materialization {
            repository: repository.clone(),
            revision: String::from_str(revision),
            phase,
        }
    }

    fn resolving(&self) -> (step: TreeStep)
        requires
            self@.phase is Resolve,
            !blank(self@.revision),
        ensures
            tree_step_view(step) == next_tree_step(self@),
    {
        let arguments = match self.repository.commit_query(self.revision.as_str()) {
            Ok(arguments) => arguments,
            Err(_) => Vec::new(),
        };
        let environment: Vec<(NativeText, NativeText)> = Vec::new();
        proof {
            assert(variable_views(environment@) =~= seq![]);
        }
        TreeStep::Git { arguments, environment }
    }

    fn index_path(directory: &HostPath) -> (value: NativeText)
        ensures
            value@ == index_in(directory@),
    {
        NativeText { bytes: directory.join("index").bytes }
    }

    fn reading(&self, commit: &str, directory: &HostPath) -> (step: TreeStep)
        ensures
            tree_step_view(step) == (TreeStepView::Git {
                arguments: read_tree_arguments(self@.git_dir, commit@),
                environment: seq![index_variable(directory@)],
            }),
    {
        let mut arguments: Vec<NativeText> = Vec::new();
        arguments.push(NativeText::from_text(self.repository.git_dir_option().as_str()));
        arguments.push(NativeText::from_text("read-tree"));
        arguments.push(NativeText::from_text("--"));
        arguments.push(NativeText::from_text(commit));
        let mut environment: Vec<(NativeText, NativeText)> = Vec::new();
        environment.push(variable("GIT_INDEX_FILE", Materialization::index_path(directory)));
        proof {
            assert(native_views(arguments@) =~= read_tree_arguments(self@.git_dir, commit@));
            assert(variable_views(environment@) =~= seq![index_variable(directory@)]);
        }
        TreeStep::Git { arguments, environment }
    }

    fn writing(&self, directory: &HostPath) -> (step: TreeStep)
        ensures
            tree_step_view(step) == (TreeStepView::Git {
                arguments: checkout_arguments(self@.git_dir, root_in(directory@)),
                environment: seq![
                    index_variable(directory@),
                    (encode_utf8("GIT_LFS_SKIP_SMUDGE"@), encode_utf8("1"@)),
                ],
            }),
    {
        let root = directory.join("worktree");
        let mut arguments: Vec<NativeText> = Vec::new();
        arguments.push(NativeText::from_text(self.repository.git_dir_option().as_str()));
        arguments.push(
            NativeText::from_text(concat2("--work-tree=", root.shown().as_str()).as_str()),
        );
        arguments.push(NativeText::from_text("checkout-index"));
        arguments.push(NativeText::from_text("--all"));
        arguments.push(NativeText::from_text("--force"));
        let mut environment: Vec<(NativeText, NativeText)> = Vec::new();
        environment.push(variable("GIT_INDEX_FILE", Materialization::index_path(directory)));
        environment.push(variable("GIT_LFS_SKIP_SMUDGE", NativeText::from_text("1")));
        proof {
            assert(native_views(arguments@) =~= checkout_arguments(
                self@.git_dir,
                root_in(directory@),
            ));
            assert(variable_views(environment@) =~= seq![
                index_variable(directory@),
                (encode_utf8("GIT_LFS_SKIP_SMUDGE"@), encode_utf8("1"@)),
            ]);
        }
        TreeStep::Git { arguments, environment }
    }

    #[verifier::type_invariant]
    spec fn is_sound(self) -> bool {
        self.phase is Resolve ==> !blank(self.revision@)
    }

    /// The step that comes next.
    pub fn step(&self) -> (step: TreeStep)
        ensures
            tree_step_view(step) == next_tree_step(self@),
    {
        proof {
            use_type_invariant(self);
        }
        match &self.phase {
            TreePhase::Resolve => self.resolving(),
            TreePhase::MakeTemporary { commit: _ } => TreeStep::MakeTemporary,
            TreePhase::MakeRoot { commit: _, directory } => TreeStep::MakeDirectory(
                directory.join("worktree"),
            ),
            TreePhase::ReadTree { commit, directory } => self.reading(commit.as_str(), directory),
            TreePhase::Checkout { commit: _, directory } => self.writing(directory),
            TreePhase::Ready { commit: _, directory: _ } => TreeStep::End,
            TreePhase::Failed(_) => TreeStep::End,
        }
    }

    /// The checkout after the step that came next.
    pub fn advance(self, reply: TreeReply) -> (next: Materialization)
        requires
            tree_fits(self@, reply),
        ensures
            next@ == after_tree_step(self@, reply),
    {
        proof {
            use_type_invariant(&self);
        }
        let Materialization { repository, revision, phase } = self;
        let phase = match (phase, reply) {
            (TreePhase::Resolve, TreeReply::Ran(answer)) => match Repository::resolve_commit(
                revision.as_str(),
                &answer,
            ) {
                Ok(commit) => TreePhase::MakeTemporary { commit },
                Err(error) => TreePhase::Failed(error),
            },
            (TreePhase::MakeTemporary { commit }, TreeReply::Directory(directory)) => {
                TreePhase::MakeRoot { commit, directory }
            },
            (TreePhase::MakeRoot { commit, directory }, TreeReply::Done) => TreePhase::ReadTree {
                commit,
                directory,
            },
            (TreePhase::ReadTree { commit, directory }, TreeReply::Ran(answer)) => {
                match ensure_git_success("git read-tree", &answer) {
                    Ok(()) => TreePhase::Checkout { commit, directory },
                    Err(error) => TreePhase::Failed(error),
                }
            },
            (TreePhase::Checkout { commit, directory }, TreeReply::Ran(answer)) => {
                match ensure_git_success("git checkout-index", &answer) {
                    Ok(()) => TreePhase::Ready { commit, directory },
                    Err(error) => TreePhase::Failed(error),
                }
            },
            (_, TreeReply::Refused(text)) => TreePhase::Failed(HookError::Io(text)),
            (other, _) => other,
        };
        Materialization { repository, revision, phase }
    }

    /// The tree, once there is nothing left to do.
    pub fn finish(self) -> (result: Result<MaterializedTree, HookError>)
        requires
            next_tree_step(self@) is End,
        ensures
            match self@.phase {
                TreePhase::Ready { commit, directory } => result matches Ok(tree) && tree.root@
                    == root_in(directory) && tree.index@ == index_in(directory) && tree.commit@
                    == commit,
                TreePhase::Failed(failure) => result matches Err(error) && tree_failure(error)
                    == failure,
                _ => true,
            },
    {
        match self.phase {
            TreePhase::Ready { commit, directory } => Ok(
                MaterializedTree {
                    root: directory.join("worktree"),
                    index: directory.join("index"),
                    commit,
                },
            ),
            TreePhase::Failed(error) => Err(error),
            _ => Err(HookError::InvalidRevision(self.revision)),
        }
    }
}

/// Git never writes to the index of the repository: once the revision is
/// resolved, every command works on the index of the tree.
pub proof fn only_the_own_index_is_used(m: MaterializationModel)
    requires
        !(m.phase is Resolve),
        next_tree_step(m) is Git,
    ensures
        next_tree_step(m)->environment.len() > 0,
        match m.phase {
            TreePhase::ReadTree { commit, directory } => next_tree_step(m)->environment[0]
                == index_variable(directory),
            TreePhase::Checkout { commit, directory } => next_tree_step(m)->environment[0]
                == index_variable(directory),
            _ => false,
        },
{
}

/// The commit that a checkout works on, once it is known.
pub open spec fn commit_of(phase: TreePhaseView) -> Option<Seq<char>> {
    match phase {
        TreePhase::MakeTemporary { commit } => Some(commit),
        TreePhase::MakeRoot { commit, directory } => Some(commit),
        TreePhase::ReadTree { commit, directory } => Some(commit),
        TreePhase::Checkout { commit, directory } => Some(commit),
        TreePhase::Ready { commit, directory } => Some(commit),
        TreePhase::Resolve => None,
        TreePhase::Failed(_) => None,
    }
}

/// The commit that a revision resolved to is the one that is checked out.
pub proof fn the_resolved_commit_is_checked_out(m: MaterializationModel, reply: TreeReply)
    requires
        tree_fits(m, reply),
        commit_of(m.phase) is Some,
    ensures
        ({
            let next = after_tree_step(m, reply).phase;
            next is Failed || commit_of(next) == commit_of(m.phase)
        }),
{
}

} // verus!
