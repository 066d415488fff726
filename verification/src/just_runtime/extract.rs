//! Copying Just out of a container image.
//!
//! An extraction says which step comes next and learns how the step went. An
//! image is pulled only when it is not there, and every container that was
//! created is removed.

use crate::just_runtime::command::{
    container_id, created_container, format_output_failure, image_absent, image_is_absent,
    is_success, looks_like_noexec, noexec, output_failure, successful, verdict, verified_executable,
    CommandOutput,
};
use crate::just_runtime::config::held_path;
use crate::just_runtime::version::{semver_below, JustVersion};
use crate::native::{lossy, native_views, path_join, HostPath, NativeText};
use crate::text::{concat2, concat4};
use vstd::prelude::*;
use vstd::utf8::encode_utf8;

verus! {

/// Why a cache directory is made: to extract to, or because an extracted
/// executable could not be run where it was.
#[derive(Debug)]
pub enum CacheGoal<P, T> {
    Extract,
    Retry { extracted: P, first_error: T },
}

/// How far an extraction has got. `temporary` says that the directory is a
/// temporary one, not one in the cache.
#[derive(Debug)]
pub enum ExtractPhase<P, T, V> {
    Inspect,
    Pull,
    MakeTemporary,
    EnsureCache(CacheGoal<P, T>),
    SecureCache(CacheGoal<P, T>),
    MakeCache(CacheGoal<P, T>),
    Create { directory: P, temporary: bool },
    CopyOut { directory: P, temporary: bool, id: T },
    RemoveContainer { directory: P, temporary: bool, id: T },
    DropContainer { id: T, error: T },
    MarkExecutable { directory: P, temporary: bool },
    Verify { directory: P, temporary: bool },
    CopyToCache { extracted: P, first_error: T, cache: P },
    MarkCached { first_error: T, cache: P },
    VerifyCached { first_error: T, cache: P },
    Extracted { executable: P, version: V, directory: P },
    Failed(T),
}

pub type PhaseView = ExtractPhase<Seq<u8>, Seq<char>, Seq<char>>;

pub open spec fn goal_view(goal: CacheGoal<HostPath, String>) -> CacheGoal<Seq<u8>, Seq<char>> {
    match goal {
        CacheGoal::Extract => CacheGoal::Extract,
        CacheGoal::Retry { extracted, first_error } => CacheGoal::Retry {
            extracted: extracted@,
            first_error: first_error@,
        },
    }
}

pub open spec fn phase_view(phase: ExtractPhase<HostPath, String, JustVersion>) -> PhaseView {
    match phase {
        ExtractPhase::Inspect => ExtractPhase::Inspect,
        ExtractPhase::Pull => ExtractPhase::Pull,
        ExtractPhase::MakeTemporary => ExtractPhase::MakeTemporary,
        ExtractPhase::EnsureCache(goal) => ExtractPhase::EnsureCache(goal_view(goal)),
        ExtractPhase::SecureCache(goal) => ExtractPhase::SecureCache(goal_view(goal)),
        ExtractPhase::MakeCache(goal) => ExtractPhase::MakeCache(goal_view(goal)),
        ExtractPhase::Create { directory, temporary } => ExtractPhase::Create {
            directory: directory@,
            temporary,
        },
        ExtractPhase::CopyOut { directory, temporary, id } => ExtractPhase::CopyOut {
            directory: directory@,
            temporary,
            id: id@,
        },
        ExtractPhase::RemoveContainer { directory, temporary, id } => {
            ExtractPhase::RemoveContainer { directory: directory@, temporary, id: id@ }
        },
        ExtractPhase::DropContainer { id, error } => ExtractPhase::DropContainer {
            id: id@,
            error: error@,
        },
        ExtractPhase::MarkExecutable { directory, temporary } => ExtractPhase::MarkExecutable {
            directory: directory@,
            temporary,
        },
        ExtractPhase::Verify { directory, temporary } => ExtractPhase::Verify {
            directory: directory@,
            temporary,
        },
        ExtractPhase::CopyToCache { extracted, first_error, cache } => ExtractPhase::CopyToCache {
            extracted: extracted@,
            first_error: first_error@,
            cache: cache@,
        },
        ExtractPhase::MarkCached { first_error, cache } => ExtractPhase::MarkCached {
            first_error: first_error@,
            cache: cache@,
        },
        ExtractPhase::VerifyCached { first_error, cache } => ExtractPhase::VerifyCached {
            first_error: first_error@,
            cache: cache@,
        },
        ExtractPhase::Extracted { executable, version, directory } => ExtractPhase::Extracted {
            executable: executable@,
            version: version@,
            directory: directory@,
        },
        ExtractPhase::Failed(error) => ExtractPhase::Failed(error@),
    }
}

/// An extraction that is under way.
#[derive(Debug)]
pub struct Extraction {
    image: String,
    minimum_version: JustVersion,
    container_name: String,
    temporary_root: Option<HostPath>,
    cache_root: Option<HostPath>,
    phase: ExtractPhase<HostPath, String, JustVersion>,
}

/// What an extraction works with.
pub struct ExtractSettings {
    pub image: Seq<char>,
    pub minimum_version: Seq<char>,
    pub container_name: Seq<char>,
    pub temporary_root: Option<Seq<u8>>,
    pub cache_root: Option<Seq<u8>>,
}

pub struct ExtractionModel {
    pub settings: ExtractSettings,
    pub phase: PhaseView,
}

impl View for Extraction {
    type V = ExtractionModel;

    closed spec fn view(&self) -> ExtractionModel {
        ExtractionModel {
            settings: ExtractSettings {
                image: self.image@,
                minimum_version: self.minimum_version@,
                container_name: self.container_name@,
                temporary_root: held_path(self.temporary_root),
                cache_root: held_path(self.cache_root),
            },
            phase: phase_view(self.phase),
        }
    }
}

/// The mode of what is the user's own: no one else may use it.
pub const PRIVATE_MODE: u32 = 0o700;

/// What is to be done next.
#[derive(Debug)]
pub enum ExtractStep {
    /// Run the container engine.
    Engine(Vec<NativeText>),
    /// Make a directory of one's own in a temporary directory.
    MakeTemporary(HostPath),
    /// Make a directory, with all above it.
    EnsureDirectory(HostPath),
    /// Give a directory a mode that shuts it to everyone else.
    SecureDirectory { path: HostPath, mode: u32 },
    /// Make a directory of one's own in the cache.
    MakeCached(HostPath),
    /// Give a file a mode that lets the user execute it.
    MarkExecutable { path: HostPath, mode: u32 },
    /// Run a file with `--version`, and resolve its path.
    Verify(HostPath),
    CopyFile { from: HostPath, to: HostPath },
    /// There is nothing left to do.
    End,
}

pub enum ExtractStepView {
    Engine(Seq<Seq<u8>>),
    MakeTemporary(Seq<u8>),
    EnsureDirectory(Seq<u8>),
    SecureDirectory(Seq<u8>, u32),
    MakeCached(Seq<u8>),
    MarkExecutable(Seq<u8>, u32),
    Verify(Seq<u8>),
    CopyFile(Seq<u8>, Seq<u8>),
    End,
}

pub open spec fn extract_step_view(step: ExtractStep) -> ExtractStepView {
    match step {
        ExtractStep::Engine(arguments) => ExtractStepView::Engine(native_views(arguments@)),
        ExtractStep::MakeTemporary(path) => ExtractStepView::MakeTemporary(path@),
        ExtractStep::EnsureDirectory(path) => ExtractStepView::EnsureDirectory(path@),
        ExtractStep::SecureDirectory { path, mode } => ExtractStepView::SecureDirectory(path@, mode),
        ExtractStep::MakeCached(path) => ExtractStepView::MakeCached(path@),
        ExtractStep::MarkExecutable { path, mode } => ExtractStepView::MarkExecutable(path@, mode),
        ExtractStep::Verify(path) => ExtractStepView::Verify(path@),
        ExtractStep::CopyFile { from, to } => ExtractStepView::CopyFile(from@, to@),
        ExtractStep::End => ExtractStepView::End,
    }
}

/// How a step went.
#[derive(Debug)]
pub enum ExtractReply {
    Ran(Result<CommandOutput, String>),
    Directory(HostPath),
    Done,
    Refused(String),
    /// What running the file gave, and where its path leads.
    Tried { output: Result<CommandOutput, String>, resolved: Result<HostPath, String> },
}

/// The executable in a directory.
pub open spec fn extracted_at(directory: Seq<u8>) -> Seq<u8> {
    path_join(directory, encode_utf8("just"@))
}

pub open spec fn optional(path: Option<Seq<u8>>) -> Seq<u8> {
    match path {
        Some(p) => p,
        None => seq![],
    }
}

/// How an engine is told to remove a container.
pub open spec fn removal_arguments(id: Seq<char>) -> Seq<Seq<u8>> {
    seq![encode_utf8("rm"@), encode_utf8("-f"@), encode_utf8(id)]
}

/// The step that comes next.
pub open spec fn next_extract_step(m: ExtractionModel) -> ExtractStepView {
    let s = m.settings;
    match m.phase {
        ExtractPhase::Inspect => ExtractStepView::Engine(
            seq![encode_utf8("image"@), encode_utf8("inspect"@), encode_utf8(s.image)],
        ),
        ExtractPhase::Pull => ExtractStepView::Engine(
            seq![encode_utf8("pull"@), encode_utf8(s.image)],
        ),
        ExtractPhase::MakeTemporary => ExtractStepView::MakeTemporary(optional(s.temporary_root)),
        ExtractPhase::EnsureCache(_) => ExtractStepView::EnsureDirectory(optional(s.cache_root)),
        ExtractPhase::SecureCache(_) => ExtractStepView::SecureDirectory(
            optional(s.cache_root),
            PRIVATE_MODE,
        ),
        ExtractPhase::MakeCache(_) => ExtractStepView::MakeCached(optional(s.cache_root)),
        ExtractPhase::Create { directory, temporary } => ExtractStepView::Engine(
            seq![
                encode_utf8("create"@),
                encode_utf8("--name"@),
                encode_utf8(s.container_name),
                encode_utf8(s.image),
                encode_utf8("/just"@),
                encode_utf8("--version"@),
            ],
        ),
        ExtractPhase::CopyOut { directory, temporary, id } => ExtractStepView::Engine(
            seq![encode_utf8("cp"@), encode_utf8(id + ":/just"@), extracted_at(directory)],
        ),
        ExtractPhase::RemoveContainer { directory, temporary, id } => ExtractStepView::Engine(
            removal_arguments(id),
        ),
        ExtractPhase::DropContainer { id, error } => ExtractStepView::Engine(
            removal_arguments(id),
        ),
        ExtractPhase::MarkExecutable { directory, temporary } => ExtractStepView::MarkExecutable(
            extracted_at(directory),
            PRIVATE_MODE,
        ),
        ExtractPhase::Verify { directory, temporary } => ExtractStepView::Verify(
            extracted_at(directory),
        ),
        ExtractPhase::CopyToCache { extracted, first_error, cache } => ExtractStepView::CopyFile(
            extracted,
            extracted_at(cache),
        ),
        ExtractPhase::MarkCached { first_error, cache } => ExtractStepView::MarkExecutable(
            extracted_at(cache),
            PRIVATE_MODE,
        ),
        ExtractPhase::VerifyCached { first_error, cache } => ExtractStepView::Verify(
            extracted_at(cache),
        ),
        ExtractPhase::Extracted { executable, version, directory } => ExtractStepView::End,
        ExtractPhase::Failed(_) => ExtractStepView::End,
    }
}

/// The reply is one that the step can have.
pub open spec fn extract_fits(m: ExtractionModel, reply: ExtractReply) -> bool {
    match m.phase {
        ExtractPhase::Inspect => reply is Ran,
        ExtractPhase::Pull => reply is Ran,
        ExtractPhase::MakeTemporary => reply is Directory || reply is Refused,
        ExtractPhase::EnsureCache(_) => reply is Done || reply is Refused,
        ExtractPhase::SecureCache(_) => reply is Done || reply is Refused,
        ExtractPhase::MakeCache(_) => reply is Directory || reply is Refused,
        ExtractPhase::Create { directory, temporary } => reply is Ran,
        ExtractPhase::CopyOut { directory, temporary, id } => reply is Ran,
        ExtractPhase::RemoveContainer { directory, temporary, id } => reply is Ran,
        ExtractPhase::DropContainer { id, error } => reply is Ran,
        ExtractPhase::MarkExecutable { directory, temporary } => reply is Done || reply is Refused,
        ExtractPhase::Verify { directory, temporary } => reply is Tried,
        ExtractPhase::CopyToCache { extracted, first_error, cache } => reply is Done
            || reply is Refused,
        ExtractPhase::MarkCached { first_error, cache } => reply is Done || reply is Refused,
        ExtractPhase::VerifyCached { first_error, cache } => reply is Tried,
        ExtractPhase::Extracted { executable, version, directory } => false,
        ExtractPhase::Failed(_) => false,
    }
}

/// Begins to make a directory in the cache, if there is one.
pub open spec fn caching(s: ExtractSettings, goal: CacheGoal<Seq<u8>, Seq<char>>) -> PhaseView {
    if s.cache_root is Some {
        ExtractPhase::EnsureCache(goal)
    } else {
        ExtractPhase::Failed("no user cache directory is available"@)
    }
}

/// Begins to make a directory to extract to.
pub open spec fn staging(s: ExtractSettings) -> PhaseView {
    if s.temporary_root is Some {
        ExtractPhase::MakeTemporary
    } else {
        caching(s, CacheGoal::Extract)
    }
}

/// The error of an engine command that did not work.
pub open spec fn engine_failure(
    context: Seq<char>,
    reply: Result<CommandOutput, String>,
) -> Option<Seq<char>> {
    match reply {
        Err(text) => Some(context + ": "@ + text@),
        Ok(output) => if successful(output) {
            None
        } else {
            Some(output_failure(context, output))
        },
    }
}

/// The phase after the image was inspected or pulled.
pub open spec fn after_image(
    s: ExtractSettings,
    pulled: bool,
    reply: Result<CommandOutput, String>,
) -> PhaseView {
    let context = if pulled {
        "cannot pull image"@
    } else {
        "cannot inspect image"@
    };
    match engine_failure(context, reply) {
        None => staging(s),
        Some(error) => if !pulled && (reply matches Ok(output) && image_absent(output)) {
            ExtractPhase::Pull
        } else {
            ExtractPhase::Failed(error)
        },
    }
}

/// The phase after a directory was asked for.
pub open spec fn after_directory(
    s: ExtractSettings,
    phase: PhaseView,
    reply: ExtractReply,
) -> PhaseView {
    match (phase, reply) {
        (ExtractPhase::MakeTemporary, ExtractReply::Directory(path)) => ExtractPhase::Create {
            directory: path@,
            temporary: true,
        },
        (ExtractPhase::MakeTemporary, ExtractReply::Refused(text)) => if s.cache_root is Some {
            ExtractPhase::EnsureCache(CacheGoal::Extract)
        } else {
            ExtractPhase::Failed(
                "cannot create temporary directory in "@ + lossy(optional(s.temporary_root)) + ": "@
                    + text@,
            )
        },
        (ExtractPhase::EnsureCache(goal), ExtractReply::Done) => ExtractPhase::SecureCache(goal),
        (ExtractPhase::EnsureCache(_), ExtractReply::Refused(text)) => ExtractPhase::Failed(
            "cannot create cache directory "@ + lossy(optional(s.cache_root)) + ": "@ + text@,
        ),
        (ExtractPhase::SecureCache(goal), ExtractReply::Done) => ExtractPhase::MakeCache(goal),
        (ExtractPhase::SecureCache(_), ExtractReply::Refused(text)) => ExtractPhase::Failed(
            "cannot secure cache directory "@ + lossy(optional(s.cache_root)) + ": "@ + text@,
        ),
        (
            ExtractPhase::MakeCache(CacheGoal::Extract),
            ExtractReply::Directory(path),
        ) => ExtractPhase::Create { directory: path@, temporary: false },
        (
            ExtractPhase::MakeCache(CacheGoal::Retry { extracted, first_error }),
            ExtractReply::Directory(path),
        ) => ExtractPhase::CopyToCache { extracted, first_error, cache: path@ },
        (ExtractPhase::MakeCache(_), ExtractReply::Refused(text)) => ExtractPhase::Failed(
            "cannot create temporary cache directory in "@ + lossy(optional(s.cache_root)) + ": "@
                + text@,
        ),
        _ => phase,
    }
}

/// The phase after an engine command on a container.
pub open spec fn after_container(
    s: ExtractSettings,
    phase: PhaseView,
    reply: Result<CommandOutput, String>,
) -> PhaseView {
    match phase {
        ExtractPhase::Create { directory, temporary } => match engine_failure(
            "cannot create extraction container"@,
            reply,
        ) {
            Some(error) => ExtractPhase::Failed(error),
            None => ExtractPhase::CopyOut {
                directory,
                temporary,
                id: created_container(reply->Ok_0, s.container_name),
            },
        },
        ExtractPhase::CopyOut { directory, temporary, id } => match engine_failure(
            "cannot copy /just from container"@,
            reply,
        ) {
            Some(error) => ExtractPhase::DropContainer { id, error },
            None => ExtractPhase::RemoveContainer { directory, temporary, id },
        },
        ExtractPhase::RemoveContainer { directory, temporary, id } => match engine_failure(
            "cannot remove extraction container"@,
            reply,
        ) {
            Some(error) => ExtractPhase::DropContainer { id, error },
            None => ExtractPhase::MarkExecutable { directory, temporary },
        },
        ExtractPhase::DropContainer { id, error } => ExtractPhase::Failed(error),
        _ => phase,
    }
}

/// The phase after a step on an extracted file.
pub open spec fn after_file(s: ExtractSettings, phase: PhaseView, reply: ExtractReply) -> PhaseView {
    match (phase, reply) {
        (ExtractPhase::MarkExecutable { directory, temporary }, ExtractReply::Done) => {
            ExtractPhase::Verify { directory, temporary }
        },
        (ExtractPhase::MarkExecutable { directory, temporary }, ExtractReply::Refused(text)) => {
            ExtractPhase::Failed(
                "cannot make extracted Just executable at "@ + lossy(extracted_at(directory))
                    + ": "@ + text@,
            )
        },
        (
            ExtractPhase::Verify { directory, temporary },
            ExtractReply::Tried { output, resolved },
        ) => match verdict(s.minimum_version, output, resolved) {
            Ok((executable, version)) => ExtractPhase::Extracted {
                executable,
                version,
                directory,
            },
            Err(error) => if temporary && noexec(error) {
                caching(
                    s,
                    CacheGoal::Retry { extracted: extracted_at(directory), first_error: error },
                )
            } else {
                ExtractPhase::Failed(error)
            },
        },
        (ExtractPhase::CopyToCache { extracted, first_error, cache }, ExtractReply::Done) => {
            ExtractPhase::MarkCached { first_error, cache }
        },
        (
            ExtractPhase::CopyToCache { extracted, first_error, cache },
            ExtractReply::Refused(text),
        ) => ExtractPhase::Failed(
            "cannot copy extracted Just to cache "@ + lossy(extracted_at(cache)) + ": "@ + text@,
        ),
        (ExtractPhase::MarkCached { first_error, cache }, ExtractReply::Done) => {
            ExtractPhase::VerifyCached { first_error, cache }
        },
        (ExtractPhase::MarkCached { first_error, cache }, ExtractReply::Refused(text)) => {
            ExtractPhase::Failed(
                "cannot make cached Just executable at "@ + lossy(extracted_at(cache)) + ": "@
                    + text@,
            )
        },
        (
            ExtractPhase::VerifyCached { first_error, cache },
            ExtractReply::Tried { output, resolved },
        ) => match verdict(s.minimum_version, output, resolved) {
            Ok((executable, version)) => ExtractPhase::Extracted {
                executable,
                version,
                directory: cache,
            },
            Err(error) => ExtractPhase::Failed(
                "temporary Just was not executable ("@ + first_error
                    + "); cache fallback failed: "@ + error,
            ),
        },
        _ => phase,
    }
}

/// The extraction after a step.
pub open spec fn after_extract(m: ExtractionModel, reply: ExtractReply) -> ExtractionModel {
    let s = m.settings;
    ExtractionModel {
        settings: s,
        phase: match m.phase {
            ExtractPhase::Inspect => after_image(s, false, reply->Ran_0),
            ExtractPhase::Pull => after_image(s, true, reply->Ran_0),
            ExtractPhase::MakeTemporary => after_directory(s, m.phase, reply),
            ExtractPhase::EnsureCache(_) => after_directory(s, m.phase, reply),
            ExtractPhase::SecureCache(_) => after_directory(s, m.phase, reply),
            ExtractPhase::MakeCache(_) => after_directory(s, m.phase, reply),
            ExtractPhase::Create { directory, temporary } => after_container(
                s,
                m.phase,
                reply->Ran_0,
            ),
            ExtractPhase::CopyOut { directory, temporary, id } => after_container(
                s,
                m.phase,
                reply->Ran_0,
            ),
            ExtractPhase::RemoveContainer { directory, temporary, id } => after_container(
                s,
                m.phase,
                reply->Ran_0,
            ),
            ExtractPhase::DropContainer { id, error } => after_container(
                s,
                m.phase,
                reply->Ran_0,
            ),
            _ => after_file(s, m.phase, reply),
        },
    }
}

type Phase = ExtractPhase<HostPath, String, JustVersion>;

fn native(text: &str) -> (native: NativeText)
    ensures
        native@ == encode_utf8(text@),
{
    NativeText::from_text(text)
}

fn engine_error(context: &str, reply: &Result<CommandOutput, String>) -> (error: Option<String>)
    ensures
        match engine_failure(context@, *reply) {
            Some(text) => error matches Some(shown) && shown@ == text,
            None => error is None,
        },
{
    match reply {
        Err(text) => {
            let mut shown = concat2(context, ": ");
            shown.push_str(text.as_str());
            Some(shown)
        },
        Ok(output) => if is_success(output) {
            None
        } else {
            Some(format_output_failure(context, output))
        },
    }
}

fn path_error(prefix: &str, path: &HostPath, text: &str) -> (error: String)
    ensures
        error@ == prefix@ + lossy(path@) + ": "@ + text@,
{
    concat4(prefix, path.shown().as_str(), ": ", text)
}

fn copy_path(path: &Option<HostPath>) -> (copy: HostPath)
    ensures
        copy@ == optional(held_path(*path)),
{
    match path {
        Some(p) => p.clone(),
        None => {
            let empty = HostPath { bytes: Vec::new() };
            proof {
                assert(empty@ =~= seq![]);
            }
            empty
        },
    }
}

impl Extraction {
    /// Starts an extraction from an image. `container_name` is free.
    pub fn new(
        image: &str,
        minimum_version: &JustVersion,
        container_name: &str,
        temporary_root: Option<HostPath>,
        cache_root: Option<HostPath>,
    ) -> (extraction: Extraction)
        ensures
            extraction@ == (ExtractionModel {
                settings: ExtractSettings {
                    image: image@,
                    minimum_version: minimum_version@,
                    container_name: container_name@,
                    temporary_root: held_path(temporary_root),
                    cache_root: held_path(cache_root),
                },
                phase: ExtractPhase::Inspect,
            }),
    {
        Extraction {
            image: String::from_str(image),
            minimum_version: minimum_version.clone(),
            container_name: String::from_str(container_name),
            temporary_root,
            cache_root,
            phase: ExtractPhase::Inspect,
        }
    }

    fn arguments(list: Vec<NativeText>) -> (step: ExtractStep)
        ensures
            extract_step_view(step) == ExtractStepView::Engine(native_views(list@)),
    {
        ExtractStep::Engine(list)
    }

    /// The step that comes next.
    pub fn step(&self) -> (step: ExtractStep)
        ensures
            extract_step_view(step) == next_extract_step(self@),
    {
        match &self.phase {
            ExtractPhase::Inspect => {
                let mut list: Vec<NativeText> = Vec::new();
                list.push(native("image"));
                list.push(native("inspect"));
                list.push(native(self.image.as_str()));
                proof {
                    assert(native_views(list@) =~= seq![
                        encode_utf8("image"@),
                        encode_utf8("inspect"@),
                        encode_utf8(self.image@),
                    ]);
                }
                Extraction::arguments(list)
            },
            ExtractPhase::Pull => {
                let mut list: Vec<NativeText> = Vec::new();
                list.push(native("pull"));
                list.push(native(self.image.as_str()));
                proof {
                    assert(native_views(list@) =~= seq![
                        encode_utf8("pull"@),
                        encode_utf8(self.image@),
                    ]);
                }
                Extraction::arguments(list)
            },
            ExtractPhase::MakeTemporary => ExtractStep::MakeTemporary(
                copy_path(&self.temporary_root),
            ),
            ExtractPhase::EnsureCache(_) => ExtractStep::EnsureDirectory(
                copy_path(&self.cache_root),
            ),
            ExtractPhase::SecureCache(_) => ExtractStep::SecureDirectory {
                path: copy_path(&self.cache_root),
                mode: PRIVATE_MODE,
            },
            ExtractPhase::MakeCache(_) => ExtractStep::MakeCached(copy_path(&self.cache_root)),
            ExtractPhase::Create { directory: _, temporary: _ } => {
                let mut list: Vec<NativeText> = Vec::new();
                list.push(native("create"));
                list.push(native("--name"));
                list.push(native(self.container_name.as_str()));
                list.push(native(self.image.as_str()));
                list.push(native("/just"));
                list.push(native("--version"));
                proof {
                    assert(native_views(list@) =~= seq![
                        encode_utf8("create"@),
                        encode_utf8("--name"@),
                        encode_utf8(self.container_name@),
                        encode_utf8(self.image@),
                        encode_utf8("/just"@),
                        encode_utf8("--version"@),
                    ]);
                }
                Extraction::arguments(list)
            },
            ExtractPhase::CopyOut { directory, temporary: _, id } => {
                let mut list: Vec<NativeText> = Vec::new();
                list.push(native("cp"));
                list.push(native(concat2(id.as_str(), ":/just").as_str()));
                list.push(NativeText { bytes: directory.join("just").bytes });
                proof {
                    assert(native_views(list@) =~= seq![
                        encode_utf8("cp"@),
                        encode_utf8(id@ + ":/just"@),
                        extracted_at(directory@),
                    ]);
                }
                Extraction::arguments(list)
            },
            ExtractPhase::RemoveContainer { directory: _, temporary: _, id } => {
                Extraction::removal(id.as_str())
            },
            ExtractPhase::DropContainer { id, error: _ } => Extraction::removal(id.as_str()),
            ExtractPhase::MarkExecutable { directory, temporary: _ } => {
                ExtractStep::MarkExecutable { path: directory.join("just"), mode: PRIVATE_MODE }
            },
            ExtractPhase::Verify { directory, temporary: _ } => ExtractStep::Verify(
                directory.join("just"),
            ),
            ExtractPhase::CopyToCache { extracted, first_error: _, cache } => {
                ExtractStep::CopyFile { from: extracted.clone(), to: cache.join("just") }
            },
            ExtractPhase::MarkCached { first_error: _, cache } => ExtractStep::MarkExecutable {
                path: cache.join("just"),
                mode: PRIVATE_MODE,
            },
            ExtractPhase::VerifyCached { first_error: _, cache } => ExtractStep::Verify(
                cache.join("just"),
            ),
            ExtractPhase::Extracted { executable: _, version: _, directory: _ } => {
                ExtractStep::End
            },
            ExtractPhase::Failed(_) => ExtractStep::End,
        }
    }

    fn removal(id: &str) -> (step: ExtractStep)
        ensures
            extract_step_view(step) == ExtractStepView::Engine(
                removal_arguments(id@),
            ),
    {
        let mut list: Vec<NativeText> = Vec::new();
        list.push(native("rm"));
        list.push(native("-f"));
        list.push(native(id));
        proof {
            assert(native_views(list@) =~= removal_arguments(id@));
        }
        Extraction::arguments(list)
    }

    fn caching(&self, goal: CacheGoal<HostPath, String>) -> (phase: Phase)
        ensures
            phase_view(phase) == caching(self@.settings, goal_view(goal)),
    {
        if self.cache_root.is_some() {
            ExtractPhase::EnsureCache(goal)
        } else {
            ExtractPhase::Failed(String::from_str("no user cache directory is available"))
        }
    }

    fn image_reply(&self, pulled: bool, reply: Result<CommandOutput, String>) -> (phase: Phase)
        ensures
            phase_view(phase) == after_image(self@.settings, pulled, reply),
    {
        let context = if pulled {
            "cannot pull image"
        } else {
            "cannot inspect image"
        };
        match engine_error(context, &reply) {
            None => if self.temporary_root.is_some() {
                ExtractPhase::MakeTemporary
            } else {
                self.caching(CacheGoal::Extract)
            },
            Some(error) => {
                if !pulled {
                    if let Ok(output) = &reply {
                        if image_is_absent(output) {
                            return ExtractPhase::Pull;
                        }
                    }
                }
                ExtractPhase::Failed(error)
            },
        }
    }

    fn directory_reply(&self, phase: Phase, reply: ExtractReply) -> (next: Phase)
        requires
            phase is MakeTemporary || phase is EnsureCache || phase is SecureCache
                || phase is MakeCache,
            extract_fits(
                ExtractionModel { settings: self@.settings, phase: phase_view(phase) },
                reply,
            ),
        ensures
            phase_view(next) == after_directory(self@.settings, phase_view(phase), reply),
    {
        match phase {
            ExtractPhase::MakeTemporary => match reply {
                ExtractReply::Directory(directory) => ExtractPhase::Create {
                    directory,
                    temporary: true,
                },
                ExtractReply::Refused(text) => if self.cache_root.is_some() {
                    ExtractPhase::EnsureCache(CacheGoal::Extract)
                } else {
                    ExtractPhase::Failed(
                        path_error(
                            "cannot create temporary directory in ",
                            &copy_path(&self.temporary_root),
                            text.as_str(),
                        ),
                    )
                },
                _ => ExtractPhase::MakeTemporary,
            },
            ExtractPhase::EnsureCache(goal) => match reply {
                ExtractReply::Refused(text) => ExtractPhase::Failed(
                    path_error(
                        "cannot create cache directory ",
                        &copy_path(&self.cache_root),
                        text.as_str(),
                    ),
                ),
                _ => ExtractPhase::SecureCache(goal),
            },
            ExtractPhase::SecureCache(goal) => match reply {
                ExtractReply::Refused(text) => ExtractPhase::Failed(
                    path_error(
                        "cannot secure cache directory ",
                        &copy_path(&self.cache_root),
                        text.as_str(),
                    ),
                ),
                _ => ExtractPhase::MakeCache(goal),
            },
            ExtractPhase::MakeCache(goal) => match reply {
                ExtractReply::Directory(path) => match goal {
                    CacheGoal::Extract => ExtractPhase::Create {
                        directory: path,
                        temporary: false,
                    },
                    CacheGoal::Retry { extracted, first_error } => ExtractPhase::CopyToCache {
                        extracted,
                        first_error,
                        cache: path,
                    },
                },
                ExtractReply::Refused(text) => ExtractPhase::Failed(
                    path_error(
                        "cannot create temporary cache directory in ",
                        &copy_path(&self.cache_root),
                        text.as_str(),
                    ),
                ),
                _ => ExtractPhase::MakeCache(goal),
            },
            other => other,
        }
    }

    fn container_reply(&self, phase: Phase, reply: Result<CommandOutput, String>) -> (next: Phase)
        requires
            phase is Create || phase is CopyOut || phase is RemoveContainer
                || phase is DropContainer,
        ensures
            phase_view(next) == after_container(self@.settings, phase_view(phase), reply),
    {
        match phase {
            ExtractPhase::Create { directory, temporary } => match engine_error(
                "cannot create extraction container",
                &reply,
            ) {
                Some(error) => ExtractPhase::Failed(error),
                None => {
                    let id = match &reply {
                        Ok(output) => container_id(output, self.container_name.as_str()),
                        Err(_) => String::new(),
                    };
                    ExtractPhase::CopyOut { directory, temporary, id }
                },
            },
            ExtractPhase::CopyOut { directory, temporary, id } => match engine_error(
                "cannot copy /just from container",
                &reply,
            ) {
                Some(error) => ExtractPhase::DropContainer { id, error },
                None => ExtractPhase::RemoveContainer { directory, temporary, id },
            },
            ExtractPhase::RemoveContainer { directory, temporary, id } => match engine_error(
                "cannot remove extraction container",
                &reply,
            ) {
                Some(error) => ExtractPhase::DropContainer { id, error },
                None => ExtractPhase::MarkExecutable { directory, temporary },
            },
            ExtractPhase::DropContainer { id: _, error } => ExtractPhase::Failed(error),
            other => other,
        }
    }

    fn file_reply(&self, phase: Phase, reply: ExtractReply) -> (next: Phase)
        requires
            phase is MarkExecutable || phase is Verify || phase is CopyToCache
                || phase is MarkCached || phase is VerifyCached,
            extract_fits(
                ExtractionModel { settings: self@.settings, phase: phase_view(phase) },
                reply,
            ),
        ensures
            phase_view(next) == after_file(self@.settings, phase_view(phase), reply),
    {
        match phase {
            ExtractPhase::MarkExecutable { directory, temporary } => match reply {
                ExtractReply::Refused(text) => ExtractPhase::Failed(
                    path_error(
                        "cannot make extracted Just executable at ",
                        &directory.join("just"),
                        text.as_str(),
                    ),
                ),
                _ => ExtractPhase::Verify { directory, temporary },
            },
            ExtractPhase::Verify { directory, temporary } => match reply {
                ExtractReply::Tried { output, resolved } => match verified_executable(
                    &self.minimum_version,
                    &output,
                    &resolved,
                ) {
                    Ok((executable, version)) => ExtractPhase::Extracted {
                        executable,
                        version,
                        directory,
                    },
                    Err(error) => {
                        if temporary && looks_like_noexec(error.as_str()) {
                            self.caching(
                                CacheGoal::Retry {
                                    extracted: directory.join("just"),
                                    first_error: error,
                                },
                            )
                        } else {
                            ExtractPhase::Failed(error)
                        }
                    },
                },
                _ => ExtractPhase::Verify { directory, temporary },
            },
            ExtractPhase::CopyToCache { extracted, first_error, cache } => match reply {
                ExtractReply::Refused(text) => ExtractPhase::Failed(
                    path_error(
                        "cannot copy extracted Just to cache ",
                        &cache.join("just"),
                        text.as_str(),
                    ),
                ),
                _ => ExtractPhase::MarkCached { first_error, cache },
            },
            ExtractPhase::MarkCached { first_error, cache } => match reply {
                ExtractReply::Refused(text) => ExtractPhase::Failed(
                    path_error(
                        "cannot make cached Just executable at ",
                        &cache.join("just"),
                        text.as_str(),
                    ),
                ),
                _ => ExtractPhase::VerifyCached { first_error, cache },
            },
            ExtractPhase::VerifyCached { first_error, cache } => match reply {
                ExtractReply::Tried { output, resolved } => match verified_executable(
                    &self.minimum_version,
                    &output,
                    &resolved,
                ) {
                    Ok((executable, version)) => ExtractPhase::Extracted {
                        executable,
                        version,
                        directory: cache,
                    },
                    Err(error) => ExtractPhase::Failed(
                        concat4(
                            "temporary Just was not executable (",
                            first_error.as_str(),
                            "); cache fallback failed: ",
                            error.as_str(),
                        ),
                    ),
                },
                _ => ExtractPhase::VerifyCached { first_error, cache },
            },
            other => other,
        }
    }

    fn next_phase(&self, phase: Phase, reply: ExtractReply) -> (next: Phase)
        requires
            extract_fits(
                ExtractionModel { settings: self@.settings, phase: phase_view(phase) },
                reply,
            ),
        ensures
            phase_view(next) == after_extract(
                ExtractionModel { settings: self@.settings, phase: phase_view(phase) },
                reply,
            ).phase,
    {
        match reply {
            ExtractReply::Ran(outcome) => match phase {
                ExtractPhase::Inspect => self.image_reply(false, outcome),
                ExtractPhase::Pull => self.image_reply(true, outcome),
                other => self.container_reply(other, outcome),
            },
            other_reply => {
                let directory = match &phase {
                    ExtractPhase::MakeTemporary => true,
                    ExtractPhase::EnsureCache(_) => true,
                    ExtractPhase::SecureCache(_) => true,
                    ExtractPhase::MakeCache(_) => true,
                    _ => false,
                };
                if directory {
                    self.directory_reply(phase, other_reply)
                } else {
                    self.file_reply(phase, other_reply)
                }
            },
        }
    }

    /// The extraction after the step that came next.
    pub fn advance(self, reply: ExtractReply) -> (next: Extraction)
        requires
            extract_fits(self@, reply),
        ensures
            next@ == after_extract(self@, reply),
    {
        let Extraction {
            image,
            minimum_version,
            container_name,
            temporary_root,
            cache_root,
            phase,
        } = self;
        let settings = Extraction {
            image,
            minimum_version,
            container_name,
            temporary_root,
            cache_root,
            phase: ExtractPhase::Inspect,
        };
        let phase = settings.next_phase(phase, reply);
        Extraction {
            image: settings.image,
            minimum_version: settings.minimum_version,
            container_name: settings.container_name,
            temporary_root: settings.temporary_root,
            cache_root: settings.cache_root,
            phase,
        }
    }

    /// What came of the extraction, once there is nothing left to do: the
    /// executable, its version and the directory that holds it.
    pub fn finish(self) -> (result: Result<(HostPath, JustVersion, HostPath), String>)
        requires
            next_extract_step(self@) is End,
        ensures
            match self@.phase {
                ExtractPhase::Extracted { executable, version, directory } => result matches Ok(
                    (path, found, home),
                ) && path@ == executable && found@ == version && home@ == directory,
                ExtractPhase::Failed(error) => result matches Err(text) && text@ == error,
                _ => false,
            },
    {
        match self.phase {
            ExtractPhase::Extracted { executable, version, directory } => Ok(
                (executable, version, directory),
            ),
            ExtractPhase::Failed(error) => Err(error),
            _ => Err(String::new()),
        }
    }
}

/// What an extraction brings is never older than the minimum.
pub proof fn extracted_versions_are_recent_enough(m: ExtractionModel, reply: ExtractReply)
    requires
        extract_fits(m, reply),
    ensures
        after_extract(m, reply).settings == m.settings,
        after_extract(m, reply).phase matches ExtractPhase::Extracted {
            executable,
            version,
            directory,
        } ==> !semver_below(version, m.settings.minimum_version),
{
}

/// An image is pulled only after an inspection said that it is not there.
pub proof fn images_are_pulled_only_when_absent(m: ExtractionModel, reply: ExtractReply)
    requires
        extract_fits(m, reply),
        !(m.phase is Pull),
    ensures
        after_extract(m, reply).phase is Pull ==> m.phase is Inspect && (reply matches ExtractReply::Ran(
            Ok(output),
        ) && !successful(output) && image_absent(output)),
{
}

/// A container exists that was created and not yet removed.
pub open spec fn holds_container(phase: PhaseView) -> bool {
    phase is CopyOut || phase is RemoveContainer || phase is DropContainer
}

/// The container that an extraction holds.
pub open spec fn container_of(phase: PhaseView) -> Seq<char> {
    match phase {
        ExtractPhase::CopyOut { directory, temporary, id } => id,
        ExtractPhase::RemoveContainer { directory, temporary, id } => id,
        ExtractPhase::DropContainer { id, error } => id,
        _ => seq![],
    }
}

/// An extraction lets go of its container only by asking for its removal.
pub proof fn created_containers_are_removed(m: ExtractionModel, reply: ExtractReply)
    requires
        extract_fits(m, reply),
        holds_container(m.phase),
    ensures
        holds_container(after_extract(m, reply).phase) || next_extract_step(m)
            == ExtractStepView::Engine(removal_arguments(container_of(m.phase))),
{
}

/// The cache is tried after a temporary directory only when that forbids
/// running executables.
pub proof fn the_cache_is_retried_only_for_noexec(m: ExtractionModel, reply: ExtractReply)
    requires
        extract_fits(m, reply),
        m.phase is Verify,
        after_extract(m, reply).phase is EnsureCache,
    ensures
        reply matches ExtractReply::Tried { output, resolved } && (verdict(
            m.settings.minimum_version,
            output,
            resolved,
        ) matches Err(error) && noexec(error)),
        m.phase matches ExtractPhase::Verify { directory, temporary } && temporary,
{
}

} // verus!
