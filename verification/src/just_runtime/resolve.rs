//! Which Just is used.
//!
//! A resolution says which step comes next and learns how the step went: an
//! installed executable, one from `PATH`, then an image with Podman and with
//! Docker.

use crate::just_runtime::command::{verdict, verdict_view, verified_executable, CommandOutput};
use crate::just_runtime::config::{
    attempt_views, held_path, AttemptView, ConfigView, RuntimeAttempt, RuntimeConfig, RuntimeError,
    RuntimeSource, SourceView,
};
use crate::just_runtime::extract::{
    after_extract, extract_fits, extract_step_view, next_extract_step, ExtractPhase, ExtractReply,
    ExtractSettings, ExtractStep, ExtractStepView, Extraction, ExtractionModel,
};
use crate::just_runtime::version::{semver_below, JustVersion};
use crate::native::{lossy, path_view, HostPath};
use crate::text::{concat3, concat4, decimal, decimal_text};
use vstd::prelude::*;

verus! {

/// A verified Just executable.
#[derive(Debug)]
pub struct JustRuntime {
    executable: HostPath,
    version: JustVersion,
    source: RuntimeSource,
}

pub struct RuntimeView {
    pub executable: Seq<u8>,
    pub version: Seq<char>,
    pub source: SourceView,
}

impl View for JustRuntime {
    type V = RuntimeView;

    closed spec fn view(&self) -> RuntimeView {
        RuntimeView {
            executable: self.executable@,
            version: self.version@,
            source: self.source@,
        }
    }
}

impl JustRuntime {
    pub fn executable(&self) -> (path: &HostPath)
        ensures
            path@ == self@.executable,
    {
        &self.executable
    }

    pub fn version(&self) -> (version: &JustVersion)
        ensures
            version@ == self@.version,
    {
        &self.version
    }

    pub fn source(&self) -> (source: &RuntimeSource)
        ensures
            source@ == self@.source,
    {
        &self.source
    }
}

/// How far a resolution has got. The flag of an engine says that it is Docker.
#[derive(Debug)]
pub enum ResolvePhase<P, E, R> {
    Installed(P),
    FindJust,
    VerifyPath(P),
    FindEngine(bool),
    Extract { docker: bool, engine: P, extraction: E },
    Resolved(R),
    Unavailable,
}

pub type ResolvePhaseView = ResolvePhase<Seq<u8>, ExtractionModel, RuntimeView>;

pub open spec fn resolve_phase_view(
    phase: ResolvePhase<HostPath, Extraction, JustRuntime>,
) -> ResolvePhaseView {
    match phase {
        ResolvePhase::Installed(path) => ResolvePhase::Installed(path@),
        ResolvePhase::FindJust => ResolvePhase::FindJust,
        ResolvePhase::VerifyPath(path) => ResolvePhase::VerifyPath(path@),
        ResolvePhase::FindEngine(docker) => ResolvePhase::FindEngine(docker),
        ResolvePhase::Extract { docker, engine, extraction } => ResolvePhase::Extract {
            docker,
            engine: engine@,
            extraction: extraction@,
        },
        ResolvePhase::Resolved(runtime) => ResolvePhase::Resolved(runtime@),
        ResolvePhase::Unavailable => ResolvePhase::Unavailable,
    }
}

/// A resolution that is under way.
#[derive(Debug)]
pub struct Resolution {
    config: RuntimeConfig,
    attempts: Vec<RuntimeAttempt>,
    phase: ResolvePhase<HostPath, Extraction, JustRuntime>,
}

pub struct ResolutionModel {
    pub config: ConfigView,
    pub attempts: Seq<AttemptView>,
    pub phase: ResolvePhaseView,
}

impl View for Resolution {
    type V = ResolutionModel;

    closed spec fn view(&self) -> ResolutionModel {
        ResolutionModel {
            config: self.config@,
            attempts: attempt_views(self.attempts@),
            phase: resolve_phase_view(self.phase),
        }
    }
}

/// What is to be done next.
#[derive(Debug)]
pub enum ResolveStep {
    /// Run an executable with `--version`, and resolve its path.
    Verify(HostPath),
    /// Look for Just in the search path.
    FindJust,
    /// Look for a container engine in the search path, and choose a free name
    /// for a container if it is there.
    FindEngine(String),
    /// Go on with an extraction by an engine.
    Extract { engine: HostPath, step: ExtractStep },
    /// There is nothing left to do.
    End,
}

pub enum ResolveStepView {
    Verify(Seq<u8>),
    FindJust,
    FindEngine(Seq<char>),
    Extract(Seq<u8>, ExtractStepView),
    End,
}

pub open spec fn resolve_step_view(step: ResolveStep) -> ResolveStepView {
    match step {
        ResolveStep::Verify(path) => ResolveStepView::Verify(path@),
        ResolveStep::FindJust => ResolveStepView::FindJust,
        ResolveStep::FindEngine(name) => ResolveStepView::FindEngine(name@),
        ResolveStep::Extract { engine, step } => ResolveStepView::Extract(
            engine@,
            extract_step_view(step),
        ),
        ResolveStep::End => ResolveStepView::End,
    }
}

/// How a step went.
#[derive(Debug)]
pub enum ResolveReply {
    /// What running the executable gave, and where its path leads.
    Tried { output: Result<CommandOutput, String>, resolved: Result<HostPath, String> },
    Found(Option<HostPath>),
    /// Where the engine is, and the name for a container.
    Engine(Option<(HostPath, String)>),
    Extracting(ExtractReply),
}

pub open spec fn engine_name(docker: bool) -> Seq<char> {
    if docker {
        "docker"@
    } else {
        "podman"@
    }
}

/// The step that comes next.
pub open spec fn next_resolve_step(m: ResolutionModel) -> ResolveStepView {
    match m.phase {
        ResolvePhase::Installed(path) => ResolveStepView::Verify(path),
        ResolvePhase::FindJust => ResolveStepView::FindJust,
        ResolvePhase::VerifyPath(path) => ResolveStepView::Verify(path),
        ResolvePhase::FindEngine(docker) => ResolveStepView::FindEngine(engine_name(docker)),
        ResolvePhase::Extract { docker, engine, extraction } => ResolveStepView::Extract(
            engine,
            next_extract_step(extraction),
        ),
        ResolvePhase::Resolved(_) => ResolveStepView::End,
        ResolvePhase::Unavailable => ResolveStepView::End,
    }
}

/// The reply is one that the step can have.
pub open spec fn resolve_fits(m: ResolutionModel, reply: ResolveReply) -> bool {
    match m.phase {
        ResolvePhase::Installed(_) => reply is Tried,
        ResolvePhase::FindJust => reply is Found,
        ResolvePhase::VerifyPath(_) => reply is Tried,
        ResolvePhase::FindEngine(_) => reply is Engine,
        ResolvePhase::Extract { docker, engine, extraction } => reply matches ResolveReply::Extracting(
            inner,
        ) && extract_fits(extraction, inner),
        ResolvePhase::Resolved(_) => false,
        ResolvePhase::Unavailable => false,
    }
}

/// How many sources come before `PATH`.
pub open spec fn sources_before_path(config: ConfigView) -> int {
    if config.installed_just is Some {
        1
    } else {
        0
    }
}

/// How many sources there are: an installed Just where one is configured,
/// `PATH`, then both engines, or the note that they are disabled.
pub open spec fn source_count(config: ConfigView) -> int {
    sources_before_path(config) + 1 + (if config.container_fallback {
        2int
    } else {
        1
    })
}

/// The attempt was made on the executable that `PATH` has, or found none there.
pub open spec fn tried_path(attempt: AttemptView) -> bool {
    attempt.source == "Just from PATH"@ || exists|path: Seq<u8>|
        attempt.source == "Just from PATH ("@ + #[trigger] lossy(path) + ")"@
}

/// The attempt was made with an engine, or found none.
pub open spec fn tried_engine(config: ConfigView, docker: bool, attempt: AttemptView) -> bool {
    attempt.source == engine_name(docker) || attempt.source == engine_name(docker) + " image `"@
        + config.image + "`"@
}

/// The attempt was made on the source whose turn it is.
pub open spec fn in_turn(config: ConfigView, attempt: AttemptView, i: int) -> bool {
    let before = sources_before_path(config);
    if i < before {
        attempt.source == "installed Just ("@ + lossy(config.installed_just->Some_0) + ")"@
    } else if i == before {
        tried_path(attempt)
    } else if !config.container_fallback {
        attempt.source == "container fallback"@
    } else {
        tried_engine(config, i > before + 1, attempt)
    }
}

/// How many sources were given up where a runtime was found: all that come
/// before its own.
pub open spec fn given_up_before(config: ConfigView, source: SourceView) -> int {
    match source {
        SourceView::Installed(_) => 0,
        SourceView::Path(_) => sources_before_path(config),
        SourceView::PodmanImage(_) => sources_before_path(config) + 1,
        SourceView::DockerImage(_) => sources_before_path(config) + 2,
    }
}

/// The source is one that the configuration allows.
pub open spec fn allowed_source(config: ConfigView, source: SourceView) -> bool {
    match source {
        SourceView::Installed(_) => config.installed_just is Some,
        SourceView::Path(_) => true,
        SourceView::PodmanImage(image) => config.container_fallback && image == config.image,
        SourceView::DockerImage(image) => config.container_fallback && image == config.image,
    }
}

/// A runtime that a resolution may give: recent enough, from an allowed source,
/// after every source before that was given up.
pub open spec fn acceptable(m: ResolutionModel, runtime: RuntimeView) -> bool {
    &&& !semver_below(runtime.version, m.config.minimum_version)
    &&& allowed_source(m.config, runtime.source)
    &&& m.attempts.len() == given_up_before(m.config, runtime.source)
}

/// Every attempt so far was made in its turn, as many as the phase has behind
/// it, and what is resolved is acceptable.
pub open spec fn resolve_sound(m: ResolutionModel) -> bool {
    let before = sources_before_path(m.config);
    &&& forall|i: int| 0 <= i < m.attempts.len() ==> in_turn(m.config, #[trigger] m.attempts[i], i)
    &&& match m.phase {
        ResolvePhase::Installed(path) => m.attempts.len() == 0 && m.config.installed_just == Some(
            path,
        ),
        ResolvePhase::FindJust => m.attempts.len() == before,
        ResolvePhase::VerifyPath(_) => m.attempts.len() == before,
        ResolvePhase::FindEngine(docker) => m.config.container_fallback && m.attempts.len()
            == before + 1 + (if docker {
            1int
        } else {
            0
        }),
        ResolvePhase::Extract { docker, engine, extraction } => {
            &&& m.config.container_fallback
            &&& m.attempts.len() == before + 1 + (if docker {
                1int
            } else {
                0
            })
            &&& !(next_extract_step(extraction) is End)
            &&& extraction.settings.minimum_version == m.config.minimum_version
        },
        ResolvePhase::Resolved(runtime) => acceptable(m, runtime),
        ResolvePhase::Unavailable => m.attempts.len() == source_count(m.config),
    }
}

pub open spec fn resolve_in(m: ResolutionModel, phase: ResolvePhaseView) -> ResolutionModel {
    ResolutionModel { phase, ..m }
}

pub open spec fn noted(m: ResolutionModel, source: Seq<char>, error: Seq<char>) -> ResolutionModel {
    ResolutionModel { attempts: m.attempts.push(AttemptView { source, error }), ..m }
}

/// Goes on with the engines, unless they are disabled.
pub open spec fn falling_back(m: ResolutionModel) -> ResolutionModel {
    if m.config.container_fallback {
        resolve_in(m, ResolvePhase::FindEngine(false))
    } else {
        resolve_in(
            noted(m, "container fallback"@, "disabled by configuration"@),
            ResolvePhase::Unavailable,
        )
    }
}

/// Goes on with the next engine.
pub open spec fn after_engine(m: ResolutionModel, docker: bool) -> ResolutionModel {
    resolve_in(
        m,
        if docker {
            ResolvePhase::Unavailable
        } else {
            ResolvePhase::FindEngine(true)
        },
    )
}

pub open spec fn image_source(docker: bool, image: Seq<char>) -> SourceView {
    if docker {
        SourceView::DockerImage(image)
    } else {
        SourceView::PodmanImage(image)
    }
}

/// Goes on with an extraction, unless it is over.
pub open spec fn extracting(
    m: ResolutionModel,
    docker: bool,
    engine: Seq<u8>,
    extraction: ExtractionModel,
) -> ResolutionModel {
    match extraction.phase {
        ExtractPhase::Extracted { executable, version, directory } => resolve_in(
            m,
            ResolvePhase::Resolved(
                RuntimeView {
                    executable,
                    version,
                    source: image_source(docker, m.config.image),
                },
            ),
        ),
        ExtractPhase::Failed(error) => after_engine(
            noted(m, engine_name(docker) + " image `"@ + m.config.image + "`"@, error),
            docker,
        ),
        _ => resolve_in(m, ResolvePhase::Extract { docker, engine, extraction }),
    }
}

/// The resolution after a step.
pub open spec fn after_resolve(m: ResolutionModel, reply: ResolveReply) -> ResolutionModel {
    match (m.phase, reply) {
        (ResolvePhase::Installed(path), ResolveReply::Tried { output, resolved }) => {
            match verdict(m.config.minimum_version, output, resolved) {
                Ok((executable, version)) => resolve_in(
                    m,
                    ResolvePhase::Resolved(
                        RuntimeView {
                            executable,
                            version,
                            source: SourceView::Installed(executable),
                        },
                    ),
                ),
                Err(error) => resolve_in(
                    noted(m, "installed Just ("@ + lossy(path) + ")"@, error),
                    ResolvePhase::FindJust,
                ),
            }
        },
        (ResolvePhase::FindJust, ResolveReply::Found(found)) => match found {
            Some(path) => resolve_in(m, ResolvePhase::VerifyPath(path@)),
            None => falling_back(noted(m, "Just from PATH"@, "not found"@)),
        },
        (ResolvePhase::VerifyPath(path), ResolveReply::Tried { output, resolved }) => {
            match verdict(m.config.minimum_version, output, resolved) {
                Ok((executable, version)) => resolve_in(
                    m,
                    ResolvePhase::Resolved(
                        RuntimeView {
                            executable,
                            version,
                            source: SourceView::Path(executable),
                        },
                    ),
                ),
                Err(error) => falling_back(
                    noted(m, "Just from PATH ("@ + lossy(path) + ")"@, error),
                ),
            }
        },
        (ResolvePhase::FindEngine(docker), ResolveReply::Engine(found)) => match found {
            Some((path, name)) => resolve_in(
                m,
                ResolvePhase::Extract {
                    docker,
                    engine: path@,
                    extraction: ExtractionModel {
                        settings: ExtractSettings {
                            image: m.config.image,
                            minimum_version: m.config.minimum_version,
                            container_name: name@,
                            temporary_root: m.config.temporary_root,
                            cache_root: m.config.cache_root,
                        },
                        phase: ExtractPhase::Inspect,
                    },
                },
            ),
            None => after_engine(noted(m, engine_name(docker), "not found in PATH"@), docker),
        },
        (
            ResolvePhase::Extract { docker, engine, extraction },
            ResolveReply::Extracting(inner),
        ) => extracting(m, docker, engine, after_extract(extraction, inner)),
        _ => m,
    }
}

/// A name for a container of this process.
pub open spec fn fresh_name(process: nat, sequence: nat) -> Seq<char> {
    "pipeline-just-"@ + decimal(process) + "-"@ + decimal(sequence)
}

/// A name for a container of this process.
pub fn container_name(process: u32, sequence: u64) -> (name: String)
    ensures
        name@ == fresh_name(process as nat, sequence as nat),
{
    concat4(
        "pipeline-just-",
        decimal_text(process as u64).as_str(),
        "-",
        decimal_text(sequence).as_str(),
    )
}

fn copy_optional(path: Option<&HostPath>) -> (copy: Option<HostPath>)
    ensures
        held_path(copy) == path_view(path),
{
    match path {
        Some(p) => Some(p.clone()),
        None => None,
    }
}

fn engine_text(docker: bool) -> (name: &'static str)
    ensures
        name@ == engine_name(docker),
{
    if docker {
        "docker"
    } else {
        "podman"
    }
}

type Phase = ResolvePhase<HostPath, Extraction, JustRuntime>;

fn note(attempts: Vec<RuntimeAttempt>, source: String, error: String) -> (list: Vec<RuntimeAttempt>)
    ensures
        attempt_views(list@) == attempt_views(attempts@).push(
            AttemptView { source: source@, error: error@ },
        ),
{
    let mut list = attempts;
    let attempt = RuntimeAttempt { source, error };
    proof {
        assert(attempt_views(list@.push(attempt)) =~= attempt_views(list@).push(attempt@));
    }
    list.push(attempt);
    list
}

fn fall_back(config: &RuntimeConfig, attempts: Vec<RuntimeAttempt>) -> (result: (
    Vec<RuntimeAttempt>,
    Phase,
))
    ensures
        forall|m: ResolutionModel|
            #![trigger falling_back(m)]
            m.config == config@ && m.attempts == attempt_views(attempts@) ==> falling_back(m) == (
            ResolutionModel {
                config: m.config,
                attempts: attempt_views(result.0@),
                phase: resolve_phase_view(result.1),
            }),
{
    if config.container_fallback() {
        (attempts, ResolvePhase::FindEngine(false))
    } else {
        let list = note(
            attempts,
            String::from_str("container fallback"),
            String::from_str("disabled by configuration"),
        );
        (list, ResolvePhase::Unavailable)
    }
}

fn next_engine(docker: bool) -> (phase: Phase)
    ensures
        forall|m: ResolutionModel|
            (#[trigger] after_engine(m, docker)).phase == resolve_phase_view(phase),
{
    if docker {
        ResolvePhase::Unavailable
    } else {
        ResolvePhase::FindEngine(true)
    }
}

fn extract_on(
    config: &RuntimeConfig,
    attempts: Vec<RuntimeAttempt>,
    docker: bool,
    engine: HostPath,
    extraction: Extraction,
) -> (result: (Vec<RuntimeAttempt>, Phase))
    ensures
        forall|m: ResolutionModel|
            #![trigger extracting(m, docker, engine@, extraction@)]
            m.config == config@ && m.attempts == attempt_views(attempts@) ==> extracting(
                m,
                docker,
                engine@,
                extraction@,
            ) == (ResolutionModel {
                config: m.config,
                attempts: attempt_views(result.0@),
                phase: resolve_phase_view(result.1),
            }),
{
    match extraction.step() {
        ExtractStep::End => match extraction.finish() {
            Ok((executable, version, _)) => {
                let image = String::from_str(config.image());
                let source = if docker {
                    RuntimeSource::DockerImage(image)
                } else {
                    RuntimeSource::PodmanImage(image)
                };
                (attempts, ResolvePhase::Resolved(JustRuntime { executable, version, source }))
            },
            Err(error) => {
                let source = concat4(engine_text(docker), " image `", config.image(), "`");
                (note(attempts, source, error), next_engine(docker))
            },
        },
        _ => (attempts, ResolvePhase::Extract { docker, engine, extraction }),
    }
}

/// Every source has its turn: the attempts stay in order, as many as the phase
/// has behind it, and whatever is resolved is recent enough, from an allowed
/// source, and comes after all that were tried before were given up.
pub proof fn every_source_has_its_turn(m: ResolutionModel, reply: ResolveReply)
    requires
        resolve_sound(m),
        resolve_fits(m, reply),
    ensures
        resolve_sound(after_resolve(m, reply)),
        after_resolve(m, reply).config == m.config,
{
    let after = after_resolve(m, reply);
    let n = m.attempts.len() as int;
    assert forall|i: int| 0 <= i < after.attempts.len() implies in_turn(
        after.config,
        #[trigger] after.attempts[i],
        i,
    ) by {
        if i < n {
            assert(after.attempts[i] == m.attempts[i]);
            assert(in_turn(m.config, m.attempts[i], i));
        }
    }
}

impl Resolution {
    #[verifier::type_invariant]
    spec fn is_sound(self) -> bool {
        resolve_sound(self@)
    }

    /// Starts to look for Just.
    pub fn new(config: RuntimeConfig) -> (resolution: Resolution)
        ensures
            resolution@ == (ResolutionModel {
                config: config@,
                attempts: seq![],
                phase: match config@.installed_just {
                    Some(path) => ResolvePhase::Installed(path),
                    None => ResolvePhase::FindJust,
                },
            }),
    {
        let phase = match copy_optional(config.installed_just()) {
            Some(path) => ResolvePhase::Installed(path),
            None => ResolvePhase::FindJust,
        };
        let resolution = Resolution { config, attempts: Vec::new(), phase };
        proof {
            assert(resolution@.attempts =~= seq![]);
        }
        resolution
    }

    /// The step that comes next.
    pub fn step(&self) -> (step: ResolveStep)
        ensures
            resolve_step_view(step) == next_resolve_step(self@),
    {
        match &self.phase {
            ResolvePhase::Installed(path) => ResolveStep::Verify(path.clone()),
            ResolvePhase::FindJust => ResolveStep::FindJust,
            ResolvePhase::VerifyPath(path) => ResolveStep::Verify(path.clone()),
            ResolvePhase::FindEngine(docker) => ResolveStep::FindEngine(
                String::from_str(engine_text(*docker)),
            ),
            ResolvePhase::Extract { docker: _, engine, extraction } => ResolveStep::Extract {
                engine: engine.clone(),
                step: extraction.step(),
            },
            ResolvePhase::Resolved(_) => ResolveStep::End,
            ResolvePhase::Unavailable => ResolveStep::End,
        }
    }

    fn judge(
        config: &RuntimeConfig,
        output: Result<CommandOutput, String>,
        resolved: Result<HostPath, String>,
    ) -> (result: Result<(HostPath, JustVersion), String>)
        ensures
            verdict_view(result) == verdict(config@.minimum_version, output, resolved),
    {
        verified_executable(config.minimum_version(), &output, &resolved)
    }

    /// The resolution after the step that came next.
    pub fn advance(self, reply: ResolveReply) -> (next: Resolution)
        requires
            resolve_fits(self@, reply),
        ensures
            next@ == after_resolve(self@, reply),
    {
        proof {
            use_type_invariant(&self);
            every_source_has_its_turn(self@, reply);
        }
        let ghost before = self@;
        let Resolution { config, attempts, phase } = self;
        let (attempts, phase) = match (phase, reply) {
            (ResolvePhase::Installed(path), ResolveReply::Tried { output, resolved }) => {
                match Resolution::judge(&config, output, resolved) {
                    Ok((executable, version)) => {
                        let source = RuntimeSource::Installed(executable.clone());
                        let runtime = JustRuntime { executable, version, source };
                        (attempts, ResolvePhase::Resolved(runtime))
                    },
                    Err(error) => {
                        let source = concat3("installed Just (", path.shown().as_str(), ")");
                        (note(attempts, source, error), ResolvePhase::FindJust)
                    },
                }
            },
            (ResolvePhase::FindJust, ResolveReply::Found(found)) => match found {
                Some(path) => (attempts, ResolvePhase::VerifyPath(path)),
                None => fall_back(
                    &config,
                    note(
                        attempts,
                        String::from_str("Just from PATH"),
                        String::from_str("not found"),
                    ),
                ),
            },
            (ResolvePhase::VerifyPath(path), ResolveReply::Tried { output, resolved }) => {
                match Resolution::judge(&config, output, resolved) {
                    Ok((executable, version)) => {
                        let source = RuntimeSource::Path(executable.clone());
                        let runtime = JustRuntime { executable, version, source };
                        (attempts, ResolvePhase::Resolved(runtime))
                    },
                    Err(error) => {
                        let source = concat3("Just from PATH (", path.shown().as_str(), ")");
                        fall_back(&config, note(attempts, source, error))
                    },
                }
            },
            (ResolvePhase::FindEngine(docker), ResolveReply::Engine(found)) => match found {
                Some((engine, name)) => {
                    let extraction = Extraction::new(
                        config.image(),
                        config.minimum_version(),
                        name.as_str(),
                        copy_optional(config.temporary_root()),
                        copy_optional(config.cache_root()),
                    );
                    (attempts, ResolvePhase::Extract { docker, engine, extraction })
                },
                None => (
                    note(
                        attempts,
                        String::from_str(engine_text(docker)),
                        String::from_str("not found in PATH"),
                    ),
                    next_engine(docker),
                ),
            },
            (
                ResolvePhase::Extract { docker, engine, extraction },
                ResolveReply::Extracting(inner),
            ) => extract_on(&config, attempts, docker, engine, extraction.advance(inner)),
            (other, _) => (attempts, other),
        };
        proof {
            let after = ResolutionModel {
                config: config@,
                attempts: attempt_views(attempts@),
                phase: resolve_phase_view(phase),
            };
            assert(after == after_resolve(before, reply));
        }
        Resolution { config, attempts, phase }
    }

    /// What came of the resolution, once there is nothing left to do.
    pub fn finish(self) -> (result: Result<JustRuntime, RuntimeError>)
        requires
            next_resolve_step(self@) is End,
        ensures
            match self@.phase {
                ResolvePhase::Resolved(view) => result matches Ok(runtime) && runtime@ == view,
                ResolvePhase::Unavailable => result matches Err(
                    RuntimeError::Unavailable { minimum_version, attempts },
                ) && minimum_version@ == self@.config.minimum_version && attempt_views(attempts@)
                    == self@.attempts,
                _ => false,
            },
            result matches Ok(runtime) ==> acceptable(self@, runtime@),
            result matches Err(RuntimeError::Unavailable { minimum_version, attempts }) ==> {
                &&& attempts@.len() == source_count(self@.config)
                &&& forall|i: int|
                    0 <= i < attempts@.len() ==> in_turn(
                        self@.config,
                        #[trigger] attempt_views(attempts@)[i],
                        i,
                    )
            },
    {
        proof {
            use_type_invariant(&self);
        }
        match self.phase {
            ResolvePhase::Resolved(runtime) => Ok(runtime),
            _ => {
                let minimum_version = self.config.minimum_version().clone();
                Err(RuntimeError::Unavailable { minimum_version, attempts: self.attempts })
            },
        }
    }
}

/// Without the container fallback no engine is ever looked for or run.
pub proof fn disabled_fallback_runs_no_engine(m: ResolutionModel, reply: ResolveReply)
    requires
        resolve_fits(m, reply),
        !m.config.container_fallback,
        !(m.phase is FindEngine),
        !(m.phase is Extract),
    ensures
        !(after_resolve(m, reply).phase is FindEngine),
        !(after_resolve(m, reply).phase is Extract),
        after_resolve(m, reply).config == m.config,
{
}

/// An engine is looked for only after the executable in `PATH` was tried or
/// found missing, and Docker only after Podman.
pub proof fn engines_come_last(m: ResolutionModel, reply: ResolveReply)
    requires
        resolve_fits(m, reply),
    ensures
        after_resolve(m, reply).phase matches ResolvePhase::FindEngine(docker) ==> if docker {
            m.phase == ResolvePhase::<Seq<u8>, ExtractionModel, RuntimeView>::FindEngine(false)
                || (m.phase matches ResolvePhase::Extract { docker: second, engine, extraction }
                && !second)
        } else {
            m.phase is FindJust || m.phase is VerifyPath
        },
{
}

/// A resolved Just reaches the configured minimum.
pub proof fn resolved_versions_are_recent_enough(m: ResolutionModel, reply: ResolveReply)
    requires
        resolve_sound(m),
        resolve_fits(m, reply),
    ensures
        after_resolve(m, reply).phase matches ResolvePhase::Resolved(runtime) ==> !semver_below(
            runtime.version,
            m.config.minimum_version,
        ),
{
    every_source_has_its_turn(m, reply);
}

/// An unavailable Just leaves one attempt where an installed Just is
/// configured, one for `PATH`, then two with the container fallback or one
/// without, each on the source whose turn it is.
pub proof fn an_unavailable_just_leaves_every_attempt(m: ResolutionModel, reply: ResolveReply)
    requires
        resolve_sound(m),
        resolve_fits(m, reply),
        after_resolve(m, reply).phase is Unavailable,
    ensures
        after_resolve(m, reply).attempts.len() == source_count(m.config),
        forall|i: int|
            0 <= i < source_count(m.config) ==> in_turn(
                m.config,
                #[trigger] after_resolve(m, reply).attempts[i],
                i,
            ),
{
    every_source_has_its_turn(m, reply);
}

/// No attempt is forgotten.
pub proof fn attempts_only_grow(m: ResolutionModel, reply: ResolveReply)
    requires
        resolve_fits(m, reply),
    ensures
        m.attempts.is_prefix_of(after_resolve(m, reply).attempts),
{
}

} // verus!
