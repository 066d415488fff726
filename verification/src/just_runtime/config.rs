//! How Just is looked for, and what comes of it.

use crate::just_runtime::version::{semver_error, JustVersion};
use crate::native::{HostPath, NativeText};
use crate::text::{chars_of, concat3, concat4, trim, trimmed};
use vstd::prelude::*;
use vstd::utf8::encode_utf8;

verus! {

/// How Just is looked for.
#[derive(Debug)]
pub struct RuntimeConfig {
    image: String,
    minimum_version: JustVersion,
    installed_just: Option<HostPath>,
    search_path: Option<NativeText>,
    container_fallback: bool,
    temporary_root: Option<HostPath>,
    cache_root: Option<HostPath>,
}

/// The model of a configuration.
pub struct ConfigView {
    pub image: Seq<char>,
    pub minimum_version: Seq<char>,
    pub installed_just: Option<Seq<u8>>,
    pub search_path: Option<Seq<u8>>,
    pub container_fallback: bool,
    pub temporary_root: Option<Seq<u8>>,
    pub cache_root: Option<Seq<u8>>,
}

pub open spec fn held_path(path: Option<HostPath>) -> Option<Seq<u8>> {
    match path {
        Some(p) => Some(p@),
        None => None,
    }
}

pub open spec fn held_text(text: Option<NativeText>) -> Option<Seq<u8>> {
    match text {
        Some(t) => Some(t@),
        None => None,
    }
}

impl Clone for RuntimeConfig {
    fn clone(&self) -> (copy: RuntimeConfig)
        ensures
            copy@ == self@,
    {
        RuntimeConfig {
            image: String::from_str(self.image.as_str()),
            minimum_version: self.minimum_version.clone(),
            installed_just: copy_path(&self.installed_just),
            search_path: match &self.search_path {
                Some(text) => Some(text.clone()),
                None => None,
            },
            container_fallback: self.container_fallback,
            temporary_root: copy_path(&self.temporary_root),
            cache_root: copy_path(&self.cache_root),
        }
    }
}

fn copy_path(path: &Option<HostPath>) -> (copy: Option<HostPath>)
    ensures
        held_path(copy) == held_path(*path),
{
    match path {
        Some(place) => Some(place.clone()),
        None => None,
    }
}

impl View for RuntimeConfig {
    type V = ConfigView;

    closed spec fn view(&self) -> ConfigView {
        ConfigView {
            image: self.image@,
            minimum_version: self.minimum_version@,
            installed_just: held_path(self.installed_just),
            search_path: held_text(self.search_path),
            container_fallback: self.container_fallback,
            temporary_root: held_path(self.temporary_root),
            cache_root: held_path(self.cache_root),
        }
    }
}

/// A configuration with nothing installed, and containers to fall back on.
pub open spec fn default_config(
    image: Seq<char>,
    minimum_version: Seq<char>,
    search_path: Option<Seq<u8>>,
    cache_root: Option<Seq<u8>>,
) -> ConfigView {
    ConfigView {
        image,
        minimum_version,
        installed_just: None,
        search_path,
        container_fallback: true,
        temporary_root: Some(encode_utf8("/tmp"@)),
        cache_root,
    }
}

impl RuntimeConfig {
    /// A configuration for an image and a minimum version. `search_path` and
    /// `cache_root` come from the environment.
    pub fn new(
        image: &str,
        minimum_version: &str,
        search_path: Option<NativeText>,
        cache_root: Option<HostPath>,
    ) -> (result: Result<RuntimeConfig, RuntimeError>)
        ensures
            trimmed(image@).len() == 0 ==> (result matches Err(RuntimeError::Configuration(text))
                && text@ == "Just container image cannot be empty"@),
            trimmed(image@).len() > 0 ==> match semver_error(minimum_version@) {
                Some(error) => result matches Err(RuntimeError::Configuration(text)) && text@
                    == "invalid minimum Just version `"@ + minimum_version@ + "`: "@ + error,
                None => result matches Ok(config) && config@ == default_config(
                    image@,
                    minimum_version@,
                    held_text(search_path),
                    held_path(cache_root),
                ),
            },
    {
        RuntimeConfig::with_parsed_version(
            image,
            minimum_version,
            JustVersion::parse(minimum_version),
            search_path,
            cache_root,
        )
    }

    /// The same, with what parsing the minimum version gave.
    pub fn with_parsed_version(
        image: &str,
        minimum_version: &str,
        parsed: Result<JustVersion, String>,
        search_path: Option<NativeText>,
        cache_root: Option<HostPath>,
    ) -> (result: Result<RuntimeConfig, RuntimeError>)
        ensures
            trimmed(image@).len() == 0 ==> (result matches Err(RuntimeError::Configuration(text))
                && text@ == "Just container image cannot be empty"@),
            trimmed(image@).len() > 0 ==> match parsed {
                Err(error) => result matches Err(RuntimeError::Configuration(text)) && text@
                    == "invalid minimum Just version `"@ + minimum_version@ + "`: "@ + error@,
                Ok(version) => result matches Ok(config) && config@ == default_config(
                    image@,
                    version@,
                    held_text(search_path),
                    held_path(cache_root),
                ),
            },
    {
        let rest = trim(image);
        if chars_of(rest.as_str()).len() == 0 {
            return Err(
                RuntimeError::Configuration(
                    String::from_str("Just container image cannot be empty"),
                ),
            );
        }
        match parsed {
            Err(error) => Err(
                RuntimeError::Configuration(
                    concat4(
                        "invalid minimum Just version `",
                        minimum_version,
                        "`: ",
                        error.as_str(),
                    ),
                ),
            ),
            Ok(version) => Ok(
                RuntimeConfig {
                    image: String::from_str(image),
                    minimum_version: version,
                    installed_just: None,
                    search_path,
                    container_fallback: true,
                    temporary_root: Some(HostPath::from_text("/tmp")),
                    cache_root,
                },
            ),
        }
    }

    pub fn image(&self) -> (image: &str)
        ensures
            image@ == self@.image,
    {
        self.image.as_str()
    }

    pub fn minimum_version(&self) -> (version: &JustVersion)
        ensures
            version@ == self@.minimum_version,
    {
        &self.minimum_version
    }

    pub fn installed_just(&self) -> (path: Option<&HostPath>)
        ensures
            crate::native::path_view(path) == self@.installed_just,
    {
        match &self.installed_just {
            Some(path) => Some(path),
            None => None,
        }
    }

    /// The directories for Just and container engines, as `PATH` lists them.
    pub fn search_path(&self) -> (path: Option<&NativeText>)
        ensures
            match path {
                Some(text) => self@.search_path == Some(text@),
                None => self@.search_path is None,
            },
    {
        match &self.search_path {
            Some(path) => Some(path),
            None => None,
        }
    }

    pub fn container_fallback(&self) -> (enabled: bool)
        ensures
            enabled == self@.container_fallback,
    {
        self.container_fallback
    }

    pub fn temporary_root(&self) -> (path: Option<&HostPath>)
        ensures
            crate::native::path_view(path) == self@.temporary_root,
    {
        match &self.temporary_root {
            Some(path) => Some(path),
            None => None,
        }
    }

    pub fn cache_root(&self) -> (path: Option<&HostPath>)
        ensures
            crate::native::path_view(path) == self@.cache_root,
    {
        match &self.cache_root {
            Some(path) => Some(path),
            None => None,
        }
    }

    pub fn with_installed_just(self, path: Option<HostPath>) -> (config: RuntimeConfig)
        ensures
            config@ == (ConfigView { installed_just: held_path(path), ..self@ }),
    {
        let mut config = self;
        config.installed_just = path;
        config
    }

    /// Overrides the directories that are searched. `None` disables the search.
    pub fn with_search_path(self, path: Option<NativeText>) -> (config: RuntimeConfig)
        ensures
            config@ == (ConfigView { search_path: held_text(path), ..self@ }),
    {
        let mut config = self;
        config.search_path = path;
        config
    }

    pub fn with_container_fallback(self, enabled: bool) -> (config: RuntimeConfig)
        ensures
            config@ == (ConfigView { container_fallback: enabled, ..self@ }),
    {
        let mut config = self;
        config.container_fallback = enabled;
        config
    }

    /// Overrides `/tmp`. `None` goes directly to the cache directory.
    pub fn with_temporary_root(self, path: Option<HostPath>) -> (config: RuntimeConfig)
        ensures
            config@ == (ConfigView { temporary_root: held_path(path), ..self@ }),
    {
        let mut config = self;
        config.temporary_root = path;
        config
    }

    /// Overrides the cache directory. `None` disables it.
    pub fn with_cache_root(self, path: Option<HostPath>) -> (config: RuntimeConfig)
        ensures
            config@ == (ConfigView { cache_root: held_path(path), ..self@ }),
    {
        let mut config = self;
        config.cache_root = path;
        config
    }
}

/// Where a Just executable came from.
#[derive(Clone, Debug, PartialEq, Eq)]
pub enum RuntimeSource {
    Installed(HostPath),
    Path(HostPath),
    PodmanImage(String),
    DockerImage(String),
}

pub enum SourceView {
    Installed(Seq<u8>),
    Path(Seq<u8>),
    PodmanImage(Seq<char>),
    DockerImage(Seq<char>),
}

impl View for RuntimeSource {
    type V = SourceView;

    open spec fn view(&self) -> SourceView {
        match self {
            RuntimeSource::Installed(path) => SourceView::Installed(path@),
            RuntimeSource::Path(path) => SourceView::Path(path@),
            RuntimeSource::PodmanImage(image) => SourceView::PodmanImage(image@),
            RuntimeSource::DockerImage(image) => SourceView::DockerImage(image@),
        }
    }
}

/// A source that was tried, and what became of it.
#[derive(Clone, Debug, PartialEq, Eq)]
pub struct RuntimeAttempt {
    pub source: String,
    pub error: String,
}

/// The source and the error of an attempt.
pub struct AttemptView {
    pub source: Seq<char>,
    pub error: Seq<char>,
}

impl View for RuntimeAttempt {
    type V = AttemptView;

    open spec fn view(&self) -> AttemptView {
        AttemptView { source: self.source@, error: self.error@ }
    }
}

pub open spec fn attempt_views(list: Seq<RuntimeAttempt>) -> Seq<AttemptView> {
    Seq::new(list.len(), |i: int| list[i]@)
}

/// Why there is no Just.
#[derive(Debug, PartialEq, Eq)]
pub enum RuntimeError {
    Configuration(String),
    Unavailable { minimum_version: JustVersion, attempts: Vec<RuntimeAttempt> },
}

/// Each attempt on a line of its own.
pub open spec fn attempts_text(attempts: Seq<AttemptView>) -> Seq<char>
    decreases attempts.len(),
{
    if attempts.len() == 0 {
        seq![]
    } else {
        attempts_text(attempts.drop_last()) + "\n  "@ + attempts.last().source + ": "@
            + attempts.last().error
    }
}

pub open spec fn runtime_message(error: RuntimeError) -> Seq<char> {
    match error {
        RuntimeError::Configuration(text) => text@,
        RuntimeError::Unavailable { minimum_version, attempts } => "could not resolve Just "@
            + minimum_version@ + " or newer"@ + attempts_text(attempt_views(attempts@)),
    }
}

impl RuntimeError {
    /// The sources that were tried, in order.
    pub fn attempts(&self) -> (attempts: &[RuntimeAttempt])
        ensures
            match self {
                RuntimeError::Configuration(_) => attempts@.len() == 0,
                RuntimeError::Unavailable { minimum_version, attempts: list } => attempts@
                    == list@,
            },
    {
        match self {
            RuntimeError::Configuration(_) => &[],
            RuntimeError::Unavailable { minimum_version: _, attempts } => attempts.as_slice(),
        }
    }

    /// The message for the user.
    pub fn message(&self) -> (message: String)
        ensures
            message@ == runtime_message(*self),
    {
        match self {
            RuntimeError::Configuration(text) => String::from_str(text.as_str()),
            RuntimeError::Unavailable { minimum_version, attempts } => {
                let mut message = concat3(
                    "could not resolve Just ",
                    minimum_version.text(),
                    " or newer",
                );
                let ghost head = message@;
                let ghost all = attempt_views(attempts@);
                proof {
                    assert(head + attempts_text(all.take(0)) =~= head);
                }
                let mut i: usize = 0;
                while i < attempts.len()
                    invariant
                        i <= attempts.len(),
                        all == attempt_views(attempts@),
                        message@ == head + attempts_text(all.take(i as int)),
                    decreases attempts.len() - i,
                {
                    message.push_str("\n  ");
                    message.push_str(attempts[i].source.as_str());
                    message.push_str(": ");
                    message.push_str(attempts[i].error.as_str());
                    proof {
                        let next = all.take(i as int + 1);
                        assert(next.drop_last() =~= all.take(i as int));
                        assert(next.last() == attempts@[i as int]@);
                        assert(message@ =~= head + attempts_text(next));
                    }
                    i += 1;
                }
                proof {
                    assert(all.take(i as int) =~= all);
                }
                message
            },
        }
    }
}

} // verus!
