//! In which order Just is looked for.

use crate::just_runtime::command::verified_executable;
use crate::just_runtime::config::{RuntimeAttempt, RuntimeConfig, RuntimeError, RuntimeSource};
use crate::just_runtime::extract::{ExtractReply, ExtractStep, Extraction};
use crate::just_runtime::resolve::{JustRuntime, Resolution, ResolveReply, ResolveStep};
use crate::just_runtime::version::{semver_error, JustVersion};
use crate::native::{lemma_pieces_join, lemma_single_piece, lossy, HostPath, NativeText};
use crate::text::{pieces, trimmed, white_space};
use vstd::prelude::*;
use vstd::utf8::encode_utf8;

verus! {

/// A resolution that was advanced from one state to the next by the replies to
/// its steps.
pub open spec fn follows(
    states: Seq<Resolution>,
    steps: Seq<ResolveStep>,
    replies: Seq<ResolveReply>,
) -> bool {
    &&& states.len() == replies.len() + 1
    &&& steps.len() == states.len()
    &&& forall|i: int| #![trigger states[i]]
        0 <= i < states.len() ==> call_ensures(Resolution::step, (&states[i],), steps[i])
    &&& forall|i: int| #![trigger replies[i]]
        0 <= i < replies.len() ==> call_ensures(
            Resolution::advance,
            (states[i], replies[i]),
            states[i + 1],
        )
}

/// What trying an executable came to.
pub open spec fn judged(
    minimum: &JustVersion,
    reply: ResolveReply,
    verdict: Result<(HostPath, JustVersion), String>,
) -> bool {
    reply is Tried && call_ensures(
        verified_executable,
        (minimum, &reply->output, &reply->resolved),
        verdict,
    )
}

/// An installed Just that will do is used, and nothing else is looked for.
pub proof fn an_installed_just_comes_first(
    config: RuntimeConfig,
    installed: &HostPath,
    minimum: &JustVersion,
    states: Seq<Resolution>,
    steps: Seq<ResolveStep>,
    replies: Seq<ResolveReply>,
    verdict: Result<(HostPath, JustVersion), String>,
    result: Result<JustRuntime, RuntimeError>,
)
    requires
        call_ensures(RuntimeConfig::installed_just, (&config,), Some(installed)),
        call_ensures(RuntimeConfig::minimum_version, (&config,), minimum),
        call_ensures(Resolution::new, (config,), states[0]),
        follows(states, steps, replies),
        replies.len() == 1,
        judged(minimum, replies[0], verdict),
        call_ensures(Resolution::finish, (states[1],), result),
    ensures
        steps[0] matches ResolveStep::Verify(path) && path@ == installed@,
        verdict is Err ==> steps[1] is FindJust,
        verdict matches Ok((executable, version)) ==> steps[1] is End && (result matches Ok(runtime)
            && runs(runtime, executable@, version@) && comes_from(
            runtime,
            RuntimeSource::Installed(executable),
        )),
{
    let s0 = states[0];
    let s1 = states[1];
    let r0 = replies[0];
}

/// What a runtime runs, by what it tells.
pub open spec fn runs(runtime: JustRuntime, executable: Seq<u8>, version: Seq<char>) -> bool {
    &&& forall|path: &HostPath| #[trigger]
        call_ensures(JustRuntime::executable, (&runtime,), path) ==> path@ == executable
    &&& forall|found: &JustVersion| #[trigger]
        call_ensures(JustRuntime::version, (&runtime,), found) ==> found@ == version
}

pub open spec fn comes_from(runtime: JustRuntime, source: RuntimeSource) -> bool {
    forall|told: &RuntimeSource| #[trigger]
        call_ensures(JustRuntime::source, (&runtime,), told) ==> match source {
            RuntimeSource::Installed(path) => told matches RuntimeSource::Installed(p) && p@
                == path@,
            RuntimeSource::Path(path) => told matches RuntimeSource::Path(p) && p@ == path@,
            RuntimeSource::PodmanImage(image) => told matches RuntimeSource::PodmanImage(i) && i@
                == image@,
            RuntimeSource::DockerImage(image) => told matches RuntimeSource::DockerImage(i) && i@
                == image@,
        }
}

/// Then the Just of `PATH` is used, if it will do.
pub proof fn the_search_path_comes_second(
    config: RuntimeConfig,
    minimum: &JustVersion,
    found: HostPath,
    states: Seq<Resolution>,
    steps: Seq<ResolveStep>,
    replies: Seq<ResolveReply>,
    verdict: Result<(HostPath, JustVersion), String>,
    result: Result<JustRuntime, RuntimeError>,
)
    requires
        call_ensures(RuntimeConfig::installed_just, (&config,), None),
        call_ensures(RuntimeConfig::minimum_version, (&config,), minimum),
        call_ensures(Resolution::new, (config,), states[0]),
        follows(states, steps, replies),
        replies.len() == 2,
        replies[0] == ResolveReply::Found(Some(found)),
        judged(minimum, replies[1], verdict),
        call_ensures(Resolution::finish, (states[2],), result),
    ensures
        steps[0] is FindJust,
        steps[1] matches ResolveStep::Verify(path) && path@ == found@,
        verdict matches Ok((executable, version)) ==> steps[2] is End && (result matches Ok(runtime)
            && runs(runtime, executable@, version@) && comes_from(
            runtime,
            RuntimeSource::Path(executable),
        )),
        verdict is Err ==> !(steps[2] is FindJust) && !(steps[2] is Verify),
{
    let s0 = states[0];
    let s1 = states[1];
    let s2 = states[2];
    let r0 = replies[0];
    let r1 = replies[1];
}

/// Then Podman is looked for, and then Docker. What was tried is told, in order.
pub proof fn engines_come_last_and_podman_first(
    config: RuntimeConfig,
    installed: &HostPath,
    minimum: &JustVersion,
    states: Seq<Resolution>,
    steps: Seq<ResolveStep>,
    replies: Seq<ResolveReply>,
    refusal: String,
    result: Result<JustRuntime, RuntimeError>,
)
    requires
        call_ensures(RuntimeConfig::installed_just, (&config,), Some(installed)),
        call_ensures(RuntimeConfig::minimum_version, (&config,), minimum),
        call_ensures(RuntimeConfig::container_fallback, (&config,), true),
        call_ensures(Resolution::new, (config,), states[0]),
        follows(states, steps, replies),
        replies.len() == 4,
        judged(minimum, replies[0], Err(refusal)),
        replies[1] == ResolveReply::Found(None),
        replies[2] == ResolveReply::Engine(None),
        replies[3] == ResolveReply::Engine(None),
        call_ensures(Resolution::finish, (states[4],), result),
    ensures
        steps[0] matches ResolveStep::Verify(path) && path@ == installed@,
        steps[1] is FindJust,
        steps[2] matches ResolveStep::FindEngine(name) && name@ == "podman"@,
        steps[3] matches ResolveStep::FindEngine(name) && name@ == "docker"@,
        steps[4] is End,
        result matches Err(RuntimeError::Unavailable { minimum_version, attempts }) && {
            &&& minimum_version@ == minimum@
            &&& attempts@.len() == 4
            &&& told(attempts@[0], "installed Just ("@ + lossy(installed@) + ")"@, refusal@)
            &&& told(attempts@[1], "Just from PATH"@, "not found"@)
            &&& told(attempts@[2], "podman"@, "not found in PATH"@)
            &&& told(attempts@[3], "docker"@, "not found in PATH"@)
        },
{
    let s0 = states[0];
    let s1 = states[1];
    let s2 = states[2];
    let s3 = states[3];
    let s4 = states[4];
    let r0 = replies[0];
    let r1 = replies[1];
    let r2 = replies[2];
    let r3 = replies[3];
    if let Err(RuntimeError::Unavailable { minimum_version, attempts }) = result {
        let all = crate::just_runtime::config::attempt_views(attempts@);
        assert(all == s4@.attempts);
        assert(all.len() == 4);
        assert(all[0] == attempts@[0]@);
        assert(all[1] == attempts@[1]@);
        assert(all[2] == attempts@[2]@);
        assert(all[3] == attempts@[3]@);
    }
}

/// An attempt tells what was tried, and why it was given up.
pub open spec fn told(attempt: RuntimeAttempt, source: Seq<char>, error: Seq<char>) -> bool {
    attempt.source@ == source && attempt.error@ == error
}

/// Without the fallback no engine is looked for.
pub proof fn engines_can_be_left_out(
    config: RuntimeConfig,
    minimum: &JustVersion,
    found: Option<HostPath>,
    states: Seq<Resolution>,
    steps: Seq<ResolveStep>,
    replies: Seq<ResolveReply>,
    result: Result<JustRuntime, RuntimeError>,
)
    requires
        call_ensures(RuntimeConfig::installed_just, (&config,), None),
        call_ensures(RuntimeConfig::minimum_version, (&config,), minimum),
        call_ensures(RuntimeConfig::container_fallback, (&config,), false),
        call_ensures(Resolution::new, (config,), states[0]),
        follows(states, steps, replies),
        replies.len() == 1,
        replies[0] == ResolveReply::Found(None),
        call_ensures(Resolution::finish, (states[1],), result),
    ensures
        steps[1] is End,
        result matches Err(RuntimeError::Unavailable { minimum_version, attempts }) && {
            &&& minimum_version@ == minimum@
            &&& attempts@.len() == 2
            &&& told(attempts@[0], "Just from PATH"@, "not found"@)
            &&& told(attempts@[1], "container fallback"@, "disabled by configuration"@)
        },
{
    let s0 = states[0];
    let s1 = states[1];
    let r0 = replies[0];
    if let Err(RuntimeError::Unavailable { minimum_version, attempts }) = result {
        let all = crate::just_runtime::config::attempt_views(attempts@);
        assert(all == s1@.attempts);
        assert(all[0] == attempts@[0]@);
        assert(all[1] == attempts@[1]@);
    }
}

/// An engine that is there is told what an extraction from the configured image
/// asks for, step by step. What it brings is used as coming from that image;
/// where it brings nothing, the next engine is looked for.
pub proof fn engines_bring_the_configured_image(
    config: RuntimeConfig,
    image: &str,
    minimum: &JustVersion,
    engine: HostPath,
    name: String,
    slice: &str,
    temporary: Option<HostPath>,
    cache: Option<HostPath>,
    start: Extraction,
    states: Seq<Resolution>,
    steps: Seq<ResolveStep>,
    replies: Seq<ResolveReply>,
    first: ExtractStep,
)
    requires
        call_ensures(RuntimeConfig::installed_just, (&config,), None),
        call_ensures(RuntimeConfig::image, (&config,), image),
        call_ensures(RuntimeConfig::minimum_version, (&config,), minimum),
        call_ensures(RuntimeConfig::container_fallback, (&config,), true),
        config@.temporary_root == crate::just_runtime::config::held_path(temporary),
        config@.cache_root == crate::just_runtime::config::held_path(cache),
        call_ensures(Resolution::new, (config,), states[0]),
        follows(states, steps, replies),
        replies.len() == 2,
        replies[0] == ResolveReply::Found(None),
        replies[1] == ResolveReply::Engine(Some((engine, name))),
        slice@ == name@,
        call_ensures(Extraction::new, (image, minimum, slice, temporary, cache), start),
        call_ensures(Extraction::step, (&start,), first),
    ensures
        steps[2] matches ResolveStep::Extract { engine: run, step } && run@ == engine@
            && same_step(step, first),
        extracts(states[2], false, start),
{
    let s0 = states[0];
    let s1 = states[1];
    let s2 = states[2];
    let r0 = replies[0];
    let r1 = replies[1];
    if let ResolveStep::Extract { engine: run, step } = steps[2] {
        lemma_same_step(step, first);
    }
}

/// Two steps ask for the same.
pub open spec fn same_step(a: ExtractStep, b: ExtractStep) -> bool {
    match a {
        ExtractStep::Engine(list) => b matches ExtractStep::Engine(words) && list@.len()
            == words@.len() && forall|i: int|
            0 <= i < list@.len() ==> (#[trigger] list@[i])@ == words@[i]@,
        ExtractStep::MakeTemporary(path) => b matches ExtractStep::MakeTemporary(p) && p@ == path@,
        ExtractStep::EnsureDirectory(path) => b matches ExtractStep::EnsureDirectory(p) && p@
            == path@,
        ExtractStep::SecureDirectory { path, mode } => {
            b matches ExtractStep::SecureDirectory { path: p, mode: m } && p@ == path@ && m == mode
        },
        ExtractStep::MakeCached(path) => b matches ExtractStep::MakeCached(p) && p@ == path@,
        ExtractStep::MarkExecutable { path, mode } => {
            b matches ExtractStep::MarkExecutable { path: p, mode: m } && p@ == path@ && m == mode
        },
        ExtractStep::Verify(path) => b matches ExtractStep::Verify(p) && p@ == path@,
        ExtractStep::CopyFile { from, to } => b matches ExtractStep::CopyFile { from: f, to: t }
            && f@ == from@ && t@ == to@,
        ExtractStep::End => b is End,
    }
}

proof fn lemma_same_step(a: ExtractStep, b: ExtractStep)
    requires
        crate::just_runtime::extract::extract_step_view(a)
            == crate::just_runtime::extract::extract_step_view(b),
    ensures
        same_step(a, b),
{
    if let ExtractStep::Engine(list) = a {
        if let ExtractStep::Engine(words) = b {
            let left = crate::native::native_views(list@);
            let right = crate::native::native_views(words@);
            assert(left == right);
            assert(left.len() == list@.len() && right.len() == words@.len());
            assert forall|i: int| 0 <= i < list@.len() implies (#[trigger] list@[i])@
                == words@[i]@ by {
                assert(left[i] == list@[i]@);
                assert(right[i] == words@[i]@);
            }
        }
    }
}

/// A resolution is at this extraction.
pub open spec fn extracts(state: Resolution, docker: bool, extraction: Extraction) -> bool {
    state@.phase matches crate::just_runtime::resolve::ResolvePhase::Extract {
        docker: second,
        engine,
        extraction: inner,
    } && second == docker && inner == extraction@
}

/// The replies to an extraction are handed on to it.
pub proof fn extractions_run_to_their_end(
    state: Resolution,
    docker: bool,
    extraction: Extraction,
    reply: ExtractReply,
    next: Resolution,
    step: ResolveStep,
    further: Extraction,
    inner: ExtractStep,
    brought: Result<(HostPath, JustVersion, HostPath), String>,
    result: Result<JustRuntime, RuntimeError>,
)
    requires
        extracts(state, docker, extraction),
        call_ensures(Resolution::advance, (state, ResolveReply::Extracting(reply)), next),
        call_ensures(Resolution::step, (&next,), step),
        call_ensures(Extraction::advance, (extraction, reply), further),
        call_ensures(Extraction::step, (&further,), inner),
        inner is End ==> call_ensures(Extraction::finish, (further,), brought),
        inner is End && brought is Ok || inner is End && docker ==> call_ensures(
            Resolution::finish,
            (next,),
            result,
        ),
    ensures
        !(inner is End) ==> extracts(next, docker, further) && (
        step matches ResolveStep::Extract { engine, step: asked } && same_step(asked, inner)),
        inner is End && brought is Ok ==> step is End && (result matches Ok(runtime) && runs(
            runtime,
            brought->Ok_0.0@,
            brought->Ok_0.1@,
        ) && (forall|source: &RuntimeSource| #[trigger]
            call_ensures(JustRuntime::source, (&runtime,), source) ==> if docker {
                source matches RuntimeSource::DockerImage(image) && image@ == state@.config.image
            } else {
                source matches RuntimeSource::PodmanImage(image) && image@ == state@.config.image
            })),
        inner is End && brought is Err && !docker ==> (step matches ResolveStep::FindEngine(name)
            && name@ == "docker"@),
        inner is End && brought is Err && docker ==> step is End && (
        result matches Err(RuntimeError::Unavailable { minimum_version, attempts })
            && attempts@.len() > 0 && told(
            attempts@.last(),
            "docker image `"@ + state@.config.image + "`"@,
            brought->Err_0@,
        )),
{
    if let ResolveStep::Extract { engine, step: asked } = step {
        lemma_same_step(asked, inner);
    }
    if inner is End && brought is Err && docker {
        if let Err(RuntimeError::Unavailable { minimum_version, attempts }) = result {
            let all = crate::just_runtime::config::attempt_views(attempts@);
            assert(all == next@.attempts);
            assert(all.len() > 0);
            assert(all[all.len() - 1] == attempts@[attempts@.len() - 1]@);
            reveal_strlit("docker");
            reveal_strlit(" image `");
            reveal_strlit("docker image `");
            assert("docker"@ + " image `"@ + state@.config.image + "`"@ =~= "docker image `"@
                + state@.config.image + "`"@);
        }
    }
}

/// A fresh configuration has what it was given, no installed Just, `/tmp`, and
/// the fallback. An image that is blank or a version that is none is refused.
pub proof fn configurations_keep_what_they_are_given(
    image: &str,
    minimum: &str,
    search: Option<NativeText>,
    cache: Option<HostPath>,
    result: Result<RuntimeConfig, RuntimeError>,
    image_told: &str,
    minimum_told: &JustVersion,
    installed: Option<&HostPath>,
    search_told: Option<&NativeText>,
    fallback: bool,
    temporary: Option<&HostPath>,
    cache_told: Option<&HostPath>,
)
    requires
        call_ensures(RuntimeConfig::new, (image, minimum, search, cache), result),
        result matches Ok(config) ==> {
            &&& call_ensures(RuntimeConfig::image, (&config,), image_told)
            &&& call_ensures(RuntimeConfig::minimum_version, (&config,), minimum_told)
            &&& call_ensures(RuntimeConfig::installed_just, (&config,), installed)
            &&& call_ensures(RuntimeConfig::search_path, (&config,), search_told)
            &&& call_ensures(RuntimeConfig::container_fallback, (&config,), fallback)
            &&& call_ensures(RuntimeConfig::temporary_root, (&config,), temporary)
            &&& call_ensures(RuntimeConfig::cache_root, (&config,), cache_told)
        },
    ensures
        result is Ok <==> semver_error(minimum@) is None && exists|i: int|
            0 <= i < image@.len() && !white_space(#[trigger] image@[i]),
        result is Ok ==> {
            &&& image_told@ == image@
            &&& minimum_told@ == minimum@
            &&& installed is None
            &&& search_told is Some <==> search is Some
            &&& search is Some ==> search_told->Some_0@ == search->Some_0@
            &&& fallback
            &&& temporary matches Some(path) && path@ == encode_utf8("/tmp"@)
            &&& cache_told is Some <==> cache is Some
            &&& cache is Some ==> cache_told->Some_0@ == cache->Some_0@
        },
        result matches Err(error) ==> error is Configuration,
{
    lemma_visible(image@);
}

/// A setting replaces one thing and keeps the rest.
pub proof fn settings_change_one_thing(
    config: RuntimeConfig,
    path: Option<HostPath>,
    search: Option<NativeText>,
    fallback: bool,
    installed: RuntimeConfig,
    searching: RuntimeConfig,
    falling_back: RuntimeConfig,
    temporary: RuntimeConfig,
    cached: RuntimeConfig,
)
    requires
        call_ensures(RuntimeConfig::with_installed_just, (config, path), installed),
        call_ensures(RuntimeConfig::with_search_path, (config, search), searching),
        call_ensures(RuntimeConfig::with_container_fallback, (config, fallback), falling_back),
        call_ensures(RuntimeConfig::with_temporary_root, (config, path), temporary),
        call_ensures(RuntimeConfig::with_cache_root, (config, path), cached),
    ensures
        agree(config, installed, 0),
        agree(config, searching, 1),
        agree(config, falling_back, 2),
        agree(config, temporary, 3),
        agree(config, cached, 4),
        shows(installed@.installed_just, path),
        searching@.search_path is Some <==> search is Some,
        search matches Some(text) ==> searching@.search_path->Some_0 == text@,
        falling_back@.container_fallback == fallback,
        shows(temporary@.temporary_root, path),
        shows(cached@.cache_root, path),
{
}

pub open spec fn shows(held: Option<Seq<u8>>, path: Option<HostPath>) -> bool {
    (held is Some <==> path is Some) && (path matches Some(p) ==> held->Some_0 == p@)
}

/// Two configurations agree on all but one of their settings.
pub open spec fn agree(a: RuntimeConfig, b: RuntimeConfig, but: int) -> bool {
    &&& a@.image == b@.image
    &&& a@.minimum_version == b@.minimum_version
    &&& but == 0 || a@.installed_just == b@.installed_just
    &&& but == 1 || a@.search_path == b@.search_path
    &&& but == 2 || a@.container_fallback == b@.container_fallback
    &&& but == 3 || a@.temporary_root == b@.temporary_root
    &&& but == 4 || a@.cache_root == b@.cache_root
}

/// The message for a Just that is not there has a line for every attempt.
pub proof fn every_attempt_has_a_line(
    minimum: JustVersion,
    attempts: Vec<RuntimeAttempt>,
    message: String,
    i: int,
)
    requires
        call_ensures(
            RuntimeError::message,
            (&RuntimeError::Unavailable { minimum_version: minimum, attempts },),
            message,
        ),
        0 <= i < attempts@.len(),
        !minimum@.contains('\n'),
        forall|k: int|
            0 <= k < attempts@.len() ==> !(#[trigger] attempts@[k]).source@.contains('\n')
                && !attempts@[k].error@.contains('\n'),
    ensures
        pieces(message@, '\n').len() == attempts@.len() + 1,
        pieces(message@, '\n')[0] == "could not resolve Just "@ + minimum@ + " or newer"@,
        pieces(message@, '\n')[i + 1] == "  "@ + attempts@[i].source@ + ": "@
            + attempts@[i].error@,
{
    let head = "could not resolve Just "@ + minimum@ + " or newer"@;
    reveal_strlit("could not resolve Just ");
    reveal_strlit(" or newer");
    assert(!head.contains('\n')) by {
        if head.contains('\n') {
            let k = choose|k: int| 0 <= k < head.len() && head[k] == '\n';
            let n = "could not resolve Just "@.len() as int;
            if n <= k < n + minimum@.len() {
                assert(minimum@[k - n] == '\n');
                assert(minimum@.contains('\n'));
            }
        }
    }
    let views = crate::just_runtime::config::attempt_views(attempts@);
    assert forall|k: int| 0 <= k < views.len() implies !(#[trigger] views[k]).source.contains('\n')
        && !views[k].error.contains('\n') by {
        assert(views[k] == attempts@[k]@);
    }
    lemma_attempt_lines(head, views, i);
    assert(views[i] == attempts@[i]@);
}

proof fn lemma_attempt_lines(
    head: Seq<char>,
    attempts: Seq<crate::just_runtime::config::AttemptView>,
    i: int,
)
    requires
        !head.contains('\n'),
        forall|k: int|
            0 <= k < attempts.len() ==> !(#[trigger] attempts[k]).source.contains('\n')
                && !attempts[k].error.contains('\n'),
    ensures
        ({
            let all = pieces(
                head + crate::just_runtime::config::attempts_text(attempts),
                '\n',
            );
            &&& all.len() == attempts.len() + 1
            &&& all[0] == head
            &&& 0 <= i < attempts.len() ==> all[i + 1] == "  "@ + attempts[i].source + ": "@
                + attempts[i].error
        }),
    decreases attempts.len(),
{
    if attempts.len() == 0 {
        assert(head + crate::just_runtime::config::attempts_text(attempts) =~= head);
        lemma_single_piece(head, '\n');
    } else {
        let front = attempts.drop_last();
        let last = attempts.last();
        assert forall|k: int| 0 <= k < front.len() implies !(
        #[trigger] front[k]).source.contains('\n') && !front[k].error.contains('\n') by {
            assert(front[k] == attempts[k]);
        }
        lemma_attempt_lines(head, front, i);
        let before = head + crate::just_runtime::config::attempts_text(front);
        let line = "  "@ + last.source + ": "@ + last.error;
        reveal_strlit("  ");
        reveal_strlit("\n  ");
        reveal_strlit(": ");
        assert(!last.source.contains('\n')) by {
            assert(attempts[attempts.len() - 1] == last);
        }
        if line.contains('\n') {
            let k = choose|k: int| 0 <= k < line.len() && line[k] == '\n';
            let n = last.source.len() as int;
            if 2 <= k < 2 + n {
                assert(last.source[k - 2] == '\n');
                assert(last.source.contains('\n'));
            }
            if k >= 4 + n {
                assert(last.error[k - 4 - n] == '\n');
                assert(last.error.contains('\n'));
            }
        }
        lemma_single_piece(line, '\n');
        lemma_pieces_join(before, '\n', line);
        assert(head + crate::just_runtime::config::attempts_text(attempts) =~= before.push('\n')
            + line);
    }
}

pub proof fn lemma_visible(text: Seq<char>)
    ensures
        trimmed(text).len() > 0 <==> exists|i: int|
            0 <= i < text.len() && !white_space(#[trigger] text[i]),
    decreases text.len(),
{
    if text.len() == 0 {
    } else if white_space(text[0]) {
        let rest = text.drop_first();
        lemma_visible(rest);
        if exists|i: int| 0 <= i < rest.len() && !white_space(#[trigger] rest[i]) {
            let i = choose|i: int| 0 <= i < rest.len() && !white_space(#[trigger] rest[i]);
            assert(text[i + 1] == rest[i]);
        }
        if exists|i: int| 0 <= i < text.len() && !white_space(#[trigger] text[i]) {
            let i = choose|i: int| 0 <= i < text.len() && !white_space(#[trigger] text[i]);
            assert(rest[i - 1] == text[i]);
        }
    } else {
        crate::promises::pushing::lemma_not_blank(text);
        assert(!white_space(text[0]));
    }
}

} // verus!
