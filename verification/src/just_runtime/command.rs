//! What commands answer, and what it means.

use crate::just_runtime::version::{semver_below, semver_error, JustVersion};
use crate::native::{lossy, lossy_text, path_join, HostPath, NativeText};
use crate::text::{
    ascii_lowered, chars_of, concat2, concat3, concat5, contains, contains_text, lines, lower_ascii,
    skip_leading, split_lines, split_words, trim, trimmed, views, without_leading, words,
};
use vstd::prelude::*;
use vstd::utf8::encode_utf8;

verus! {

/// What a finished command left. `status` is how the system words its end; the
/// code is missing if a signal ended it.
#[derive(Debug)]
pub struct CommandOutput {
    pub code: Option<i32>,
    pub status: String,
    pub stdout: Vec<u8>,
    pub stderr: Vec<u8>,
}

pub open spec fn successful(output: CommandOutput) -> bool {
    output.code == Some(0i32)
}

/// Whether a command succeeded.
pub fn is_success(output: &CommandOutput) -> (success: bool)
    ensures
        success == successful(*output),
{
    match output.code {
        Some(code) => code == 0,
        None => false,
    }
}

/// Whether a command that could not be started is tried again: a freshly
/// written executable may be busy for a moment.
pub fn should_retry(attempt: u32, os_error: Option<i32>) -> (again: bool)
    ensures
        again == (attempt < 3 && os_error == Some(26i32)),
{
    match os_error {
        Some(code) => attempt < 3 && code == 26,
        None => false,
    }
}

fn is_blank(text: &str) -> (blank: bool)
    ensures
        blank == (trimmed(text@).len() == 0),
{
    let rest = trim(text);
    let chars = chars_of(rest.as_str());
    chars.len() == 0
}

/// What a failed command said: its errors, else its output, else nothing.
pub open spec fn diagnosis(output: CommandOutput) -> Seq<char> {
    let errors = trimmed(lossy(output.stderr@));
    let text = trimmed(lossy(output.stdout@));
    if errors.len() > 0 {
        errors
    } else if text.len() > 0 {
        text
    } else {
        "no diagnostic output"@
    }
}

pub open spec fn output_failure(context: Seq<char>, output: CommandOutput) -> Seq<char> {
    context + " ("@ + output.status@ + "): "@ + diagnosis(output)
}

/// The report on a command that failed.
pub fn format_output_failure(context: &str, output: &CommandOutput) -> (text: String)
    ensures
        text@ == output_failure(context@, *output),
{
    let errors = trim(lossy_text(output.stderr.as_slice()).as_str());
    let printed = trim(lossy_text(output.stdout.as_slice()).as_str());
    let detail = if chars_of(errors.as_str()).len() > 0 {
        errors
    } else if chars_of(printed.as_str()).len() > 0 {
        printed
    } else {
        String::from_str("no diagnostic output")
    };
    concat5(context, " (", output.status.as_str(), "): ", detail.as_str())
}

/// The word of a line that stands where a version is announced: the second,
/// after a first word `just`, without its leading `v`s.
pub open spec fn version_word(line: Seq<char>) -> Option<Seq<char>> {
    let parts = words(line);
    if parts.len() < 2 || ascii_lowered(parts[0]) != "just"@ {
        None
    } else {
        Some(without_leading(parts[1], 'v'))
    }
}

/// The version that a line announces.
pub open spec fn announced(line: Seq<char>) -> Option<Seq<char>> {
    match version_word(line) {
        Some(text) => if semver_error(text) is None {
            Some(text)
        } else {
            None
        },
        None => None,
    }
}

/// The first version that a list of lines announces.
pub open spec fn first_announced(list: Seq<Seq<char>>) -> Option<Seq<char>>
    decreases list.len(),
{
    if list.len() == 0 {
        None
    } else if announced(list[0]) is Some {
        announced(list[0])
    } else {
        first_announced(list.drop_first())
    }
}

/// The version that `just --version` printed, on either stream.
pub open spec fn printed_version(output: CommandOutput) -> Option<Seq<char>> {
    first_announced(lines(lossy(output.stdout@)) + lines(lossy(output.stderr@)))
}

/// The word of a line that stands where a version is announced.
pub fn announced_word(line: &str) -> (word: Option<String>)
    ensures
        match version_word(line@) {
            Some(text) => word matches Some(found) && found@ == text,
            None => word is None,
        },
{
    let parts = split_words(line);
    let ghost all = words(line@);
    if parts.len() < 2 {
        return None;
    }
    proof {
        assert(all[0] == parts@[0]@);
        assert(all[1] == parts@[1]@);
    }
    let name = lower_ascii(parts[0].as_str());
    if !(*name.as_str() == *"just") {
        return None;
    }
    Some(skip_leading(parts[1].as_str(), 'v'))
}

fn announced_version(line: &str) -> (version: Option<JustVersion>)
    ensures
        match announced(line@) {
            Some(text) => version matches Some(found) && found@ == text,
            None => version is None,
        },
{
    match announced_word(line) {
        Some(text) => match JustVersion::parse(text.as_str()) {
            Ok(version) => Some(version),
            Err(_) => None,
        },
        None => None,
    }
}

fn search_lines(list: &Vec<String>) -> (version: Option<JustVersion>)
    ensures
        match first_announced(views(list@)) {
            Some(text) => version matches Some(found) && found@ == text,
            None => version is None,
        },
{
    let ghost all = views(list@);
    proof {
        assert(all.skip(0) =~= all);
    }
    let mut i: usize = 0;
    while i < list.len()
        invariant
            i <= list.len(),
            all == views(list@),
            first_announced(all) == first_announced(all.skip(i as int)),
        decreases list.len() - i,
    {
        let found = announced_version(list[i].as_str());
        proof {
            assert(all.skip(i as int)[0] == list@[i as int]@);
            assert(all.skip(i as int).drop_first() =~= all.skip(i as int + 1));
        }
        if found.is_some() {
            return found;
        }
        i += 1;
    }
    None
}

proof fn lemma_first_in_concat(a: Seq<Seq<char>>, b: Seq<Seq<char>>)
    ensures
        first_announced(a + b) == (if first_announced(a) is Some {
            first_announced(a)
        } else {
            first_announced(b)
        }),
    decreases a.len(),
{
    if a.len() == 0 {
        assert(a + b =~= b);
    } else {
        assert((a + b)[0] == a[0]);
        assert((a + b).drop_first() =~= a.drop_first() + b);
        lemma_first_in_concat(a.drop_first(), b);
    }
}

/// The version that `just --version` printed.
pub fn parse_just_version(output: &CommandOutput) -> (version: Option<JustVersion>)
    ensures
        match printed_version(*output) {
            Some(text) => version matches Some(found) && found@ == text,
            None => version is None,
        },
{
    let printed = split_lines(lossy_text(output.stdout.as_slice()).as_str());
    let errors = split_lines(lossy_text(output.stderr.as_slice()).as_str());
    proof {
        lemma_first_in_concat(views(printed@), views(errors@));
    }
    let found = search_lines(&printed);
    if found.is_some() {
        return found;
    }
    search_lines(&errors)
}

/// What a verdict says: the executable and its version, or why it is refused.
pub open spec fn verdict_view(verdict: Result<(HostPath, JustVersion), String>) -> Result<
    (Seq<u8>, Seq<char>),
    Seq<char>,
> {
    match verdict {
        Ok((executable, version)) => Ok((executable@, version@)),
        Err(error) => Err(error@),
    }
}

/// The verdict on an executable that announced a version, or none.
pub open spec fn judgement(
    version: Option<Seq<char>>,
    too_old: bool,
    minimum: Seq<char>,
    resolved: Result<HostPath, String>,
) -> Result<(Seq<u8>, Seq<char>), Seq<char>> {
    match version {
        None => Err("unrecognized output from `just --version`"@),
        Some(text) => if too_old {
            Err("version "@ + text + " is too old; "@ + minimum + " or newer is required"@)
        } else {
            match resolved {
                Err(reason) => Err("cannot resolve executable path: "@ + reason@),
                Ok(path) => Ok((path@, text)),
            }
        },
    }
}

/// The verdict on an executable that was run with `--version`: it is a usable
/// Just if it runs, announces a version that is recent enough, and its path
/// resolves.
pub open spec fn verdict(
    minimum: Seq<char>,
    reply: Result<CommandOutput, String>,
    resolved: Result<HostPath, String>,
) -> Result<(Seq<u8>, Seq<char>), Seq<char>> {
    match reply {
        Err(text) => Err("cannot execute: "@ + text@),
        Ok(output) => if !successful(output) {
            Err(output_failure("`just --version` failed"@, output))
        } else {
            let version = printed_version(output);
            judgement(
                version,
                version is Some && semver_below(version->Some_0, minimum),
                minimum,
                resolved,
            )
        },
    }
}

/// Judges an executable by the version that it announced, if any, and by
/// whether that version is too old.
pub fn judged_executable(
    version: Option<JustVersion>,
    too_old: bool,
    minimum: &JustVersion,
    resolved: &Result<HostPath, String>,
) -> (result: Result<(HostPath, JustVersion), String>)
    ensures
        verdict_view(result) == judgement(
            match version {
                Some(found) => Some(found@),
                None => None,
            },
            too_old,
            minimum@,
            *resolved,
        ),
{
    let version = match version {
        Some(version) => version,
        None => {
            return Err(String::from_str("unrecognized output from `just --version`"));
        },
    };
    if too_old {
        return Err(
            concat5(
                "version ",
                version.text(),
                " is too old; ",
                minimum.text(),
                " or newer is required",
            ),
        );
    }
    match resolved {
        Ok(path) => Ok((path.clone(), version)),
        Err(text) => Err(concat2("cannot resolve executable path: ", text.as_str())),
    }
}

/// Checks what running an executable with `--version` gave. `resolved` is the
/// resolved path of the executable.
pub fn verified_executable(
    minimum: &JustVersion,
    reply: &Result<CommandOutput, String>,
    resolved: &Result<HostPath, String>,
) -> (result: Result<(HostPath, JustVersion), String>)
    ensures
        verdict_view(result) == verdict(minimum@, *reply, *resolved),
{
    let output = match reply {
        Ok(output) => output,
        Err(text) => {
            return Err(concat2("cannot execute: ", text.as_str()));
        },
    };
    if !is_success(output) {
        return Err(format_output_failure("`just --version` failed", output));
    }
    let version = parse_just_version(output);
    let too_old = match &version {
        Some(found) => found.is_below(minimum),
        None => false,
    };
    judged_executable(version, too_old, minimum, resolved)
}

/// No executable is accepted whose version is below the minimum.
pub proof fn accepted_versions_are_recent_enough(
    minimum: Seq<char>,
    reply: Result<CommandOutput, String>,
    resolved: Result<HostPath, String>,
    executable: Seq<u8>,
    version: Seq<char>,
)
    requires
        verdict(minimum, reply, resolved) == Ok::<(Seq<u8>, Seq<char>), Seq<char>>(
            (executable, version),
        ),
    ensures
        !semver_below(version, minimum),
        semver_error(version) is None,
        reply matches Ok(output) && printed_version(output) == Some(version),
{
    let output = reply->Ok_0;
    lemma_announced_is_version(lines(lossy(output.stdout@)) + lines(lossy(output.stderr@)));
}

proof fn lemma_announced_is_version(list: Seq<Seq<char>>)
    ensures
        first_announced(list) matches Some(text) ==> semver_error(text) is None,
    decreases list.len(),
{
    if list.len() > 0 && announced(list[0]) is None {
        lemma_announced_is_version(list.drop_first());
    }
}

/// The words of an engine that an image is not there.
pub open spec fn says_absent(text: Seq<char>) -> bool {
    contains_text(text, "no such image"@) || contains_text(text, "no such object"@)
        || contains_text(text, "image not known"@) || contains_text(text, "image not found"@)
}

/// What an engine said, in small letters.
pub open spec fn engine_words(output: CommandOutput) -> Seq<char> {
    ascii_lowered(lossy(output.stderr@)) + "\n"@ + ascii_lowered(lossy(output.stdout@))
}

/// An image inspection failed because the image is not there: a code of one
/// with a known wording or none at all, or a code of 125 with a known wording.
pub open spec fn image_absent(output: CommandOutput) -> bool {
    let text = engine_words(output);
    ||| output.code == Some(1i32) && (trimmed(text).len() == 0 || says_absent(text))
    ||| output.code == Some(125i32) && says_absent(text)
}

/// Whether an image inspection failed because the image is not there.
pub fn image_is_absent(output: &CommandOutput) -> (absent: bool)
    ensures
        absent == image_absent(*output),
{
    let errors = lower_ascii(lossy_text(output.stderr.as_slice()).as_str());
    let printed = lower_ascii(lossy_text(output.stdout.as_slice()).as_str());
    let text = concat3(errors.as_str(), "\n", printed.as_str());
    let recognized = contains(text.as_str(), "no such image") || contains(
        text.as_str(),
        "no such object",
    ) || contains(text.as_str(), "image not known") || contains(text.as_str(), "image not found");
    match output.code {
        Some(1) => is_blank(text.as_str()) || recognized,
        Some(125) => recognized,
        _ => false,
    }
}

/// The error of an executable on a file system that forbids running it.
pub open spec fn noexec(error: Seq<char>) -> bool {
    contains_text(error, "Permission denied"@) || contains_text(error, "permission denied"@)
}

/// Whether an error is that of a file system that forbids running executables.
pub fn looks_like_noexec(error: &str) -> (yes: bool)
    ensures
        yes == noexec(error@),
{
    contains(error, "Permission denied") || contains(error, "permission denied")
}

/// The first line that is not blank, trimmed.
pub open spec fn first_entry(list: Seq<Seq<char>>) -> Option<Seq<char>>
    decreases list.len(),
{
    if list.len() == 0 {
        None
    } else if trimmed(list[0]).len() > 0 {
        Some(trimmed(list[0]))
    } else {
        first_entry(list.drop_first())
    }
}

/// The container that an engine created: the one it printed, else the name it
/// was given.
pub open spec fn created_container(output: CommandOutput, name: Seq<char>) -> Seq<char> {
    match first_entry(lines(lossy(output.stdout@))) {
        Some(id) => id,
        None => name,
    }
}

/// The container that an engine created.
pub fn container_id(output: &CommandOutput, name: &str) -> (id: String)
    ensures
        id@ == created_container(*output, name@),
{
    let list = split_lines(lossy_text(output.stdout.as_slice()).as_str());
    let ghost all = views(list@);
    proof {
        assert(all.skip(0) =~= all);
    }
    let mut i: usize = 0;
    while i < list.len()
        invariant
            i <= list.len(),
            all == views(list@),
            all == lines(lossy(output.stdout@)),
            first_entry(all) == first_entry(all.skip(i as int)),
        decreases list.len() - i,
    {
        let entry = trim(list[i].as_str());
        proof {
            assert(all.skip(i as int)[0] == list@[i as int]@);
            assert(all.skip(i as int).drop_first() =~= all.skip(i as int + 1));
        }
        if chars_of(entry.as_str()).len() > 0 {
            return entry;
        }
        i += 1;
    }
    String::from_str(name)
}

/// Where extracted executables are cached: below the cache directory of the
/// user, if one is known.
pub open spec fn cache_home(cache: Option<Seq<u8>>, home: Option<Seq<u8>>) -> Option<Seq<u8>> {
    let root = match cache {
        Some(path) => if path.len() > 0 {
            Some(path)
        } else {
            match home {
                Some(user) => Some(path_join(user, encode_utf8(".cache"@))),
                None => None,
            }
        },
        None => match home {
            Some(user) => Some(path_join(user, encode_utf8(".cache"@))),
            None => None,
        },
    };
    match root {
        Some(path) => Some(path_join(path, encode_utf8("pipeline"@))),
        None => None,
    }
}

pub open spec fn variable_view(value: Option<&NativeText>) -> Option<Seq<u8>> {
    match value {
        Some(text) => Some(text@),
        None => None,
    }
}

/// Where extracted executables are cached, from `XDG_CACHE_HOME` and `HOME`.
pub fn default_cache_root(cache: Option<&NativeText>, home: Option<&NativeText>) -> (root: Option<
    HostPath,
>)
    ensures
        match cache_home(variable_view(cache), variable_view(home)) {
            Some(path) => root matches Some(found) && found@ == path,
            None => root is None,
        },
{
    if let Some(path) = cache {
        if path.bytes.len() > 0 {
            let base = HostPath { bytes: path.clone().bytes };
            return Some(base.join("pipeline"));
        }
    }
    match home {
        Some(user) => {
            let base = HostPath { bytes: user.clone().bytes };
            Some(base.join(".cache").join("pipeline"))
        },
        None => None,
    }
}

} // verus!
