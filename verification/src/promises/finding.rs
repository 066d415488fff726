//! Which Just is used, and how it is found.

use crate::just_runtime::command::{
    container_id, default_cache_root, format_output_failure, image_is_absent, is_success,
    parse_just_version, should_retry, verified_executable, CommandOutput,
};

use crate::just_runtime::resolve::container_name;
use crate::just_runtime::version::{semver_error, JustVersion};
use crate::native::{
    join_adds_one_component, native_text_round_trip, path_names, rooted, HostPath, NativeText,
};
use crate::promises::pushing::{field, lemma_blank, lemma_word};
use crate::promises::searching::lemma_plain;
use crate::text::{
    ascii_lowered, contains_text, decimal, lemma_first_position_is, lines, trim_end, trim_start,
    trimmed, white_space, without_leading, words,
};
use vstd::prelude::*;
use vstd::utf8::encode_utf8;

verus! {

/// What a stream of a command holds is this text.
pub open spec fn spells(stream: Seq<u8>, text: Seq<char>) -> bool {
    stream == encode_utf8(text)
}

proof fn lemma_spelled(stream: Seq<u8>, text: Seq<char>)
    requires
        spells(stream, text),
    ensures
        crate::native::lossy(stream) == text,
{
    native_text_round_trip(text);
}

/// A line that ends with a newline, and nothing after it.
proof fn lemma_one_line(text: Seq<char>)
    requires
        forall|i: int| 0 <= i < text.len() ==> (#[trigger] text[i]) != '\n' && text[i] != '\r',
    ensures
        lines(text.push('\n')) == seq![text],
{
    let whole = text.push('\n');
    assert forall|i: int| 0 <= i < text.len() implies whole[i] != '\n' by {
        assert(whole[i] == text[i]);
    }
    lemma_first_position_is(whole, '\n', text.len() as int);
    assert(whole.take(text.len() as int) =~= text);
    assert(whole.skip(text.len() as int + 1) =~= Seq::<char>::empty());
    assert(lines(Seq::<char>::empty()) =~= Seq::<Seq<char>>::empty());
    if text.len() > 0 {
        assert(text[text.len() - 1] != '\r');
    }
    assert(lines(whole) =~= seq![text]);
}

proof fn lemma_field_has_no_newline(text: Seq<char>)
    requires
        field(text),
    ensures
        forall|i: int| 0 <= i < text.len() ==> (#[trigger] text[i]) != '\n' && text[i] != '\r',
{
    assert forall|i: int| 0 <= i < text.len() implies (#[trigger] text[i]) != '\n' && text[i]
        != '\r' by {
        assert(!white_space(text[i]));
    }
}

/// A text without white space around it.
pub open spec fn bare(text: Seq<char>) -> bool {
    text.len() > 0 && !white_space(text[0]) && !white_space(text.last())
}

pub proof fn lemma_bare(text: Seq<char>)
    requires
        bare(text),
    ensures
        trimmed(text) == text,
{
    assert(trim_start(text) == text);
    assert(trim_end(text) == text);
}

/// What `just --version` prints: `just`, a blank and the version.
pub open spec fn version_line(version: Seq<char>) -> Seq<char> {
    ("just "@ + version).push('\n')
}

proof fn lemma_version_line(version: Seq<char>)
    requires
        field(version),
    ensures
        lines(version_line(version)) == seq!["just "@ + version],
        words("just "@ + version) == seq!["just"@, version],
        ascii_lowered("just"@) == "just"@,
{
    reveal_strlit("just ");
    reveal_strlit("just");
    let line = "just "@ + version;
    lemma_field_has_no_newline(version);
    assert forall|i: int| 0 <= i < line.len() implies (#[trigger] line[i]) != '\n' && line[i]
        != '\r' by {
        if i >= 5 {
            assert(line[i] == version[i - 5]);
        }
    }
    lemma_one_line(line);
    let none: Seq<char> = seq![];
    assert(version + none =~= version);
    lemma_word(version, none);
    assert(words(none) =~= Seq::<Seq<char>>::empty());
    lemma_blank(version);
    let rest = seq![' '] + version;
    assert(line =~= "just"@ + rest);
    assert(field("just"@)) by {
        assert forall|i: int| 0 <= i < 4 implies !white_space(#[trigger] "just"@[i]) by {
        }
    }
    lemma_word("just"@, rest);
    assert(words(line) =~= seq!["just"@, version]);
    assert(ascii_lowered("just"@) =~= "just"@);
}

/// A version is read from the line that Just prints.
pub proof fn versions_are_read_from_their_line(
    output: &CommandOutput,
    version: Seq<char>,
    found: Option<JustVersion>,
)
    requires
        field(version),
        version[0] != 'v',
        semver_error(version) is None,
        spells(output.stdout@, version_line(version)),
        call_ensures(parse_just_version, (output,), found),
    ensures
        found matches Some(just) && just@ == version,
{
    lemma_version_line(version);
    lemma_spelled(output.stdout@, version_line(version));
    let line = "just "@ + version;
    assert(without_leading(version, 'v') == version);
    assert(crate::just_runtime::command::announced(line) == Some(version));
    let list = lines(version_line(version)) + lines(crate::native::lossy(output.stderr@));
    assert(list[0] == line);
}

/// A Just is used exactly if it runs, is not older than the minimum, and its
/// path resolves; it is used by the path that it resolves to.
pub proof fn recent_executables_are_accepted(
    minimum: &JustVersion,
    output: CommandOutput,
    resolved: &Result<HostPath, String>,
    version: &JustVersion,
    below: bool,
    result: Result<(HostPath, JustVersion), String>,
)
    requires
        field(version@),
        version@[0] != 'v',
        semver_error(version@) is None,
        spells(output.stdout@, version_line(version@)),
        call_ensures(JustVersion::is_below, (version, minimum), below),
        call_ensures(
            verified_executable,
            (minimum, &Ok::<CommandOutput, String>(output), resolved),
            result,
        ),
    ensures
        result is Ok <==> output.code == Some(0i32) && !below && *resolved is Ok,
        result matches Ok((path, found)) ==> path@ == resolved->Ok_0@ && found@ == version@,
{
    lemma_version_line(version@);
    lemma_spelled(output.stdout@, version_line(version@));
    let line = "just "@ + version@;
    assert(without_leading(version@, 'v') == version@);
    assert(crate::just_runtime::command::announced(line) == Some(version@));
    let list = lines(version_line(version@)) + lines(crate::native::lossy(output.stderr@));
    assert(list[0] == line);
    assert(crate::just_runtime::command::printed_version(output) == Some(version@));
    let view = crate::just_runtime::command::verdict_view(result);
    if let Ok((path, found)) = result {
        assert(view == Ok::<(Seq<u8>, Seq<char>), Seq<char>>((path@, found@)));
    }
}

/// What cannot be run is no Just, and neither is what prints nothing.
pub proof fn other_executables_are_refused(
    minimum: &JustVersion,
    reply: &Result<CommandOutput, String>,
    resolved: &Result<HostPath, String>,
    result: Result<(HostPath, JustVersion), String>,
)
    requires
        call_ensures(verified_executable, (minimum, reply, resolved), result),
    ensures
        *reply is Err ==> (result matches Err(error) && error@ == "cannot execute: "@
            + reply->Err_0@),
        *reply is Ok && reply->Ok_0.code != Some(0i32) ==> result is Err,
        (*reply matches Ok(output) && output.stdout@.len() == 0 && output.stderr@.len() == 0)
            ==> result is Err,
        *resolved is Err ==> result is Err,
{
    if let Ok(output) = *reply {
        if output.stdout@.len() == 0 && output.stderr@.len() == 0 {
            let none: Seq<char> = seq![];
            assert(encode_utf8(none) =~= output.stdout@);
            assert(encode_utf8(none) =~= output.stderr@);
            lemma_spelled(output.stdout@, none);
            lemma_spelled(output.stderr@, none);
            assert(lines(none) + lines(none) =~= Seq::<Seq<char>>::empty());
        }
    }
}

/// A file that another process still writes is tried again, three times at most.
pub proof fn busy_files_are_tried_again(attempt: u32, error: Option<i32>, again: bool)
    requires
        call_ensures(should_retry, (attempt, error), again),
    ensures
        again ==> attempt <= 2 && error is Some,
        error is None ==> !again,
        error matches Some(code) ==> again == (code == 26 && (attempt == 0 || attempt == 1
            || attempt == 2)),
{
}

/// A command succeeded if it ended with a code of zero, and not by a signal.
pub proof fn success_is_a_zero_code(output: &CommandOutput, success: bool)
    requires
        call_ensures(is_success, (output,), success),
    ensures
        success <==> (output.code matches Some(code) && code == 0),
{
}

/// A command is reported with what it was for, how it ended and what it said:
/// its errors, or if there are none what it printed.
pub proof fn failures_are_reported(
    context: &str,
    output: &CommandOutput,
    errors: Seq<char>,
    printed: Seq<char>,
    text: String,
)
    requires
        errors.len() == 0 || bare(errors),
        printed.len() == 0 || bare(printed),
        spells(output.stderr@, errors),
        spells(output.stdout@, printed),
        call_ensures(format_output_failure, (context, output), text),
    ensures
        text@ == context@ + " ("@ + output.status@ + "): "@ + (if errors.len() > 0 {
            errors
        } else if printed.len() > 0 {
            printed
        } else {
            "no diagnostic output"@
        }),
{
    lemma_spelled(output.stderr@, errors);
    lemma_spelled(output.stdout@, printed);
    if errors.len() > 0 {
        lemma_bare(errors);
    }
    if printed.len() > 0 {
        lemma_bare(printed);
    }
}

/// A text that an engine says of an image that it does not have.
pub open spec fn words_of_absence(phrase: Seq<char>) -> bool {
    phrase == "no such image"@ || phrase == "no such object"@ || phrase == "image not known"@
        || phrase == "image not found"@
}

/// An image is absent where an engine says so, whatever the case of its letters,
/// or fails with one and says nothing. What succeeds, or was ended by a signal,
/// is no such failure.
pub proof fn absent_images_are_recognised(
    output: &CommandOutput,
    before: Seq<char>,
    phrase: Seq<char>,
    after: Seq<char>,
    absent: bool,
)
    requires
        call_ensures(image_is_absent, (output,), absent),
    ensures
        absent ==> output.code == Some(1i32) || output.code == Some(125i32),
        words_of_absence(phrase) && (output.code == Some(1i32) || output.code == Some(125i32)) && (
        exists|said: Seq<char>|
            spells(output.stderr@, said) && ascii_lowered(said) == before + phrase + after)
            ==> absent,
        words_of_absence(phrase) && (output.code == Some(1i32) || output.code == Some(125i32)) && (
        exists|said: Seq<char>|
            spells(output.stdout@, said) && ascii_lowered(said) == before + phrase + after)
            ==> absent,
        output.stdout@.len() == 0 && output.stderr@.len() == 0 ==> absent == (output.code == Some(
            1i32,
        )),
{
    let text = crate::just_runtime::command::engine_words(*output);
    if exists|said: Seq<char>|
        spells(output.stderr@, said) && ascii_lowered(said) == before + phrase + after {
        let said = choose|said: Seq<char>|
            spells(output.stderr@, said) && ascii_lowered(said) == before + phrase + after;
        lemma_spelled(output.stderr@, said);
        let at = before.len() as int;
        assert(text.subrange(at, at + phrase.len()) =~= phrase);
        assert(crate::text::occurs_at(text, phrase, at));
        assert(contains_text(text, phrase));
    }
    if exists|said: Seq<char>|
        spells(output.stdout@, said) && ascii_lowered(said) == before + phrase + after {
        let said = choose|said: Seq<char>|
            spells(output.stdout@, said) && ascii_lowered(said) == before + phrase + after;
        lemma_spelled(output.stdout@, said);
        let head = ascii_lowered(crate::native::lossy(output.stderr@)) + "\n"@;
        let at = (head.len() + before.len()) as int;
        assert(text.subrange(at, at + phrase.len()) =~= phrase);
        assert(crate::text::occurs_at(text, phrase, at));
        assert(contains_text(text, phrase));
    }
    if output.stdout@.len() == 0 && output.stderr@.len() == 0 {
        let none: Seq<char> = seq![];
        assert(encode_utf8(none) =~= output.stdout@);
        assert(encode_utf8(none) =~= output.stderr@);
        lemma_spelled(output.stdout@, none);
        lemma_spelled(output.stderr@, none);
        reveal_strlit("\n");
        assert(ascii_lowered(none) =~= none);
        assert(text =~= seq!['\n']);
        assert(text.drop_first() =~= none);
        assert(white_space(text[0]));
        assert(trim_start(none) == none);
        assert(trim_start(text) == trim_start(text.drop_first()));
        assert(trimmed(text) =~= none);
        assert(!crate::just_runtime::command::says_absent(text)) by {
            reveal_strlit("no such image");
            reveal_strlit("no such object");
            reveal_strlit("image not known");
            reveal_strlit("image not found");
        }
    }
}

/// A container is known by what the engine printed, or by the name it was given
/// if it printed nothing.
pub proof fn containers_are_known_by_what_is_printed(
    output: &CommandOutput,
    name: &str,
    printed: Seq<char>,
    id: String,
)
    requires
        call_ensures(container_id, (output, name), id),
    ensures
        output.stdout@.len() == 0 ==> id@ == name@,
        field(printed) && spells(output.stdout@, printed.push('\n')) ==> id@ == printed,
{
    if output.stdout@.len() == 0 {
        let none: Seq<char> = seq![];
        assert(encode_utf8(none) =~= output.stdout@);
        lemma_spelled(output.stdout@, none);
        assert(lines(none) =~= Seq::<Seq<char>>::empty());
    }
    if field(printed) && spells(output.stdout@, printed.push('\n')) {
        lemma_spelled(output.stdout@, printed.push('\n'));
        lemma_field_has_no_newline(printed);
        lemma_one_line(printed);
        assert(!white_space(printed[0]));
        assert(!white_space(printed[printed.len() - 1]));
        lemma_bare(printed);
        assert(lines(printed.push('\n'))[0] == printed);
    }
}

/// Executables are cached in `pipeline` below the cache directory of the user,
/// which is `.cache` of the home directory unless another is set.
pub proof fn the_cache_is_below_the_users_own(
    cache: Option<&NativeText>,
    home: Option<&NativeText>,
    root: Option<HostPath>,
)
    requires
        call_ensures(default_cache_root, (cache, home), root),
        cache matches Some(path) ==> path@.len() == 0 || rooted(path@),
        home matches Some(path) ==> rooted(path@),
    ensures
        root is Some <==> (cache matches Some(path) && path@.len() > 0) || home is Some,
        (cache matches Some(path) && path@.len() > 0) ==> (root matches Some(found) && path_names(
            found@,
        ) == path_names(cache->Some_0@).push(encode_utf8("pipeline"@))),
        !(cache matches Some(path) && path@.len() > 0) && home is Some ==> (root matches Some(found)
            && path_names(found@) == path_names(home->Some_0@).push(encode_utf8(".cache"@)).push(
            encode_utf8("pipeline"@),
        )),
{
    reveal_strlit("pipeline");
    reveal_strlit(".cache");
    lemma_plain("pipeline"@);
    lemma_plain(".cache"@);
    if let Some(path) = cache {
        if path@.len() > 0 {
            join_adds_one_component(path@, encode_utf8("pipeline"@));
        }
    }
    if let Some(path) = home {
        join_adds_one_component(path@, encode_utf8(".cache"@));
        join_adds_one_component(
            crate::native::path_join(path@, encode_utf8(".cache"@)),
            encode_utf8("pipeline"@),
        );
    }
}

/// Containers of two processes, or two containers of one, have different names.
pub proof fn containers_have_names_of_their_own(
    process: u32,
    sequence: u64,
    name: String,
    other_process: u32,
    other_sequence: u64,
    other: String,
)
    requires
        call_ensures(container_name, (process, sequence), name),
        call_ensures(container_name, (other_process, other_sequence), other),
    ensures
        name@ == other@ <==> process == other_process && sequence == other_sequence,
{
    if name@ == other@ {
        let head = "pipeline-just-"@;
        let a = decimal(process as nat);
        let b = decimal(sequence as nat);
        let c = decimal(other_process as nat);
        let d = decimal(other_sequence as nat);
        reveal_strlit("-");
        crate::text::decimal_has_digits(process as nat);
        crate::text::decimal_has_digits(other_process as nat);
        let n = head.len() as int;
        assert(name@.skip(n) =~= a + "-"@ + b);
        assert(other@.skip(n) =~= c + "-"@ + d);
        let rest = name@.skip(n);
        if a.len() < c.len() {
            assert(rest[a.len() as int] == '-');
            assert(rest[a.len() as int] == c[a.len() as int]);
        }
        if c.len() < a.len() {
            assert(rest[c.len() as int] == '-');
            assert(rest[c.len() as int] == a[c.len() as int]);
        }
        assert(a =~= rest.take(a.len() as int));
        assert(c =~= rest.take(c.len() as int));
        assert(b =~= rest.skip(a.len() as int + 1));
        assert(d =~= rest.skip(c.len() as int + 1));
        crate::text::decimal_is_injective(process as nat, other_process as nat);
        crate::text::decimal_is_injective(sequence as nat, other_sequence as nat);
    }
}

} // verus!
