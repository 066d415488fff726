//! How `proc-receive` is answered as if there were no hook.

use crate::error::PipelineError;
use crate::protocol::{
    every_command_falls_through, proc_receive_fallthrough_io, FallThrough, PacketHead,
};
use vstd::prelude::*;
use vstd::utf8::encode_utf8;

verus! {

/// A digit of sixteen, as it is written.
pub open spec fn digit(n: int) -> u8 {
    "0123456789abcdef"@[n] as u8
}

/// What Git writes for a payload: its length with that of the header, in four
/// digits, and the payload.
pub open spec fn line(payload: Seq<u8>) -> Seq<u8> {
    let n = payload.len() + 4;
    seq![
        digit(n as int / 4096 % 16),
        digit(n as int / 256 % 16),
        digit(n as int / 16 % 16),
        digit(n as int % 16),
    ] + payload
}

/// What Git writes to end a list.
pub open spec fn flush() -> Seq<u8> {
    encode_utf8("0000"@)
}

/// A list of payloads, one after the other.
pub open spec fn all_lines(list: Seq<Seq<u8>>) -> Seq<u8>
    decreases list.len(),
{
    if list.len() == 0 {
        seq![]
    } else {
        line(list[0]) + all_lines(list.drop_first())
    }
}

/// A payload that a line can carry.
pub open spec fn short(payload: Seq<u8>) -> bool {
    payload.len() <= 65531
}

/// The greeting of Git, with the features that it offers.
pub open spec fn offer(features: Seq<u8>) -> Seq<u8> {
    encode_utf8("version=1"@) + seq![0u8] + features + seq![10u8]
}

pub open spec fn blank(b: u8) -> bool {
    b == 32 || b == 9 || b == 10 || b == 12 || b == 13
}

/// A word stands among the features at a place.
pub open spec fn stands_at(features: Seq<u8>, word: Seq<u8>, i: int) -> bool {
    &&& 0 <= i <= i + word.len() <= features.len()
    &&& features.subrange(i, i + word.len()) == word
    &&& i == 0 || blank(features[i - 1])
    &&& i + word.len() == features.len() || blank(features[i + word.len()])
}

pub open spec fn offers(features: Seq<u8>, word: Seq<u8>) -> bool {
    exists|i: int| #[trigger] stands_at(features, word, i)
}

/// A command of Git: what a reference holds, what it is to hold, and its name.
pub struct Command {
    pub before: Seq<u8>,
    pub after: Seq<u8>,
    pub reference: Seq<u8>,
}

pub open spec fn spelled(command: Command) -> Seq<u8> {
    command.before + seq![32u8] + command.after + seq![32u8] + command.reference + seq![10u8]
}

pub open spec fn proper(command: Command) -> bool {
    &&& command.before.len() > 0
    &&& !command.before.contains(32u8)
    &&& !command.after.contains(32u8)
    &&& command.reference.len() > 0
    &&& short(spelled(command))
}

pub open spec fn all_spelled(commands: Seq<Command>) -> Seq<Seq<u8>> {
    Seq::new(commands.len(), |i: int| spelled(commands[i]))
}

/// Every reference is accepted, and left to Git.
pub open spec fn accepted(commands: Seq<Command>) -> Seq<u8>
    decreases commands.len(),
{
    if commands.len() == 0 {
        seq![]
    } else {
        accepted(commands.drop_last()) + line(
            encode_utf8("ok "@) + commands.last().reference + seq![10u8],
        ) + line(encode_utf8("option fall-through\n"@))
    }
}

/// How much all payloads hold.
pub open spec fn size(list: Seq<Seq<u8>>) -> int
    decreases list.len(),
{
    if list.len() == 0 {
        0
    } else {
        list[0].len() + size(list.drop_first())
    }
}

proof fn lemma_ascii(text: Seq<char>, bytes: Seq<u8>)
    requires
        text.len() == bytes.len(),
        forall|i: int| 0 <= i < text.len() ==> '\0' <= #[trigger] text[i] <= '\u{7f}',
        forall|i: int| 0 <= i < text.len() ==> #[trigger] text[i] as u8 == bytes[i],
    ensures
        encode_utf8(text) == bytes,
{
    vstd::utf8::is_ascii_chars_encode_utf8(text);
    assert forall|i: int| 0 <= i < bytes.len() implies encode_utf8(text)[i] == bytes[i] by {
        assert(text[i] as u8 == encode_utf8(text)[i]);
    }
    assert(encode_utf8(text) =~= bytes);
}

proof fn lemma_words()
    ensures
        encode_utf8("atomic"@) == crate::protocol::atomic_word(),
        encode_utf8("ok "@) == crate::protocol::ok_word(),
        encode_utf8("0000"@) == crate::protocol::flush_packet(),
        encode_utf8("option fall-through\n"@) == crate::protocol::fall_through_option(),
        encode_utf8("version=1"@) + seq![0u8] == crate::protocol::version_offer(),
{
    reveal_strlit("atomic");
    reveal_strlit("ok ");
    reveal_strlit("0000");
    reveal_strlit("option fall-through\n");
    reveal_strlit("version=1");
    lemma_ascii("atomic"@, crate::protocol::atomic_word());
    lemma_ascii("ok "@, crate::protocol::ok_word());
    lemma_ascii("0000"@, crate::protocol::flush_packet());
    lemma_ascii("option fall-through\n"@, crate::protocol::fall_through_option());
    let version = seq![118u8, 101, 114, 115, 105, 111, 110, 61, 49];
    lemma_ascii("version=1"@, version);
    assert(version + seq![0u8] =~= crate::protocol::version_offer());
}

proof fn lemma_line(payload: Seq<u8>)
    requires
        short(payload),
    ensures
        line(payload) == crate::protocol::packet(payload),
        crate::protocol::fits_packet(payload),
{
    reveal_strlit("0123456789abcdef");
    let n = payload.len() as int + 4;
    lemma_digit(n / 4096 % 16);
    lemma_digit(n / 256 % 16);
    lemma_digit(n / 16 % 16);
    lemma_digit(n % 16);
    assert(line(payload) =~= crate::protocol::packet(payload));
}

proof fn lemma_digit(n: int)
    requires
        0 <= n < 16,
    ensures
        digit(n) == crate::protocol::hex_char(n),
{
    reveal_strlit("0123456789abcdef");
}

proof fn lemma_all_lines(list: Seq<Seq<u8>>)
    requires
        forall|i: int| 0 <= i < list.len() ==> short(#[trigger] list[i]),
    ensures
        all_lines(list) == crate::protocol::packets(list),
        size(list) == crate::protocol::payload_total(list),
    decreases list.len(),
{
    if list.len() > 0 {
        let rest = list.drop_first();
        assert forall|i: int| 0 <= i < rest.len() implies short(#[trigger] rest[i]) by {
            assert(rest[i] == list[i + 1]);
        }
        lemma_all_lines(rest);
        lemma_line(list[0]);
    }
}

proof fn lemma_reference(command: Command)
    requires
        proper(command),
    ensures
        crate::protocol::reference_of(spelled(command)) == Some(command.reference),
{
    let data = spelled(command);
    let text = command.before + seq![32u8] + command.after + seq![32u8] + command.reference;
    assert(data.last() == 10u8);
    assert(data.drop_last() =~= text);
    let n = command.before.len() as int;
    assert forall|i: int| 0 <= i < n implies text[i] != 32u8 by {
        assert(command.before.contains(command.before[i]));
    }
    crate::text::lemma_first_position_is(text, 32u8, n);
    let rest = command.after + seq![32u8] + command.reference;
    assert(text.skip(n + 1) =~= rest);
    let k = command.after.len() as int;
    assert forall|i: int| 0 <= i < k implies rest[i] != 32u8 by {
        assert(command.after.contains(command.after[i]));
    }
    crate::text::lemma_first_position_is(rest, 32u8, k);
    assert(rest.skip(k + 1) =~= command.reference);
}

proof fn lemma_accepted(commands: Seq<Command>)
    requires
        forall|i: int| 0 <= i < commands.len() ==> proper(#[trigger] commands[i]),
    ensures
        accepted(commands) == crate::protocol::answers(
            crate::protocol::references_of(all_spelled(commands)),
        ),
    decreases commands.len(),
{
    let references = crate::protocol::references_of(all_spelled(commands));
    if commands.len() > 0 {
        let front = commands.drop_last();
        assert forall|i: int| 0 <= i < front.len() implies proper(#[trigger] front[i]) by {
            assert(front[i] == commands[i]);
        }
        lemma_accepted(front);
        assert(references.drop_last() =~= crate::protocol::references_of(all_spelled(front)));
        let last = commands.last();
        assert(proper(commands[commands.len() - 1]));
        lemma_reference(last);
        lemma_words();
        reveal_strlit("option fall-through\n");
        lemma_line(encode_utf8("ok "@) + last.reference + seq![10u8]);
        lemma_line(encode_utf8("option fall-through\n"@));
        assert(references.last() == last.reference);
    }
}

proof fn lemma_offers(features: Seq<u8>)
    requires
        !features.contains(0u8),
    ensures
        crate::protocol::offers_atomic(offer(features)) <==> offers(
            features,
            encode_utf8("atomic"@),
        ),
{
    lemma_words();
    reveal_strlit("version=1");
    let head = encode_utf8("version=1"@);
    let version = seq![118u8, 101, 114, 115, 105, 111, 110, 61, 49];
    lemma_ascii("version=1"@, version);
    let rest = features + seq![10u8];
    assert(offer(features) =~= head.push(0u8) + rest);
    crate::native::lemma_pieces_join(head, 0u8, rest);
    assert(!head.contains(0u8));
    crate::native::lemma_single_piece(head, 0u8);
    assert(!rest.contains(0u8)) by {
        if rest.contains(0u8) {
            let i = choose|i: int| 0 <= i < rest.len() && rest[i] == 0u8;
            assert(features[i] == 0u8);
        }
    }
    crate::native::lemma_single_piece(rest, 0u8);
    let word = encode_utf8("atomic"@);
    assert(crate::text::pieces(offer(features), 0u8)[1] == rest);
    if offers(features, word) {
        let i = choose|i: int| #[trigger] stands_at(features, word, i);
        assert(rest.subrange(i, i + 6) =~= features.subrange(i, i + 6));
        assert(crate::protocol::word_at(rest, i));
    }
    if exists|i: int| #[trigger] crate::protocol::word_at(rest, i) {
        let i = choose|i: int| #[trigger] crate::protocol::word_at(rest, i);
        if i + 6 == rest.len() {
            assert(rest.subrange(i, i + 6)[5] == 10u8);
        }
        assert(rest.subrange(i, i + 6) =~= features.subrange(i, i + 6));
        assert(stands_at(features, word, i));
    }
}

/// Every command is accepted and left to Git, in the order in which it came. The
/// greeting takes up an offer of atomic pushes, and no other.
pub proof fn commands_are_left_to_git(
    features: Seq<u8>,
    commands: Seq<Command>,
    tail: Seq<u8>,
    input: &[u8],
    result: (Vec<u8>, Result<(), PipelineError>),
)
    requires
        !features.contains(0u8),
        short(offer(features)),
        forall|i: int| 0 <= i < commands.len() ==> proper(#[trigger] commands[i]),
        offer(features).len() + size(all_spelled(commands)) <= 16777216,
        input@ == line(offer(features)) + flush() + all_lines(all_spelled(commands)) + flush()
            + tail,
        call_ensures(proc_receive_fallthrough_io, (input,), result),
    ensures
        result.1 is Ok,
        result.0@ == line(
            encode_utf8("version=1"@) + seq![0u8] + (if offers(features, encode_utf8("atomic"@)) {
                encode_utf8("atomic"@)
            } else {
                seq![]
            }) + seq![10u8],
        ) + flush() + accepted(commands) + flush(),
{
    lemma_words();
    let greetings = seq![offer(features)];
    let texts = all_spelled(commands);
    assert forall|i: int| 0 <= i < texts.len() implies short(#[trigger] texts[i])
        && crate::protocol::reference_of(texts[i]) is Some by {
        assert(proper(commands[i]));
        lemma_reference(commands[i]);
    }
    lemma_all_lines(texts);
    lemma_line(offer(features));
    assert(greetings.drop_first() =~= Seq::<Seq<u8>>::empty());
    assert(crate::protocol::packets(greetings.drop_first()) =~= Seq::<u8>::empty());
    assert(crate::protocol::packets(greetings) =~= crate::protocol::packet(offer(features)));
    assert(crate::protocol::payload_total(greetings.drop_first()) == 0);
    assert(crate::protocol::payload_total(greetings) == offer(features).len());
    assert forall|i: int| 0 <= i < texts.len() implies crate::protocol::fits_packet(
        #[trigger] texts[i],
    ) && crate::protocol::reference_of(texts[i]) is Some by {
        lemma_line(texts[i]);
    }
    let references = crate::protocol::references_of(texts);
    assert forall|i: int| 0 <= i < texts.len() implies crate::protocol::fits_packet(
        crate::protocol::ok_line(#[trigger] references[i]),
    ) by {
        lemma_reference(commands[i]);
        assert(proper(commands[i]));
        assert(references[i] == commands[i].reference);
    }
    every_command_falls_through(greetings, texts, tail);
    lemma_accepted(commands);
    lemma_offers(features);
    let atomic = crate::protocol::any_atomic(greetings);
    assert(atomic <==> offers(features, encode_utf8("atomic"@))) by {
        assert(greetings[0] == offer(features));
        if atomic {
            let i = choose|i: int|
                0 <= i < greetings.len() && crate::protocol::offers_atomic(#[trigger] greetings[i]);
            assert(greetings[i] == offer(features));
        }
    }
    let reply = encode_utf8("version=1"@) + seq![0u8] + (if atomic {
        encode_utf8("atomic"@)
    } else {
        seq![]
    }) + seq![10u8];
    assert(reply =~= crate::protocol::greeting(atomic));
    lemma_line(reply);
    assert(input@ =~= crate::protocol::packets(greetings) + crate::protocol::flush_packet()
        + crate::protocol::packets(texts) + crate::protocol::flush_packet() + tail);
}

/// Input that ends within a header, or has one that is no number, is refused
/// without an answer.
pub proof fn broken_input_is_refused(
    input: &[u8],
    result: (Vec<u8>, Result<(), PipelineError>),
    i: int,
)
    requires
        call_ensures(proc_receive_fallthrough_io, (input,), result),
        input@.len() < 4 || (0 <= i < 4 && no_digit(input@[i]) && !(i == 0 && input@[0] == 43)),
    ensures
        result.1 is Err,
        result.0@.len() == 0,
{
    if input@.len() >= 4 {
        let header = input@.take(4);
        assert(header[i] == input@[i]);
        reveal_with_fuel(crate::protocol::hex_number, 5);
        let h = if header[0] == 43 {
            header.skip(1)
        } else {
            header
        };
        let at = if header[0] == 43 {
            i - 1
        } else {
            i
        };
        assert(h[at] == header[i]);
        lemma_no_number(h, at);
    }
}

/// A byte is none of the sixteen digits, small or large.
pub open spec fn no_digit(b: u8) -> bool {
    !(48 <= b <= 57) && !(97 <= b <= 102) && !(65 <= b <= 70)
}

proof fn lemma_no_number(digits: Seq<u8>, i: int)
    requires
        0 <= i < digits.len(),
        no_digit(digits[i]),
    ensures
        crate::protocol::hex_number(digits) is None,
    decreases digits.len(),
{
    if i < digits.len() - 1 {
        lemma_no_number(digits.drop_last(), i);
    }
}

/// A header says how long the payload behind it is, or that a list ends.
pub proof fn headers_tell_the_length(
    talk: &FallThrough,
    payload: Seq<u8>,
    header: &[u8],
    result: Result<PacketHead, PipelineError>,
)
    requires
        call_ensures(FallThrough::head, (talk, header), result),
        header@.len() == 4,
        short(payload),
        talk@.total >= 0,
    ensures
        header@ == flush() ==> (result matches Ok(PacketHead::Flush)),
        header@ == line(payload).take(4) && talk@.total + payload.len() <= 16777216 ==> (
        result matches Ok(PacketHead::Data(n)) && n == payload.len()),
        header@ == line(payload).take(4) && talk@.total + payload.len() > 16777216 ==> result
            is Err,
{
    lemma_words();
    crate::protocol::headers_read_back(0);
    assert(crate::protocol::hex_header(0) =~= crate::protocol::flush_packet());
    lemma_line(payload);
    crate::protocol::headers_read_back(payload.len() as int + 4);
    assert(line(payload).take(4) =~= crate::protocol::hex_header(payload.len() as int + 4));
}

/// Before the greeting is answered features are heard, and after it commands. What
/// is no command is refused.
pub proof fn commands_are_heard_after_the_greeting(
    talk: FallThrough,
    command: Command,
    data: &[u8],
    result: Result<FallThrough, PipelineError>,
)
    requires
        proper(command),
        call_ensures(FallThrough::hear, (talk, data), result),
    ensures
        talk@.greeted && data@ == spelled(command) ==> (result matches Ok(next)
            && next@.references == talk@.references.push(command.reference) && next@.total
            == talk@.total + data@.len() && next@.greeted && next@.atomic == talk@.atomic),
        talk@.greeted && !data@.contains(32u8) ==> result is Err,
        !talk@.greeted ==> (result matches Ok(next) && next@.references == talk@.references
            && !next@.greeted && (talk@.atomic ==> next@.atomic)),
{
    if data@ == spelled(command) {
        lemma_reference(command);
    }
    if !data@.contains(32u8) {
        let text = crate::protocol::command_line(data@);
        assert forall|i: int| 0 <= i < text.len() implies text[i] != 32u8 by {
            assert(data@[i] == text[i]);
            assert(data@.contains(data@[i]));
        }
        crate::text::lemma_first_position_is(text, 32u8, text.len() as int);
    }
}

/// A conversation starts in silence, is greeted at the first end of a list, and is
/// finished at the second.
pub proof fn conversations_have_two_lists(
    talk: FallThrough,
    first: (FallThrough, Vec<u8>, Result<(), PipelineError>),
    second: (FallThrough, Vec<u8>, Result<(), PipelineError>),
    after_first: bool,
    after_second: bool,
)
    requires
        call_ensures(FallThrough::new, (), talk),
        call_ensures(FallThrough::end, (talk,), first),
        call_ensures(FallThrough::end, (first.0,), second),
        call_ensures(FallThrough::is_finished, (&first.0,), after_first),
        call_ensures(FallThrough::is_finished, (&second.0,), after_second),
    ensures
        talk@.total == 0 && !talk@.greeted && !talk@.atomic && talk@.references.len() == 0,
        first.2 is Ok,
        first.1@ == line(encode_utf8("version=1"@) + seq![0u8, 10u8]) + flush(),
        !after_first,
        second.2 is Ok,
        second.1@ == flush(),
        after_second,
{
    lemma_words();
    reveal_strlit("version=1");
    let version = seq![118u8, 101, 114, 115, 105, 111, 110, 61, 49];
    lemma_ascii("version=1"@, version);
    let reply = encode_utf8("version=1"@) + seq![0u8, 10u8];
    lemma_line(reply);
    assert(reply =~= crate::protocol::greeting(false));
    assert(second.1@ =~= flush());
}

} // verus!
