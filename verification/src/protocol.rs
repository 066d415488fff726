//! The `proc-receive` protocol, answered as if there were no such hook.

use crate::error::{says, PipelineError};
use crate::native::append_bytes;
use crate::text::{byte_views, first_position, lemma_first_position_is, pieces, split_bytes};
use vstd::prelude::*;
use vstd::slice::{slice_subrange, slice_to_vec};

verus! {

/// The number of bytes that are read from Git at most.
pub const MAX_REF_INPUT: u64 = 16777216;

pub const SPACE: u8 = 32;

pub const ZERO: u8 = 0;

pub const PLUS: u8 = 43;

pub const LINE_END: u8 = 10;

/// `option fall-through`, with its line end.
pub open spec fn fall_through_option() -> Seq<u8> {
    seq![
        111u8, 112, 116, 105, 111, 110, 32, 102, 97, 108, 108, 45, 116, 104, 114, 111, 117, 103,
        104, 10,
    ]
}

/// `version=1` and the zero byte behind it.
pub open spec fn version_offer() -> Seq<u8> {
    seq![118u8, 101, 114, 115, 105, 111, 110, 61, 49, 0]
}

/// `atomic`.
pub open spec fn atomic_word() -> Seq<u8> {
    seq![97u8, 116, 111, 109, 105, 99]
}

/// `ok` and the space behind it.
pub open spec fn ok_word() -> Seq<u8> {
    seq![111u8, 107, 32]
}

/// A packet that ends a list.
pub open spec fn flush_packet() -> Seq<u8> {
    seq![48u8, 48, 48, 48]
}

/// The value of a hexadecimal digit.
pub open spec fn hex_digit(b: u8) -> Option<int> {
    if 48 <= b <= 57 {
        Some(b - 48)
    } else if 97 <= b <= 102 {
        Some(b - 87)
    } else if 65 <= b <= 70 {
        Some(b - 55)
    } else {
        None
    }
}

/// The hexadecimal number that a list of digits spells.
pub open spec fn hex_number(digits: Seq<u8>) -> Option<int>
    decreases digits.len(),
{
    if digits.len() == 0 {
        Some(0)
    } else {
        match (hex_number(digits.drop_last()), hex_digit(digits.last())) {
            (Some(front), Some(last)) => Some(front * 16 + last),
            _ => None,
        }
    }
}

/// The length that a packet header announces: four hexadecimal digits, of which
/// the first may be a plus sign.
pub open spec fn header_length(header: Seq<u8>) -> Option<int> {
    if header[0] == PLUS {
        hex_number(header.skip(1))
    } else {
        hex_number(header)
    }
}

/// The ASCII digit of a number below sixteen.
pub open spec fn hex_char(n: int) -> u8 {
    if n < 10 {
        (48 + n) as u8
    } else {
        (87 + n) as u8
    }
}

/// A number below 65536 in four hexadecimal digits.
pub open spec fn hex_header(n: int) -> Seq<u8> {
    seq![
        hex_char(n / 4096 % 16),
        hex_char(n / 256 % 16),
        hex_char(n / 16 % 16),
        hex_char(n % 16),
    ]
}

/// A payload that fits in a packet.
pub open spec fn fits_packet(payload: Seq<u8>) -> bool {
    payload.len() + 4 <= 0xffff
}

/// A packet with its header.
pub open spec fn packet(payload: Seq<u8>) -> Seq<u8> {
    hex_header(payload.len() as int + 4) + payload
}

pub open spec fn ascii_blank(b: u8) -> bool {
    b == 32 || b == 9 || b == 10 || b == 12 || b == 13
}

/// `atomic` stands between blanks at a place.
pub open spec fn word_at(features: Seq<u8>, i: int) -> bool {
    let n = atomic_word().len();
    &&& 0 <= i && i + n <= features.len()
    &&& features.subrange(i, i + n) == atomic_word()
    &&& i == 0 || ascii_blank(features[i - 1])
    &&& i + n == features.len() || ascii_blank(features[i + n])
}

/// A greeting that offers atomic pushes: its features, behind the first zero
/// byte, have the word.
pub open spec fn offers_atomic(data: Seq<u8>) -> bool {
    let parts = pieces(data, ZERO);
    parts.len() > 1 && exists|i: int| #[trigger] word_at(parts[1], i)
}

/// A line without its end.
pub open spec fn command_line(data: Seq<u8>) -> Seq<u8> {
    if data.len() > 0 && data.last() == LINE_END {
        data.drop_last()
    } else {
        data
    }
}

/// The reference of a command: what stands behind the second space.
pub open spec fn reference_of(data: Seq<u8>) -> Option<Seq<u8>> {
    let line = command_line(data);
    let first = first_position(line, SPACE);
    if first >= line.len() {
        None
    } else {
        let rest = line.skip(first + 1);
        let second = first_position(rest, SPACE);
        if second >= rest.len() || rest.skip(second + 1).len() == 0 {
            None
        } else {
            Some(rest.skip(second + 1))
        }
    }
}

/// What can be wrong with the input.
pub enum ProtocolFailure {
    /// The input ends within a packet.
    Ended,
    BadHeader,
    ControlPacket,
    TooMuch,
    BadCommand,
    /// An answer does not fit in a packet.
    TooLarge,
}

/// How an error says so. That the input ended is the system's own message.
pub open spec fn tells(error: PipelineError, failure: ProtocolFailure) -> bool {
    match failure {
        ProtocolFailure::Ended => error matches PipelineError::Io(text) && text@
            == "failed to fill whole buffer"@,
        ProtocolFailure::BadHeader => says(error, "invalid proc-receive packet header"@),
        ProtocolFailure::ControlPacket => says(error, "unsupported proc-receive control packet"@),
        ProtocolFailure::TooMuch => says(error, "proc-receive input exceeds 16 MiB"@),
        ProtocolFailure::BadCommand => says(error, "invalid command in proc-receive protocol"@),
        ProtocolFailure::TooLarge => says(error, "proc-receive packet is too large"@),
    }
}

/// What a header says, after `total` bytes of payload.
pub enum PacketHead {
    Flush,
    Data(usize),
}

pub open spec fn head_of(header: Seq<u8>, total: int) -> Result<Option<int>, ProtocolFailure> {
    match header_length(header) {
        None => Err(ProtocolFailure::BadHeader),
        Some(n) => if n == 0 {
            Ok(None)
        } else if n < 4 {
            Err(ProtocolFailure::ControlPacket)
        } else if total + (n - 4) > MAX_REF_INPUT {
            Err(ProtocolFailure::TooMuch)
        } else {
            Ok(Some(n - 4))
        },
    }
}

/// A conversation that returns every command to Git.
pub struct FallThrough {
    total: u64,
    greeted: bool,
    atomic: bool,
    references: Vec<Vec<u8>>,
    finished: bool,
}

pub struct TalkModel {
    pub total: int,
    pub greeted: bool,
    pub atomic: bool,
    pub references: Seq<Seq<u8>>,
    pub finished: bool,
}

impl View for FallThrough {
    type V = TalkModel;

    closed spec fn view(&self) -> TalkModel {
        TalkModel {
            total: self.total as int,
            greeted: self.greeted,
            atomic: self.atomic,
            references: byte_views(self.references@),
            finished: self.finished,
        }
    }
}

/// The conversation after a payload.
pub open spec fn heard(m: TalkModel, data: Seq<u8>) -> Result<TalkModel, ProtocolFailure> {
    let total = m.total + data.len();
    if !m.greeted {
        Ok(TalkModel { total, atomic: m.atomic || offers_atomic(data), ..m })
    } else {
        match reference_of(data) {
            Some(reference) => Ok(
                TalkModel { total, references: m.references.push(reference), ..m },
            ),
            None => Err(ProtocolFailure::BadCommand),
        }
    }
}

/// The greeting that answers Git's.
pub open spec fn greeting(atomic: bool) -> Seq<u8> {
    if atomic {
        version_offer() + atomic_word() + seq![LINE_END]
    } else {
        version_offer() + seq![LINE_END]
    }
}

/// The line that accepts a reference.
pub open spec fn ok_line(reference: Seq<u8>) -> Seq<u8> {
    ok_word() + reference + seq![LINE_END]
}

/// The answers to a list of references: each is accepted and handed back.
pub open spec fn answers(references: Seq<Seq<u8>>) -> Seq<u8>
    decreases references.len(),
{
    if references.len() == 0 {
        seq![]
    } else {
        answers(references.drop_last()) + packet(ok_line(references.last())) + packet(
            fall_through_option(),
        )
    }
}

/// How many references can be answered before one is too large.
pub open spec fn answerable(references: Seq<Seq<u8>>) -> int
    decreases references.len(),
{
    if references.len() == 0 || !fits_packet(ok_line(references[0])) {
        0
    } else {
        1 + answerable(references.drop_first())
    }
}

/// What is written when Git ends a list, and whether that works.
pub open spec fn written(m: TalkModel) -> (Seq<u8>, Option<ProtocolFailure>) {
    if !m.greeted {
        (packet(greeting(m.atomic)) + flush_packet(), None)
    } else if answerable(m.references) < m.references.len() {
        (answers(m.references.take(answerable(m.references))), Some(ProtocolFailure::TooLarge))
    } else {
        (answers(m.references) + flush_packet(), None)
    }
}

/// The conversation after Git ended a list.
pub open spec fn ended(m: TalkModel) -> TalkModel {
    TalkModel { greeted: true, finished: m.greeted, ..m }
}

/// The whole conversation over an input: what is written, and what goes wrong.
pub open spec fn conversation(m: TalkModel, input: Seq<u8>) -> (Seq<u8>, Option<ProtocolFailure>)
    decreases input.len(),
{
    if input.len() < 4 {
        (seq![], Some(ProtocolFailure::Ended))
    } else {
        match head_of(input.take(4), m.total) {
            Err(failure) => (seq![], Some(failure)),
            Ok(None) => {
                let (output, failure) = written(m);
                if failure is Some || m.greeted {
                    (output, failure)
                } else {
                    let (rest, later) = conversation(ended(m), input.skip(4));
                    (output + rest, later)
                }
            },
            Ok(Some(length)) => if length < 0 || input.len() < 4 + length {
                (seq![], Some(ProtocolFailure::Ended))
            } else {
                match heard(m, input.subrange(4, 4 + length)) {
                    Err(failure) => (seq![], Some(failure)),
                    Ok(next) => conversation(next, input.skip(4 + length)),
                }
            },
        }
    }
}

/// A conversation that has not begun.
pub open spec fn silence() -> TalkModel {
    TalkModel { total: 0, greeted: false, atomic: false, references: seq![], finished: false }
}

fn digit_value(b: u8) -> (value: Option<u32>)
    ensures
        match hex_digit(b) {
            Some(n) => value matches Some(v) && v == n && v < 16,
            None => value is None,
        },
{
    if 48 <= b && b <= 57 {
        Some((b - 48) as u32)
    } else if 97 <= b && b <= 102 {
        Some((b - 87) as u32)
    } else if 65 <= b && b <= 70 {
        Some((b - 55) as u32)
    } else {
        None
    }
}

proof fn lemma_hex_step(digits: Seq<u8>, n: int)
    requires
        0 <= n < digits.len(),
    ensures
        hex_number(digits.take(n + 1)) == (match (
            hex_number(digits.take(n)),
            hex_digit(digits[n]),
        ) {
            (Some(front), Some(last)) => Some(front * 16 + last),
            _ => None,
        }),
{
    assert(digits.take(n + 1).drop_last() =~= digits.take(n));
}

proof fn lemma_hex_none(digits: Seq<u8>, n: int)
    requires
        0 <= n <= digits.len(),
        hex_number(digits.take(n)) is None,
    ensures
        hex_number(digits) is None,
    decreases digits.len() - n,
{
    if n < digits.len() {
        lemma_hex_step(digits, n);
        lemma_hex_none(digits, n + 1);
    } else {
        assert(digits.take(n) =~= digits);
    }
}

fn header_value(header: &[u8], from: usize) -> (value: Option<u32>)
    requires
        header@.len() == 4,
        from <= 1,
    ensures
        match hex_number(header@.skip(from as int)) {
            Some(n) => value matches Some(v) && v == n && v <= 0xffff,
            None => value is None,
        },
{
    let ghost digits = header@.skip(from as int);
    let mut value: u32 = 0;
    let mut i: usize = from;
    proof {
        assert(digits.take(0) =~= seq![]);
    }
    while i < 4
        invariant
            from <= i <= 4,
            header@.len() == 4,
            digits == header@.skip(from as int),
            hex_number(digits.take(i - from)) == Some(value as int),
            i - from == 0 ==> value < 1,
            i - from == 1 ==> value < 16,
            i - from == 2 ==> value < 256,
            i - from == 3 ==> value < 4096,
            i - from == 4 ==> value < 65536,
        decreases 4 - i,
    {
        proof {
            lemma_hex_step(digits, i - from);
            assert(digits[i - from] == header@[i as int]);
        }
        match digit_value(header[i]) {
            Some(digit) => {
                value = value * 16 + digit;
            },
            None => {
                proof {
                    lemma_hex_none(digits, i - from + 1);
                }
                return None;
            },
        }
        i += 1;
    }
    proof {
        assert(digits.take(i - from) =~= digits);
    }
    Some(value)
}

fn message(text: &str) -> (error: PipelineError)
    ensures
        says(error, text@),
{
    PipelineError::Message(String::from_str(text))
}

fn starts_word(features: &Vec<u8>, i: usize) -> (yes: bool)
    requires
        i <= features@.len(),
    ensures
        yes == word_at(features@, i as int),
{
    if features.len() - i < 6 {
        return false;
    }
    let end = i + 6;
    let same = features[i] == 97 && features[i + 1] == 116 && features[i + 2] == 111
        && features[i + 3] == 109 && features[i + 4] == 105 && features[i + 5] == 99;
    proof {
        let part = features@.subrange(i as int, i + 6);
        if same {
            assert(part =~= atomic_word());
        } else {
            assert(part[0] == features@[i as int] && part[1] == features@[i + 1] && part[2]
                == features@[i + 2] && part[3] == features@[i + 3] && part[4] == features@[i + 4]
                && part[5] == features@[i + 5]);
            let word = atomic_word();
            assert(word[0] == 97 && word[1] == 116 && word[2] == 111 && word[3] == 109 && word[4]
                == 105 && word[5] == 99);
        }
    }
    if !same {
        return false;
    }
    let opens = i == 0 || is_ascii_blank(features[i - 1]);
    let closes = end == features.len() || is_ascii_blank(features[end]);
    opens && closes
}

fn is_ascii_blank(b: u8) -> (yes: bool)
    ensures
        yes == ascii_blank(b),
{
    b == 32 || b == 9 || b == 10 || b == 12 || b == 13
}

fn has_atomic(data: &[u8]) -> (yes: bool)
    ensures
        yes == offers_atomic(data@),
{
    let parts = split_bytes(data, ZERO);
    let ghost all = pieces(data@, ZERO);
    if parts.len() < 2 {
        return false;
    }
    let features = &parts[1];
    proof {
        assert(all[1] == features@);
    }
    let mut i: usize = 0;
    while i < features.len()
        invariant
            i <= features.len(),
            features@ == pieces(data@, ZERO)[1],
            pieces(data@, ZERO).len() > 1,
            forall|k: int| 0 <= k < i ==> !#[trigger] word_at(features@, k),
        decreases features.len() - i,
    {
        if starts_word(features, i) {
            proof {
                assert(word_at(features@, i as int));
            }
            return true;
        }
        i += 1;
    }
    proof {
        assert forall|k: int| !#[trigger] word_at(features@, k) by {
            if word_at(features@, k) {
                assert(k < features@.len());
            }
        }
    }
    false
}

fn find_byte(bytes: &[u8], x: u8, from: usize) -> (position: usize)
    requires
        from <= bytes@.len(),
    ensures
        from <= position <= bytes@.len(),
        position - from == first_position(bytes@.skip(from as int), x),
{
    let ghost rest = bytes@.skip(from as int);
    let mut i: usize = from;
    while i < bytes.len()
        invariant
            from <= i <= bytes@.len(),
            rest == bytes@.skip(from as int),
            forall|k: int| 0 <= k < i - from ==> #[trigger] rest[k] != x,
        decreases bytes.len() - i,
    {
        proof {
            assert(rest[i - from] == bytes@[i as int]);
        }
        if bytes[i] == x {
            proof {
                lemma_first_position_is(rest, x, i - from);
            }
            return i;
        }
        i += 1;
    }
    proof {
        lemma_first_position_is(rest, x, i - from);
    }
    i
}

fn command_reference(data: &[u8]) -> (reference: Option<Vec<u8>>)
    ensures
        match reference_of(data@) {
            Some(bytes) => reference matches Some(found) && found@ == bytes,
            None => reference is None,
        },
{
    let mut line = slice_to_vec(data);
    proof {
        assert(line@ =~= data@);
    }
    if line.len() > 0 && line[line.len() - 1] == LINE_END {
        line.pop();
    }
    let ghost text = command_line(data@);
    proof {
        assert(line@ =~= text);
        assert(text.skip(0) =~= text);
    }
    let first = find_byte(line.as_slice(), SPACE, 0);
    if first >= line.len() {
        return None;
    }
    let second = find_byte(line.as_slice(), SPACE, first + 1);
    let ghost rest = text.skip(first as int + 1);
    if second >= line.len() || second + 1 >= line.len() {
        return None;
    }
    let reference = slice_to_vec(slice_subrange(line.as_slice(), second + 1, line.len()));
    proof {
        assert(reference@ =~= rest.skip(second - first));
    }
    Some(reference)
}

fn hex_byte(n: usize) -> (b: u8)
    requires
        n < 16,
    ensures
        b == hex_char(n as int),
{
    if n < 10 {
        48 + n as u8
    } else {
        87 + n as u8
    }
}

/// Appends a packet, if it fits in one.
pub fn write_packet(output: &mut Vec<u8>, payload: &[u8]) -> (result: Result<(), PipelineError>)
    ensures
        fits_packet(payload@) ==> result is Ok && final(output)@ == old(output)@ + packet(payload@),
        !fits_packet(payload@) ==> final(output)@ == old(output)@ && (result matches Err(error)
            && tells(error, ProtocolFailure::TooLarge)),
{
    if payload.len() > 0xffff - 4 {
        return Err(message("proc-receive packet is too large"));
    }
    let ghost start = output@;
    let length = payload.len() + 4;
    output.push(hex_byte(length / 4096 % 16));
    output.push(hex_byte(length / 256 % 16));
    output.push(hex_byte(length / 16 % 16));
    output.push(hex_byte(length % 16));
    proof {
        assert(output@ =~= start + hex_header(length as int));
    }
    append_bytes(output, payload);
    proof {
        assert(output@ =~= start + packet(payload@));
    }
    Ok(())
}

/// Appends the packet that ends a list.
pub fn write_flush(output: &mut Vec<u8>)
    ensures
        final(output)@ == old(output)@ + flush_packet(),
{
    let ghost start = output@;
    output.push(48);
    output.push(48);
    output.push(48);
    output.push(48);
    proof {
        assert(output@ =~= start + flush_packet());
    }
}

fn greeting_bytes(atomic: bool) -> (bytes: Vec<u8>)
    ensures
        bytes@ == greeting(atomic),
        bytes@.len() <= 17,
{
    let mut bytes: Vec<u8> = Vec::new();
    append_bytes(&mut bytes, "version=1\0".as_bytes());
    proof {
        lemma_version_offer();
        assert(bytes@ =~= version_offer());
    }
    if atomic {
        append_bytes(&mut bytes, "atomic".as_bytes());
        proof {
            lemma_atomic_word();
        }
    }
    bytes.push(LINE_END);
    proof {
        assert(bytes@ =~= greeting(atomic));
    }
    bytes
}

proof fn lemma_version_offer()
    ensures
        vstd::utf8::encode_utf8("version=1\0"@) == version_offer(),
{
    reveal_strlit("version=1\0");
    vstd::utf8::is_ascii_chars_encode_utf8("version=1\0"@);
    assert(vstd::utf8::encode_utf8("version=1\0"@) =~= version_offer());
}

proof fn lemma_atomic_word()
    ensures
        vstd::utf8::encode_utf8("atomic"@) == atomic_word(),
{
    reveal_strlit("atomic");
    vstd::utf8::is_ascii_chars_encode_utf8("atomic"@);
    assert(vstd::utf8::encode_utf8("atomic"@) =~= atomic_word());
}

proof fn lemma_option()
    ensures
        vstd::utf8::encode_utf8("option fall-through\n"@) == fall_through_option(),
{
    reveal_strlit("option fall-through\n");
    vstd::utf8::is_ascii_chars_encode_utf8("option fall-through\n"@);
    assert(vstd::utf8::encode_utf8("option fall-through\n"@) =~= fall_through_option());
}

fn ok_bytes(reference: &Vec<u8>) -> (bytes: Vec<u8>)
    ensures
        bytes@ == ok_line(reference@),
{
    let mut bytes: Vec<u8> = Vec::new();
    bytes.push(111);
    bytes.push(107);
    bytes.push(32);
    proof {
        assert(bytes@ =~= ok_word());
    }
    append_bytes(&mut bytes, reference.as_slice());
    bytes.push(LINE_END);
    proof {
        assert(bytes@ =~= ok_line(reference@));
    }
    bytes
}

proof fn lemma_answerable(references: Seq<Seq<u8>>, n: int)
    requires
        0 <= n <= references.len(),
        forall|k: int| 0 <= k < n ==> fits_packet(ok_line(#[trigger] references[k])),
    ensures
        n < references.len() && !fits_packet(ok_line(references[n])) ==> answerable(references)
            == n,
        n == references.len() ==> answerable(references) == n,
    decreases n,
{
    if n > 0 {
        let rest = references.drop_first();
        assert forall|k: int| 0 <= k < n - 1 implies fits_packet(ok_line(#[trigger] rest[k])) by {
            assert(rest[k] == references[k + 1]);
        }
        assert(fits_packet(ok_line(references[0])));
        lemma_answerable(rest, n - 1);
    }
}

fn answer_bytes(references: &Vec<Vec<u8>>) -> (result: (Vec<u8>, Result<(), PipelineError>))
    ensures
        ({
            let all = byte_views(references@);
            &&& answerable(all) < all.len() ==> result.0@ == answers(all.take(answerable(all))) && (
            result.1 matches Err(error) && tells(error, ProtocolFailure::TooLarge))
            &&& answerable(all) >= all.len() ==> result.0@ == answers(all) + flush_packet()
                && result.1 is Ok
        }),
{
    let ghost all = byte_views(references@);
    let mut output: Vec<u8> = Vec::new();
    proof {
        lemma_option();
        assert(answers(all.take(0)) =~= seq![]);
    }
    let mut i: usize = 0;
    while i < references.len()
        invariant
            i <= references.len(),
            all == byte_views(references@),
            vstd::utf8::encode_utf8("option fall-through\n"@) == fall_through_option(),
            output@ == answers(all.take(i as int)),
            forall|k: int| 0 <= k < i ==> fits_packet(ok_line(#[trigger] all[k])),
        decreases references.len() - i,
    {
        let line = ok_bytes(&references[i]);
        let ghost before = output@;
        proof {
            assert(all[i as int] == references@[i as int]@);
        }
        if let Err(error) = write_packet(&mut output, line.as_slice()) {
            proof {
                lemma_answerable(all, i as int);
            }
            return (output, Err(error));
        }
        let _written = write_packet(&mut output, "option fall-through\n".as_bytes());
        proof {
            let next = all.take(i as int + 1);
            assert(next.drop_last() =~= all.take(i as int));
            assert(next.last() == all[i as int]);
            assert(output@ =~= answers(next));
        }
        i += 1;
    }
    proof {
        lemma_answerable(all, i as int);
        assert(all.take(i as int) =~= all);
    }
    write_flush(&mut output);
    (output, Ok(()))
}

impl FallThrough {
    /// A conversation that has not begun.
    pub fn new() -> (talk: FallThrough)
        ensures
            talk@ == silence(),
    {
        let talk = FallThrough {
            total: 0,
            greeted: false,
            atomic: false,
            references: Vec::new(),
            finished: false,
        };
        proof {
            assert(talk@.references =~= seq![]);
        }
        talk
    }

    /// What the header of the next packet says.
    pub fn head(&self, header: &[u8]) -> (result: Result<PacketHead, PipelineError>)
        requires
            header@.len() == 4,
        ensures
            match head_of(header@, self@.total) {
                Err(failure) => result matches Err(error) && tells(error, failure),
                Ok(None) => result matches Ok(PacketHead::Flush),
                Ok(Some(length)) => result matches Ok(PacketHead::Data(n)) && n == length && n
                    <= 0xffff && self@.total + n <= MAX_REF_INPUT,
            },
    {
        let from: usize = if header[0] == PLUS {
            1
        } else {
            0
        };
        proof {
            assert(header@.skip(0) =~= header@);
        }
        let length = match header_value(header, from) {
            Some(length) => length,
            None => {
                return Err(message("invalid proc-receive packet header"));
            },
        };
        if length == 0 {
            return Ok(PacketHead::Flush);
        }
        if length < 4 {
            return Err(message("unsupported proc-receive control packet"));
        }
        let payload = length - 4;
        if self.total > MAX_REF_INPUT || payload as u64 > MAX_REF_INPUT - self.total {
            return Err(message("proc-receive input exceeds 16 MiB"));
        }
        Ok(PacketHead::Data(payload as usize))
    }

    /// The conversation after the payload of a packet.
    pub fn hear(self, data: &[u8]) -> (result: Result<FallThrough, PipelineError>)
        requires
            self@.total + data@.len() <= MAX_REF_INPUT,
        ensures
            match heard(self@, data@) {
                Err(failure) => result matches Err(error) && tells(error, failure),
                Ok(next) => result matches Ok(talk) && talk@ == next,
            },
    {
        let mut talk = self;
        talk.total = talk.total + data.len() as u64;
        if !talk.greeted {
            if has_atomic(data) {
                talk.atomic = true;
            }
            return Ok(talk);
        }
        match command_reference(data) {
            Some(reference) => {
                proof {
                    assert(byte_views(talk.references@.push(reference)) =~= byte_views(
                        talk.references@,
                    ).push(reference@));
                }
                talk.references.push(reference);
                Ok(talk)
            },
            None => Err(message("invalid command in proc-receive protocol")),
        }
    }

    /// The conversation after Git ended a list, with what is to be written. An
    /// error comes with what is written before it.
    pub fn end(self) -> (result: (FallThrough, Vec<u8>, Result<(), PipelineError>))
        ensures
            result.0@ == ended(self@),
            result.1@ == written(self@).0,
            match written(self@).1 {
                Some(failure) => result.2 matches Err(error) && tells(error, failure),
                None => result.2 is Ok,
            },
    {
        let mut talk = self;
        if !talk.greeted {
            talk.greeted = true;
            talk.finished = false;
            let mut output: Vec<u8> = Vec::new();
            let bytes = greeting_bytes(talk.atomic);
            let _done = write_packet(&mut output, bytes.as_slice());
            write_flush(&mut output);
            proof {
                assert(output@ =~= packet(greeting(talk.atomic)) + flush_packet());
            }
            return (talk, output, Ok(()));
        }
        let (output, outcome) = answer_bytes(&talk.references);
        talk.finished = true;
        (talk, output, outcome)
    }

    /// Whether all commands were answered.
    pub fn is_finished(&self) -> (yes: bool)
        ensures
            yes == self@.finished,
    {
        self.finished
    }
}

/// Answers a whole input as if there were no hook: what is written, and whether
/// the input was in order.
pub fn proc_receive_fallthrough_io(input: &[u8]) -> (result: (Vec<u8>, Result<(), PipelineError>))
    ensures
        result.0@ == conversation(silence(), input@).0,
        match conversation(silence(), input@).1 {
            Some(failure) => result.1 matches Err(error) && tells(error, failure),
            None => result.1 is Ok,
        },
{
    let ghost whole = conversation(silence(), input@);
    let mut talk = FallThrough::new();
    let mut output: Vec<u8> = Vec::new();
    let mut at: usize = 0;
    proof {
        assert(input@.skip(0) =~= input@);
        assert(output@ + whole.0 =~= whole.0);
    }
    loop
        invariant
            at <= input@.len(),
            whole == conversation(silence(), input@),
            output@ + conversation(talk@, input@.skip(at as int)).0 == whole.0,
            conversation(talk@, input@.skip(at as int)).1 == whole.1,
        decreases input@.len() - at,
    {
        let ghost rest = input@.skip(at as int);
        if input.len() - at < 4 {
            proof {
                assert(output@ + Seq::<u8>::empty() =~= output@);
            }
            return (
                output,
                Err(PipelineError::Io(String::from_str("failed to fill whole buffer"))),
            );
        }
        let header = slice_subrange(input, at, at + 4);
        proof {
            assert(header@ =~= rest.take(4));
            assert(output@ + Seq::<u8>::empty() =~= output@);
        }
        match talk.head(header) {
            Err(error) => {
                return (output, Err(error));
            },
            Ok(PacketHead::Flush) => {
                let ghost before = talk@;
                let ghost sofar = output@;
                let (next, bytes, outcome) = talk.end();
                append_bytes(&mut output, bytes.as_slice());
                if outcome.is_err() || next.is_finished() {
                    return (output, outcome);
                }
                talk = next;
                at = at + 4;
                proof {
                    assert(rest.skip(4) =~= input@.skip(at as int));
                    let later = conversation(ended(before), rest.skip(4)).0;
                    assert(sofar + (written(before).0 + later) =~= output@ + later);
                }
            },
            Ok(PacketHead::Data(length)) => {
                if input.len() - at - 4 < length {
                    return (
                        output,
                        Err(PipelineError::Io(String::from_str("failed to fill whole buffer"))),
                    );
                }
                let data = slice_subrange(input, at + 4, at + 4 + length);
                proof {
                    assert(data@ =~= rest.subrange(4, 4 + length as int));
                }
                match talk.hear(data) {
                    Err(error) => {
                        return (output, Err(error));
                    },
                    Ok(next) => {
                        talk = next;
                    },
                }
                at = at + 4 + length;
                proof {
                    assert(rest.skip(4 + length as int) =~= input@.skip(at as int));
                }
            },
        }
    }
}

proof fn lemma_hex_char(n: int)
    requires
        0 <= n < 16,
    ensures
        hex_digit(hex_char(n)) == Some(n),
        hex_char(n) != PLUS,
{
}

/// A written header reads back as the same length.
pub proof fn headers_read_back(n: int)
    requires
        0 <= n <= 0xffff,
    ensures
        header_length(hex_header(n)) == Some(n),
{
    let a = n / 4096 % 16;
    let b = n / 256 % 16;
    let c = n / 16 % 16;
    let d = n % 16;
    lemma_hex_char(a);
    lemma_hex_char(b);
    lemma_hex_char(c);
    lemma_hex_char(d);
    let h = hex_header(n);
    assert(h.take(0) =~= seq![]);
    lemma_hex_step(h, 0);
    lemma_hex_step(h, 1);
    lemma_hex_step(h, 2);
    lemma_hex_step(h, 3);
    assert(h.take(4) =~= h);
    assert(((a * 16 + b) * 16 + c) * 16 + d == n);
}

/// Packets one after the other.
pub open spec fn packets(list: Seq<Seq<u8>>) -> Seq<u8>
    decreases list.len(),
{
    if list.len() == 0 {
        seq![]
    } else {
        packet(list[0]) + packets(list.drop_first())
    }
}

pub open spec fn payload_total(list: Seq<Seq<u8>>) -> int
    decreases list.len(),
{
    if list.len() == 0 {
        0
    } else {
        list[0].len() + payload_total(list.drop_first())
    }
}

/// The references of a list of commands.
pub open spec fn references_of(commands: Seq<Seq<u8>>) -> Seq<Seq<u8>> {
    Seq::new(commands.len(), |i: int| reference_of(commands[i])->Some_0)
}

/// One of the payloads offers atomic pushes.
pub open spec fn any_atomic(list: Seq<Seq<u8>>) -> bool {
    exists|i: int| 0 <= i < list.len() && offers_atomic(#[trigger] list[i])
}

/// The conversation after a list of payloads, all of them in order.
pub open spec fn heard_all(m: TalkModel, list: Seq<Seq<u8>>) -> TalkModel {
    if m.greeted {
        TalkModel {
            total: m.total + payload_total(list),
            references: m.references + references_of(list),
            ..m
        }
    } else {
        TalkModel {
            total: m.total + payload_total(list),
            atomic: m.atomic || any_atomic(list),
            ..m
        }
    }
}

proof fn lemma_payload_total(list: Seq<Seq<u8>>)
    ensures
        payload_total(list) >= 0,
    decreases list.len(),
{
    if list.len() > 0 {
        lemma_payload_total(list.drop_first());
    }
}

proof fn lemma_heard_first(m: TalkModel, list: Seq<Seq<u8>>)
    requires
        list.len() > 0,
        m.greeted ==> reference_of(list[0]) is Some,
    ensures
        heard(m, list[0]) is Ok,
        heard_all(heard(m, list[0])->Ok_0, list.drop_first()) == heard_all(m, list),
{
    let rest = list.drop_first();
    let next = heard(m, list[0])->Ok_0;
    if m.greeted {
        assert(next.references + references_of(rest) =~= m.references + references_of(list)) by {
            assert(references_of(list)[0] == reference_of(list[0])->Some_0);
            assert forall|i: int| 0 <= i < rest.len() implies references_of(rest)[i]
                == #[trigger] references_of(list)[i + 1] by {}
        }
    } else {
        assert(any_atomic(list) == (offers_atomic(list[0]) || any_atomic(rest))) by {
            if any_atomic(list) {
                let i = choose|i: int| 0 <= i < list.len() && offers_atomic(#[trigger] list[i]);
                if i > 0 {
                    assert(rest[i - 1] == list[i]);
                }
            }
            if any_atomic(rest) {
                let i = choose|i: int| 0 <= i < rest.len() && offers_atomic(#[trigger] rest[i]);
                assert(list[i + 1] == rest[i]);
            }
        }
    }
}

proof fn lemma_hear_packets(m: TalkModel, list: Seq<Seq<u8>>, tail: Seq<u8>)
    requires
        forall|i: int| 0 <= i < list.len() ==> fits_packet(#[trigger] list[i]),
        m.greeted ==> forall|i: int|
            0 <= i < list.len() ==> reference_of(#[trigger] list[i]) is Some,
        m.total + payload_total(list) <= MAX_REF_INPUT,
    ensures
        conversation(m, packets(list) + tail) == conversation(heard_all(m, list), tail),
    decreases list.len(),
{
    if list.len() == 0 {
        assert(packets(list) + tail =~= tail);
        if m.greeted {
            assert(m.references + references_of(list) =~= m.references);
        } else {
            assert(!any_atomic(list));
        }
        assert(heard_all(m, list) == m);
    } else {
        let first = list[0];
        let rest = list.drop_first();
        let input = packets(list) + tail;
        let n = first.len() as int;
        assert forall|i: int| 0 <= i < rest.len() implies rest[i] == #[trigger] list[i + 1] by {}
        assert forall|i: int| 0 <= i < rest.len() implies fits_packet(#[trigger] rest[i]) by {
            assert(rest[i] == list[i + 1]);
        }
        if m.greeted {
            assert forall|i: int| 0 <= i < rest.len() implies reference_of(
                #[trigger] rest[i],
            ) is Some by {
                assert(rest[i] == list[i + 1]);
            }
        }
        lemma_payload_total(rest);
        assert(fits_packet(list[0]));
        headers_read_back(n + 4);
        assert(input.take(4) =~= hex_header(n + 4));
        assert(input.subrange(4, 4 + n) =~= first);
        assert(input.skip(4 + n) =~= packets(rest) + tail);
        assert(input.len() >= 4 + n);
        lemma_heard_first(m, list);
        lemma_hear_packets(heard(m, first)->Ok_0, rest, tail);
    }
}

/// Every command of a conversation in order is accepted and handed back to Git,
/// in the order in which it came; the greeting takes up an offer of atomic
/// pushes.
pub proof fn every_command_falls_through(
    greetings: Seq<Seq<u8>>,
    commands: Seq<Seq<u8>>,
    tail: Seq<u8>,
)
    requires
        forall|i: int| 0 <= i < greetings.len() ==> fits_packet(#[trigger] greetings[i]),
        forall|i: int|
            0 <= i < commands.len() ==> fits_packet(#[trigger] commands[i]) && reference_of(
                commands[i],
            ) is Some,
        forall|i: int|
            0 <= i < commands.len() ==> fits_packet(ok_line(#[trigger] references_of(commands)[i])),
        payload_total(greetings) + payload_total(commands) <= MAX_REF_INPUT,
    ensures
        conversation(
            silence(),
            packets(greetings) + flush_packet() + packets(commands) + flush_packet() + tail,
        ) == (
            packet(greeting(any_atomic(greetings))) + flush_packet() + answers(
                references_of(commands),
            ) + flush_packet(),
            None::<ProtocolFailure>,
        ),
{
    let last = flush_packet() + tail;
    let second = packets(commands) + last;
    let first = flush_packet() + second;
    let input = packets(greetings) + flush_packet() + packets(commands) + flush_packet() + tail;
    assert(input =~= packets(greetings) + first);
    lemma_payload_total(greetings);
    lemma_payload_total(commands);
    lemma_hear_packets(silence(), greetings, first);
    let greeted = heard_all(silence(), greetings);
    headers_read_back(0);
    assert(hex_header(0) =~= flush_packet());
    assert(first.take(4) =~= hex_header(0));
    assert(first.skip(4) =~= second);
    let listening = ended(greeted);
    assert(listening.references =~= seq![]);
    lemma_hear_packets(listening, commands, last);
    let full = heard_all(listening, commands);
    assert(full.references =~= references_of(commands));
    assert(last.take(4) =~= hex_header(0));
    lemma_answerable(full.references, full.references.len() as int);
    assert(conversation(full, last) == written(full));
    assert(packet(greeting(greeted.atomic)) + flush_packet() + (answers(references_of(commands))
        + flush_packet()) =~= packet(greeting(any_atomic(greetings))) + flush_packet() + answers(
        references_of(commands),
    ) + flush_packet());
}

} // verus!
