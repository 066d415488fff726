//! What Git pushes, and how it is read.

use crate::dispatch::input::{
    check_ref_input, update_from_arguments, update_from_checkout, update_references, update_source,
    updates_from_refs, UpdateSource,
};
use crate::error::PipelineError;
use crate::hooks::error::HookError;
use crate::hooks::updates::{
    brings, brought, incoming_commits, is_zero_oid, parse_ref_updates, update_views, updates_of,
    RefUpdate, UpdateModel,
};
use crate::native::{native_text_round_trip, native_views, NativeText};
use crate::text::{
    lemma_first_position_is, lines, trim_end, trim_start, trimmed, views, white_space, word_length,
    words,
};
use vstd::prelude::*;
use vstd::utf8::{decode_utf8, encode_utf8, valid_utf8};

verus! {

/// A field that can stand in a line of its own: not empty, and without blanks.
pub open spec fn field(text: Seq<char>) -> bool {
    text.len() > 0 && forall|i: int| 0 <= i < text.len() ==> !white_space(#[trigger] text[i])
}

/// The line that Git writes for an update.
pub open spec fn update_line(update: UpdateModel) -> Seq<char> {
    update.old_oid + seq![' '] + update.new_oid + seq![' '] + update.reference + seq!['\n']
}

/// What Git writes for a list of updates.
pub open spec fn update_text(updates: Seq<UpdateModel>) -> Seq<char>
    decreases updates.len(),
{
    if updates.len() == 0 {
        seq![]
    } else {
        update_line(updates[0]) + update_text(updates.drop_first())
    }
}

pub open spec fn writable(update: UpdateModel) -> bool {
    field(update.old_oid) && field(update.new_oid) && field(update.reference)
}

pub proof fn lemma_word_length(text: Seq<char>, rest: Seq<char>)
    requires
        forall|i: int| 0 <= i < text.len() ==> !white_space(#[trigger] text[i]),
        rest.len() == 0 || white_space(rest[0]),
    ensures
        word_length(text + rest) == text.len(),
    decreases text.len(),
{
    if text.len() == 0 {
        assert(text + rest =~= rest);
    } else {
        assert(!white_space(text[0]));
        assert((text + rest)[0] == text[0]);
        let tail = text.drop_first();
        assert forall|i: int| 0 <= i < tail.len() implies !white_space(#[trigger] tail[i]) by {
            assert(tail[i] == text[i + 1]);
        }
        lemma_word_length(tail, rest);
        assert((text + rest).drop_first() =~= tail + rest);
    }
}

pub proof fn lemma_word(text: Seq<char>, rest: Seq<char>)
    requires
        field(text),
        rest.len() == 0 || white_space(rest[0]),
    ensures
        words(text + rest) == seq![text] + words(rest),
{
    lemma_word_length(text, rest);
    let all = text + rest;
    assert(!white_space(text[0]));
    assert(all[0] == text[0]);
    assert(all.take(text.len() as int) =~= text);
    assert(all.skip(text.len() as int) =~= rest);
}

pub proof fn lemma_blank(rest: Seq<char>)
    ensures
        words(seq![' '] + rest) == words(rest),
{
    let all = seq![' '] + rest;
    assert(white_space(all[0]));
    assert(all.drop_first() =~= rest);
}

proof fn lemma_three_words(a: Seq<char>, b: Seq<char>, c: Seq<char>)
    requires
        field(a),
        field(b),
        field(c),
    ensures
        words(a + seq![' '] + b + seq![' '] + c) == seq![a, b, c],
{
    let none: Seq<char> = seq![];
    let second = seq![' '] + c;
    let first = seq![' '] + (b + second);
    lemma_word(c, none);
    assert(c + none =~= c);
    assert(words(none) =~= Seq::<Seq<char>>::empty());
    lemma_blank(c);
    lemma_word(b, second);
    lemma_blank(b + second);
    lemma_word(a, first);
    assert(a + seq![' '] + b + seq![' '] + c =~= a + first);
    assert(seq![a] + (seq![b] + (seq![c] + Seq::<Seq<char>>::empty())) =~= seq![a, b, c]);
}

pub proof fn lemma_not_blank(text: Seq<char>)
    requires
        text.len() > 0,
        !white_space(text[0]),
    ensures
        trimmed(text).len() > 0,
{
    assert(trim_start(text) == text);
    lemma_trim_end_keeps(text);
}

proof fn lemma_trim_end_keeps(text: Seq<char>)
    requires
        text.len() > 0,
        !white_space(text[0]),
    ensures
        trim_end(text).len() > 0,
    decreases text.len(),
{
    if white_space(text.last()) {
        assert(text.len() > 1);
        assert(text.drop_last()[0] == text[0]);
        lemma_trim_end_keeps(text.drop_last());
    }
}

proof fn lemma_line(update: UpdateModel, rest: Seq<char>)
    requires
        writable(update),
    ensures
        lines(update_line(update) + rest) == seq![update_line(update).drop_last()] + lines(rest),
        words(update_line(update).drop_last()) == seq![
            update.old_oid,
            update.new_oid,
            update.reference,
        ],
        trimmed(update_line(update).drop_last()).len() > 0,
{
    let line = update.old_oid + seq![' '] + update.new_oid + seq![' '] + update.reference;
    assert(update_line(update).drop_last() =~= line);
    lemma_three_words(update.old_oid, update.new_oid, update.reference);
    assert(line[0] == update.old_oid[0]);
    lemma_not_blank(line);
    let n = line.len() as int;
    let all = update_line(update) + rest;
    assert(white_space('\n'));
    assert forall|i: int| 0 <= i < n implies line[i] != '\n' by {
        let a = update.old_oid.len() as int;
        let b = a + 1 + update.new_oid.len();
        if i < a {
            assert(line[i] == update.old_oid[i]);
        } else if a < i < b {
            assert(line[i] == update.new_oid[i - a - 1]);
        } else if b < i {
            assert(line[i] == update.reference[i - b - 1]);
        }
    }
    assert forall|i: int| 0 <= i < n implies all[i] != '\n' by {
        assert(all[i] == line[i]);
    }
    assert(all[n] == '\n');
    lemma_first_position_is(all, '\n', n);
    assert(all.take(n) =~= line);
    assert(all.skip(n + 1) =~= rest);
    assert(line.last() == update.reference.last());
    assert(update.reference.last() == update.reference[update.reference.len() - 1]);
    assert(white_space('\r'));
}

spec fn rows(updates: Seq<UpdateModel>) -> Seq<Seq<char>> {
    Seq::new(updates.len(), |i: int| update_line(updates[i]).drop_last())
}

proof fn lemma_rows(updates: Seq<UpdateModel>)
    requires
        forall|i: int| 0 <= i < updates.len() ==> writable(#[trigger] updates[i]),
    ensures
        lines(update_text(updates)) == rows(updates),
    decreases updates.len(),
{
    if updates.len() == 0 {
        assert(lines(update_text(updates)) =~= rows(updates));
    } else {
        let rest = updates.drop_first();
        assert(writable(updates[0]));
        assert forall|i: int| 0 <= i < rest.len() implies writable(#[trigger] rest[i]) by {
            assert(rest[i] == updates[i + 1]);
        }
        lemma_rows(rest);
        lemma_line(updates[0], update_text(rest));
        assert(seq![update_line(updates[0]).drop_last()] + rows(rest) =~= rows(updates));
    }
}

proof fn lemma_updates(updates: Seq<UpdateModel>)
    requires
        forall|i: int| 0 <= i < updates.len() ==> writable(#[trigger] updates[i]),
    ensures
        updates_of(rows(updates)) == Some(updates),
    decreases updates.len(),
{
    if updates.len() == 0 {
        assert(updates =~= Seq::<UpdateModel>::empty());
    } else {
        let front = updates.drop_last();
        let last = updates.last();
        assert(writable(updates[updates.len() - 1]));
        assert forall|i: int| 0 <= i < front.len() implies writable(#[trigger] front[i]) by {
            assert(front[i] == updates[i]);
        }
        lemma_updates(front);
        assert(rows(updates).drop_last() =~= rows(front));
        lemma_line(last, seq![]);
        assert(front.push(last) =~= updates);
    }
}

/// What Git writes about its updates is read back as these updates, whatever
/// they are.
pub proof fn updates_are_read_back(
    updates: Seq<UpdateModel>,
    input: &[u8],
    result: Result<Vec<RefUpdate>, HookError>,
)
    requires
        forall|i: int| 0 <= i < updates.len() ==> writable(#[trigger] updates[i]),
        input@ == encode_utf8(update_text(updates)),
        call_ensures(parse_ref_updates, (input,), result),
    ensures
        result matches Ok(list) && list@.len() == updates.len() && forall|i: int|
            0 <= i < updates.len() ==> (#[trigger] list@[i]).old_oid@ == updates[i].old_oid
                && list@[i].new_oid@ == updates[i].new_oid && list@[i].reference@
                == updates[i].reference,
{
    native_text_round_trip(update_text(updates));
    lemma_rows(updates);
    lemma_updates(updates);
    let list = result->Ok_0;
    assert(update_views(list@).len() == list@.len());
    assert forall|i: int| 0 <= i < updates.len() implies (#[trigger] list@[i]).old_oid@
        == updates[i].old_oid && list@[i].new_oid@ == updates[i].new_oid && list@[i].reference@
        == updates[i].reference by {
        assert(update_views(list@)[i] == list@[i]@);
    }
}

/// Input that is no text is refused.
pub proof fn only_text_is_read(input: &[u8], result: Result<Vec<RefUpdate>, HookError>)
    requires
        call_ensures(parse_ref_updates, (input,), result),
        !valid_utf8(input@),
    ensures
        result is Err,
{
}

/// A deletion names an object of zeros only.
pub open spec fn deletes(update: RefUpdate) -> bool {
    update.new_oid@.len() > 0 && forall|k: int|
        0 <= k < update.new_oid@.len() ==> #[trigger] update.new_oid@[k] == '0'
}

/// The incoming commits are those that the new objects of updates lead to, each
/// once. Deletions bring nothing, and what leads to no commit is left out; any
/// other failure to look an object up is a failure of the whole.
pub proof fn every_new_commit_comes_in(
    updates: &Vec<RefUpdate>,
    replies: Vec<Option<Result<String, HookError>>>,
    result: Result<Vec<String>, HookError>,
    commit: Seq<char>,
)
    requires
        replies@.len() == updates@.len(),
        forall|i: int|
            0 <= i < updates@.len() && !deletes(#[trigger] updates@[i]) ==> replies@[i] is Some,
        call_ensures(incoming_commits, (updates, replies), result),
    ensures
        result is Err <==> exists|i: int|
            0 <= i < updates@.len() && !deletes(#[trigger] updates@[i]) && (
            replies@[i] matches Some(Err(error)) && !(error is InvalidRevision)),
        result matches Ok(list) ==> {
            &&& views(list@).contains(commit) <==> exists|i: int|
                0 <= i < updates@.len() && !deletes(#[trigger] updates@[i]) && (
                replies@[i] matches Some(Ok(found)) && found@ == commit)
            &&& views(list@).no_duplicates()
        },
{
    let n = updates@.len() as int;
    if let Ok(list) = result {
        if brought(updates@, replies@, n, commit) {
            let i = choose|i: int|
                0 <= i < n && brings(updates@[i], #[trigger] replies@[i], commit);
            assert(!deletes(updates@[i]));
        }
        if exists|i: int|
            0 <= i < updates@.len() && !deletes(#[trigger] updates@[i]) && (
            replies@[i] matches Some(Ok(found)) && found@ == commit) {
            let i = choose|i: int|
                0 <= i < updates@.len() && !deletes(#[trigger] updates@[i]) && (
                replies@[i] matches Some(Ok(found)) && found@ == commit);
            assert(brings(updates@[i], replies@[i], commit));
        }
        let all = views(list@);
        assert forall|a: int, b: int|
            0 <= a < all.len() && 0 <= b < all.len() && a != b implies all[a] != all[b] by {
            crate::names::lemma_less_irreflexive(all[a]);
        }
        if exists|i: int|
            0 <= i < updates@.len() && !deletes(#[trigger] updates@[i]) && (
            replies@[i] matches Some(Err(error)) && !(error is InvalidRevision)) {
            let i = choose|i: int|
                0 <= i < updates@.len() && !deletes(#[trigger] updates@[i]) && (
                replies@[i] matches Some(Err(error)) && !(error is InvalidRevision));
            assert(crate::hooks::updates::stops_at(updates@[i], replies@[i]));
        }
    } else {
        let i = choose|i: int|
            0 <= i < n && crate::hooks::updates::stops_at(updates@[i], #[trigger] replies@[i]);
        assert(!deletes(updates@[i]));
    }
}

/// An object of zeros only stands for nothing.
pub proof fn zeros_stand_for_nothing(oid: &str, yes: bool)
    requires
        call_ensures(is_zero_oid, (oid,), yes),
    ensures
        yes <==> oid@.len() > 0 && forall|k: int| 0 <= k < oid@.len() ==> #[trigger] oid@[k] == '0',
{
}

/// Each receive hook finds its updates where Git puts them.
pub proof fn hooks_find_their_updates(hook: &str, bare: bool, source: UpdateSource)
    requires
        call_ensures(update_source, (hook, bare), source),
    ensures
        source is Input <==> hook@ == "pre-receive"@ || hook@ == "post-receive"@ || (hook@
            == "reference-transaction"@ && bare),
        source is Arguments <==> hook@ == "update"@,
        source is References <==> hook@ == "post-update"@,
        source is Checkout <==> hook@ == "push-to-checkout"@,
{
    reveal_strlit("pre-receive");
    reveal_strlit("post-receive");
    reveal_strlit("reference-transaction");
    reveal_strlit("update");
    reveal_strlit("post-update");
    reveal_strlit("push-to-checkout");
    assert("pre-receive"@.len() == 11 && "post-update"@.len() == 11);
    assert("post-receive"@.len() == 12 && "reference-transaction"@.len() == 21);
    assert("update"@.len() == 6 && "push-to-checkout"@.len() == 16);
    assert("pre-receive"@[1] == 'r' && "post-update"@[1] == 'o');
}

/// `update` is told the reference, the old object and the new one, in this
/// order; `push-to-checkout` is told the new object.
pub proof fn arguments_are_told_apart(
    arguments: &Vec<NativeText>,
    one: Result<RefUpdate, PipelineError>,
    other: Result<RefUpdate, PipelineError>,
)
    requires
        call_ensures(update_from_arguments, (arguments,), one),
        call_ensures(update_from_checkout, (arguments,), other),
    ensures
        one is Ok <==> arguments@.len() == 3 && valid_utf8(arguments@[0]@) && valid_utf8(
            arguments@[1]@,
        ) && valid_utf8(arguments@[2]@),
        one matches Ok(update) ==> {
            &&& encode_utf8(update.reference@) == arguments@[0]@
            &&& encode_utf8(update.old_oid@) == arguments@[1]@
            &&& encode_utf8(update.new_oid@) == arguments@[2]@
        },
        other is Ok <==> arguments@.len() > 0 && valid_utf8(arguments@[0]@),
        other matches Ok(update) ==> encode_utf8(update.new_oid@) == arguments@[0]@
            && update.reference@ == "HEAD"@,
{
    let list = native_views(arguments@);
    assert forall|i: int| 0 <= i < list.len() implies #[trigger] list[i] == arguments@[i]@ by {}
    if arguments@.len() > 0 && valid_utf8(list[0]) {
        vstd::utf8::decode_utf8_encode_utf8(list[0]);
    }
    if arguments@.len() == 3 && valid_utf8(list[1]) {
        vstd::utf8::decode_utf8_encode_utf8(list[1]);
    }
    if arguments@.len() == 3 && valid_utf8(list[2]) {
        vstd::utf8::decode_utf8_encode_utf8(list[2]);
    }
}

proof fn lemma_resolved(
    arguments: Seq<Seq<u8>>,
    replies: Seq<Option<Seq<char>>>,
    update: UpdateModel,
)
    requires
        arguments.len() == replies.len(),
    ensures
        crate::dispatch::input::resolved_updates(arguments, replies).contains(update) <==> exists|
            i: int,
        |
            0 <= i < arguments.len() && valid_utf8(#[trigger] arguments[i]) && replies[i] == Some(
                update.new_oid,
            ) && update.reference == decode_utf8(arguments[i]) && update.old_oid.len() == 0,
    decreases arguments.len(),
{
    let list = crate::dispatch::input::resolved_updates(arguments, replies);
    if arguments.len() > 0 {
        let front = arguments.drop_last();
        let before = replies.drop_last();
        let rest = crate::dispatch::input::resolved_updates(front, before);
        lemma_resolved(front, before, update);
        let n = arguments.len() - 1;
        let fits = |i: int|
            valid_utf8(arguments[i]) && replies[i] == Some(update.new_oid) && update.reference
                == decode_utf8(arguments[i]) && update.old_oid.len() == 0;
        if rest.contains(update) {
            let i = choose|i: int|
                0 <= i < front.len() && valid_utf8(#[trigger] front[i]) && before[i] == Some(
                    update.new_oid,
                ) && update.reference == decode_utf8(front[i]) && update.old_oid.len() == 0;
            assert(arguments[i] == front[i] && replies[i] == before[i]);
        }
        if list.len() > rest.len() {
            assert(list =~= rest.push(list.last()));
            if rest.contains(update) {
                let k = choose|k: int| 0 <= k < rest.len() && rest[k] == update;
                assert(list[k] == update);
            }
            if list.contains(update) && !rest.contains(update) {
                let k = choose|k: int| 0 <= k < list.len() && list[k] == update;
                assert(k == rest.len()) by {
                    if k < rest.len() {
                        assert(rest[k] == update);
                    }
                }
                assert(valid_utf8(arguments[n]));
            }
        }
        if exists|i: int|
            0 <= i < arguments.len() && valid_utf8(#[trigger] arguments[i]) && replies[i] == Some(
                update.new_oid,
            ) && update.reference == decode_utf8(arguments[i]) && update.old_oid.len() == 0 {
            let i = choose|i: int|
                0 <= i < arguments.len() && valid_utf8(#[trigger] arguments[i]) && replies[i]
                    == Some(update.new_oid) && update.reference == decode_utf8(arguments[i])
                    && update.old_oid.len() == 0;
            if i < n {
                assert(front[i] == arguments[i] && before[i] == replies[i]);
            } else {
                assert(update.old_oid =~= Seq::<char>::empty());
                assert(list.last() == update);
                assert(list[list.len() - 1] == update);
            }
        }
    }
}

/// The updates of references that were pushed are those that lead to a commit,
/// each with its own.
pub proof fn references_lead_to_their_commits(
    arguments: &Vec<NativeText>,
    commits: &Vec<Option<String>>,
    updates: Vec<RefUpdate>,
    update: UpdateModel,
)
    requires
        commits@.len() == arguments@.len(),
        call_ensures(updates_from_refs, (arguments, commits), updates),
    ensures
        update_views(updates@).contains(update) <==> exists|i: int|
            0 <= i < arguments@.len() && valid_utf8((#[trigger] arguments@[i])@) && (
            commits@[i] matches Some(found) && found@ == update.new_oid) && update.reference
                == decode_utf8(arguments@[i]@) && update.old_oid.len() == 0,
{
    let list = native_views(arguments@);
    let found = crate::dispatch::input::commit_views(commits@);
    lemma_resolved(list, found, update);
    if update_views(updates@).contains(update) {
        let i = choose|i: int|
            0 <= i < list.len() && valid_utf8(#[trigger] list[i]) && found[i] == Some(
                update.new_oid,
            ) && update.reference == decode_utf8(list[i]) && update.old_oid.len() == 0;
        assert(list[i] == arguments@[i]@);
    }
    if exists|i: int|
        0 <= i < arguments@.len() && valid_utf8((#[trigger] arguments@[i])@) && (
        commits@[i] matches Some(text) && text@ == update.new_oid) && update.reference
            == decode_utf8(arguments@[i]@) && update.old_oid.len() == 0 {
        let i = choose|i: int|
            0 <= i < arguments@.len() && valid_utf8((#[trigger] arguments@[i])@) && (
            commits@[i] matches Some(text) && text@ == update.new_oid) && update.reference
                == decode_utf8(arguments@[i]@) && update.old_oid.len() == 0;
        assert(valid_utf8(list[i]) && found[i] == Some(update.new_oid));
    }
}

/// A recipe is told the reference of every update, in order.
pub proof fn every_reference_is_told(updates: &Vec<RefUpdate>, references: Vec<String>, i: int)
    requires
        call_ensures(update_references, (updates,), references),
        0 <= i < updates@.len(),
    ensures
        references@.len() == updates@.len(),
        references@[i]@ == updates@[i].reference@,
{
    assert(views(references@).len() == references@.len());
    assert(views(references@)[i] == references@[i]@);
    assert(update_views(updates@)[i] == updates@[i]@);
}

/// Input of more than 16 MiB is refused.
pub proof fn too_much_input_is_refused(length: u64, result: Result<(), PipelineError>)
    requires
        call_ensures(check_ref_input, (length,), result),
    ensures
        result is Ok <==> length <= 16 * 1024 * 1024,
{
}

} // verus!
