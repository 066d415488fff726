//! How texts are cut, joined and compared.

use crate::names::{precedes, text_less, NameSet};
use crate::promises::pushing::{field, lemma_blank, lemma_word};
use crate::text::{
    contains, decimal, decimal_text, is_white_space, join, joined, lines, lower_ascii, pieces,
    signed_text, skip_leading, split_bytes, split_lines, split_words, trim, trim_end, trim_start,
    trimmed, views, white_space, without_leading, words,
};
use vstd::prelude::*;

verus! {

/// The number that digits spell.
pub open spec fn read(digits: Seq<char>) -> int
    decreases digits.len(),
{
    if digits.len() == 0 {
        0
    } else {
        read(digits.drop_last()) * 10 + (digits.last() as u32 - 48)
    }
}

/// A number is written in digits that read back, without a zero in front.
pub proof fn numbers_read_back(n: u64, text: String)
    requires
        call_ensures(decimal_text, (n,), text),
    ensures
        read(text@) == n,
        text@.len() > 0,
        forall|i: int| 0 <= i < text@.len() ==> 48 <= (#[trigger] text@[i]) as u32 <= 57,
        text@.len() > 1 ==> text@[0] as u32 != 48,
{
    lemma_decimal(n as nat);
    crate::text::decimal_has_digits(n as nat);
}

proof fn lemma_decimal(n: nat)
    ensures
        read(decimal(n)) == n,
        decimal(n).len() > 0,
        decimal(n)[0] as u32 == 48 ==> n == 0,
    decreases n,
{
    let text = decimal(n);
    if n < 10 {
        assert(text.drop_last() =~= Seq::<char>::empty());
        assert(read(text.drop_last()) == 0);
        assert(text.last() as u32 == 48 + n);
    } else {
        lemma_decimal(n / 10);
        assert(text.drop_last() =~= decimal(n / 10));
        assert(text.last() as u32 == 48 + n % 10);
    }
}

/// A number below zero has a sign in front.
pub proof fn signs_stand_in_front(n: i32, text: String)
    requires
        call_ensures(signed_text, (n,), text),
    ensures
        text@.len() > 0,
        n < 0 ==> text@[0] == '-' && read(text@.skip(1)) == -n,
        n >= 0 ==> read(text@) == n,
{
    reveal_strlit("-");
    if n < 0 {
        lemma_decimal((-(n as int)) as nat);
        assert(text@.skip(1) =~= decimal((-(n as int)) as nat));
    } else {
        lemma_decimal(n as nat);
    }
}

/// The characters of Unicode that are white space.
pub proof fn blanks_are_white_space(c: char, white: bool)
    requires
        call_ensures(is_white_space, (c,), white),
    ensures
        white <==> c == '\t' || c == '\n' || c == '\u{b}' || c == '\u{c}' || c == '\r' || c == ' '
            || c == '\u{85}' || c == '\u{a0}' || c == '\u{1680}' || '\u{2000}' <= c <= '\u{200a}'
            || c == '\u{2028}' || c == '\u{2029}' || c == '\u{202f}' || c == '\u{205f}' || c
            == '\u{3000}',
{
}

/// Only white space is trimmed, all of it, and from both ends.
pub proof fn trimming_takes_the_white_ends(
    text: &str,
    result: String,
    before: Seq<char>,
    middle: Seq<char>,
    after: Seq<char>,
)
    requires
        call_ensures(trim, (text,), result),
        text@ == before + middle + after,
        forall|i: int| 0 <= i < before.len() ==> white_space(#[trigger] before[i]),
        forall|i: int| 0 <= i < after.len() ==> white_space(#[trigger] after[i]),
        middle.len() > 0 ==> !white_space(middle[0]) && !white_space(middle.last()),
        middle.len() == 0 ==> after.len() == 0,
    ensures
        result@ == middle,
{
    lemma_trim_start(before, middle + after);
    assert(text@ =~= before + (middle + after));
    if middle.len() == 0 {
        assert(middle + after =~= Seq::<char>::empty());
        assert(trim_end(Seq::<char>::empty()) =~= Seq::<char>::empty());
    } else {
        assert((middle + after)[0] == middle[0]);
        assert(trim_start(middle + after) == middle + after);
        lemma_trim_end(middle, after);
    }
    assert(result@ =~= middle);
}

proof fn lemma_trim_start(before: Seq<char>, rest: Seq<char>)
    requires
        forall|i: int| 0 <= i < before.len() ==> white_space(#[trigger] before[i]),
    ensures
        trim_start(before + rest) == trim_start(rest),
    decreases before.len(),
{
    if before.len() == 0 {
        assert(before + rest =~= rest);
    } else {
        let tail = before.drop_first();
        assert forall|i: int| 0 <= i < tail.len() implies white_space(#[trigger] tail[i]) by {
            assert(tail[i] == before[i + 1]);
        }
        lemma_trim_start(tail, rest);
        assert(white_space(before[0]));
        assert((before + rest)[0] == before[0]);
        assert((before + rest).drop_first() =~= tail + rest);
    }
}

proof fn lemma_trim_end(middle: Seq<char>, after: Seq<char>)
    requires
        middle.len() > 0,
        !white_space(middle.last()),
        forall|i: int| 0 <= i < after.len() ==> white_space(#[trigger] after[i]),
    ensures
        trim_end(middle + after) == middle,
    decreases after.len(),
{
    let whole = middle + after;
    if after.len() == 0 {
        assert(whole =~= middle);
    } else {
        let front = after.drop_last();
        assert forall|i: int| 0 <= i < front.len() implies white_space(#[trigger] front[i]) by {
            assert(front[i] == after[i]);
        }
        lemma_trim_end(middle, front);
        assert(white_space(after[after.len() - 1]));
        assert(whole.last() == after.last());
        assert(whole.drop_last() =~= middle + front);
    }
}

/// Words with a blank behind each.
pub open spec fn spaced(list: Seq<Seq<char>>) -> Seq<char>
    decreases list.len(),
{
    if list.len() == 0 {
        seq![]
    } else {
        list[0] + seq![' '] + spaced(list.drop_first())
    }
}

/// Words that stand between blanks are found again, in order.
pub proof fn words_are_found_between_blanks(text: &str, list: Vec<String>, wanted: Seq<Seq<char>>)
    requires
        call_ensures(split_words, (text,), list),
        forall|i: int| 0 <= i < wanted.len() ==> field(#[trigger] wanted[i]),
        text@ == spaced(wanted),
    ensures
        views(list@) == wanted,
{
    lemma_spaced(wanted);
}

proof fn lemma_spaced(list: Seq<Seq<char>>)
    requires
        forall|i: int| 0 <= i < list.len() ==> field(#[trigger] list[i]),
    ensures
        words(spaced(list)) == list,
    decreases list.len(),
{
    if list.len() == 0 {
        assert(words(spaced(list)) =~= list);
    } else {
        let rest = list.drop_first();
        assert forall|i: int| 0 <= i < rest.len() implies field(#[trigger] rest[i]) by {
            assert(rest[i] == list[i + 1]);
        }
        lemma_spaced(rest);
        let tail = seq![' '] + spaced(rest);
        assert(field(list[0]));
        lemma_word(list[0], tail);
        lemma_blank(spaced(rest));
        assert(spaced(list) =~= list[0] + tail);
        assert(seq![list[0]] + rest =~= list);
    }
}

/// Lines with their ends.
pub open spec fn ended(list: Seq<Seq<char>>) -> Seq<char>
    decreases list.len(),
{
    if list.len() == 0 {
        seq![]
    } else {
        list[0] + seq!['\n'] + ended(list.drop_first())
    }
}

/// Lines are found again, in order, also the empty ones.
pub proof fn lines_are_found_again(text: &str, list: Vec<String>, wanted: Seq<Seq<char>>)
    requires
        call_ensures(split_lines, (text,), list),
        forall|i: int| 0 <= i < wanted.len() ==> one_line(#[trigger] wanted[i]),
        text@ == ended(wanted),
    ensures
        views(list@) == wanted,
{
    lemma_ended(wanted);
}

/// A text without an end of line in it.
pub open spec fn one_line(text: Seq<char>) -> bool {
    !text.contains('\n') && (text.len() > 0 ==> text.last() != '\r')
}

proof fn lemma_ended(list: Seq<Seq<char>>)
    requires
        forall|i: int| 0 <= i < list.len() ==> one_line(#[trigger] list[i]),
    ensures
        lines(ended(list)) == list,
    decreases list.len(),
{
    if list.len() == 0 {
        assert(lines(ended(list)) =~= list);
    } else {
        let rest = list.drop_first();
        assert forall|i: int| 0 <= i < rest.len() implies one_line(#[trigger] rest[i]) by {
            assert(rest[i] == list[i + 1]);
        }
        lemma_ended(rest);
        let first = list[0];
        let whole = ended(list);
        assert(one_line(first));
        assert forall|i: int| 0 <= i < first.len() implies whole[i] != '\n' by {
            assert(first.contains(first[i]));
        }
        crate::text::lemma_first_position_is(whole, '\n', first.len() as int);
        assert(whole.take(first.len() as int) =~= first);
        assert(whole.skip(first.len() as int + 1) =~= ended(rest));
        assert(lines(whole) =~= seq![first] + rest);
        assert(seq![first] + rest =~= list);
    }
}

/// A text is a part, with something before and after it.
pub open spec fn surrounds(
    text: Seq<char>,
    part: Seq<char>,
    before: Seq<char>,
    after: Seq<char>,
) -> bool {
    text == before + part + after
}

/// A text contains its parts, and nothing else.
pub proof fn texts_contain_their_parts(text: &str, part: &str, found: bool)
    requires
        call_ensures(contains, (text, part), found),
    ensures
        found <==> exists|before: Seq<char>, after: Seq<char>| #[trigger] surrounds(text@, part@, before, after),
{
    if found {
        let at = choose|at: int| crate::text::occurs_at(text@, part@, at);
        let before = text@.take(at);
        let after = text@.skip(at + part@.len());
        assert(text@.subrange(at, at + part@.len()) == part@);
        assert(before + part@ + after =~= text@);
        assert(surrounds(text@, part@, before, after));
    }
    if exists|before: Seq<char>, after: Seq<char>| #[trigger] surrounds(text@, part@, before, after) {
        let (before, after) = choose|before: Seq<char>, after: Seq<char>| #[trigger] surrounds(text@, part@, before, after);
        let at = before.len() as int;
        assert(text@.subrange(at, at + part@.len()) =~= part@);
        assert(crate::text::occurs_at(text@, part@, at));
    }
}

/// Texts are joined with the separator between them: what is joined without the
/// separator in it is found again by cutting there.
pub proof fn joined_texts_are_found_again(
    list: &Vec<String>,
    separator: &str,
    c: char,
    text: String,
)
    requires
        call_ensures(join, (list, separator), text),
        separator@ == seq![c],
        list@.len() > 0,
        forall|i: int| 0 <= i < list@.len() ==> !(#[trigger] list@[i])@.contains(c),
    ensures
        pieces(text@, c) == views(list@),
{
    let all = views(list@);
    assert forall|i: int| 0 <= i < all.len() implies !(#[trigger] all[i]).contains(c) by {
        assert(all[i] == list@[i]@);
    }
    lemma_joined(all, c);
}

proof fn lemma_joined(list: Seq<Seq<char>>, c: char)
    requires
        list.len() > 0,
        forall|i: int| 0 <= i < list.len() ==> !(#[trigger] list[i]).contains(c),
    ensures
        pieces(joined(list, seq![c]), c) == list,
    decreases list.len(),
{
    if list.len() == 1 {
        crate::native::lemma_single_piece(list[0], c);
        assert(seq![list[0]] =~= list);
    } else {
        let front = list.drop_last();
        assert forall|i: int| 0 <= i < front.len() implies !(#[trigger] front[i]).contains(c) by {
            assert(front[i] == list[i]);
        }
        lemma_joined(front, c);
        let last = list.last();
        assert(!list[list.len() - 1].contains(c));
        crate::native::lemma_pieces_join(joined(front, seq![c]), c, last);
        crate::native::lemma_single_piece(last, c);
        assert(joined(list, seq![c]) =~= joined(front, seq![c]).push(c) + last);
        assert(front + seq![last] =~= list);
    }
}

/// Bytes are cut at every separator, and only there.
pub proof fn bytes_are_cut_at_the_separator(
    bytes: &[u8],
    x: u8,
    list: Vec<Vec<u8>>,
    first: Seq<u8>,
    rest: Seq<u8>,
)
    requires
        call_ensures(split_bytes, (bytes, x), list),
    ensures
        !bytes@.contains(x) ==> list@.len() == 1 && list@[0]@ == bytes@,
        bytes@ == first.push(x) + rest && !first.contains(x) ==> list@.len() >= 2 && list@[0]@
            == first && list@.len() == 1 + pieces(rest, x).len(),
{
    let all = crate::text::byte_views(list@);
    assert(all.len() == list@.len());
    if !bytes@.contains(x) {
        crate::native::lemma_single_piece(bytes@, x);
        assert(all[0] == list@[0]@);
    }
    if bytes@ == first.push(x) + rest && !first.contains(x) {
        crate::native::lemma_pieces_join(first, x, rest);
        crate::native::lemma_single_piece(first, x);
        crate::text::lemma_first_position(rest, x);
        assert(all[0] == list@[0]@);
    }
}

/// Only the capital letters of ASCII become small.
pub proof fn capitals_become_small(text: &str, lowered: String, i: int)
    requires
        call_ensures(lower_ascii, (text,), lowered),
        0 <= i < text@.len(),
    ensures
        lowered@.len() == text@.len(),
        65 <= text@[i] as u32 <= 90 ==> lowered@[i] as u32 == text@[i] as u32 + 32,
        !(65 <= text@[i] as u32 <= 90) ==> lowered@[i] == text@[i],
{
}

/// Leading occurrences are skipped, all of them, and nothing else.
pub proof fn leading_characters_are_skipped(
    text: &str,
    c: char,
    rest: String,
    n: int,
    wanted: Seq<char>,
)
    requires
        call_ensures(skip_leading, (text, c), rest),
        0 <= n <= text@.len(),
        forall|i: int| 0 <= i < n ==> #[trigger] text@[i] == c,
        text@.skip(n) == wanted,
        wanted.len() > 0 ==> wanted[0] != c,
    ensures
        rest@ == wanted,
{
    lemma_without_leading(text@, c, n);
}

proof fn lemma_without_leading(text: Seq<char>, c: char, n: int)
    requires
        0 <= n <= text.len(),
        forall|i: int| 0 <= i < n ==> #[trigger] text[i] == c,
        n < text.len() ==> text[n] != c,
    ensures
        without_leading(text, c) == text.skip(n),
    decreases text.len(),
{
    if n == 0 {
        assert(text.skip(0) =~= text);
    } else {
        let rest = text.drop_first();
        assert(text[0] == c);
        assert forall|i: int| 0 <= i < n - 1 implies #[trigger] rest[i] == c by {
            assert(rest[i] == text[i + 1]);
        }
        lemma_without_leading(rest, c, n - 1);
        assert(rest.skip(n - 1) =~= text.skip(n));
    }
}

/// Texts are ordered by the first character in which they differ; a text stands
/// before every longer one that begins with it.
pub proof fn texts_are_ordered_as_in_a_dictionary(a: &str, b: &str, less: bool, k: int)
    requires
        call_ensures(precedes, (a, b), less),
        0 <= k <= a@.len(),
        k <= b@.len(),
        forall|i: int| 0 <= i < k ==> #[trigger] a@[i] == b@[i],
    ensures
        k < a@.len() && k < b@.len() && a@[k] != b@[k] ==> (less <==> (a@[k] as u32) < (
        b@[k] as u32)),
        k == a@.len() ==> (less <==> k < b@.len()),
        k == b@.len() ==> !less,
{
    lemma_less(a@, b@, k);
}

proof fn lemma_less(a: Seq<char>, b: Seq<char>, k: int)
    requires
        0 <= k <= a.len(),
        k <= b.len(),
        forall|i: int| 0 <= i < k ==> #[trigger] a[i] == b[i],
    ensures
        k < a.len() && k < b.len() && a[k] != b[k] ==> (text_less(a, b) <==> (a[k] as u32) < (
        b[k] as u32)),
        k == a.len() ==> (text_less(a, b) <==> k < b.len()),
        k == b.len() ==> !text_less(a, b),
    decreases k,
{
    if k > 0 {
        assert(a[0] == b[0]);
        let rest = a.drop_first();
        let other = b.drop_first();
        assert forall|i: int| 0 <= i < k - 1 implies #[trigger] rest[i] == other[i] by {
            assert(a[i + 1] == b[i + 1]);
        }
        lemma_less(rest, other, k - 1);
    }
}

/// A set of names holds the names of a list, and common names are those of both
/// sets.
pub proof fn sets_hold_names(
    list: &Vec<String>,
    set: NameSet,
    other: &NameSet,
    common: NameSet,
    name: &str,
    found: bool,
    i: int,
)
    requires
        call_ensures(NameSet::from_names, (list,), set),
        call_ensures(NameSet::intersection, (&set, other), common),
        call_ensures(NameSet::contains, (&set, name), found),
    ensures
        found <==> exists|k: int| 0 <= k < list@.len() && (#[trigger] list@[k])@ == name@,
        common@.contains(name@) <==> found && other@.contains(name@),
        0 <= i < set@.len() - 1 ==> text_less(set@[i], set@[i + 1]),
{
    let all = views(list@);
    if all.contains(name@) {
        let k = choose|k: int| 0 <= k < all.len() && all[k] == name@;
        assert(list@[k]@ == name@);
    }
    if exists|k: int| 0 <= k < list@.len() && (#[trigger] list@[k])@ == name@ {
        let k = choose|k: int| 0 <= k < list@.len() && (#[trigger] list@[k])@ == name@;
        assert(all[k] == name@);
    }
}

} // verus!
