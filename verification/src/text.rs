//! Character-level text operations and their mathematical meaning.

use vstd::prelude::*;
use vstd::utf8::encode_utf8;

verus! {

/// `String::push` of the standard library: the character is appended.
pub assume_specification[ String::push ](text: &mut String, ch: char)
    ensures
        final(text)@ == old(text)@.push(ch),
;

/// `String::push_str` of the standard library: the suffix is appended.
pub assume_specification[ String::push_str ](text: &mut String, suffix: &str)
    ensures
        final(text)@ == old(text)@ + suffix@,
;

/// `str::eq` of the standard library: equality of the character sequences.
pub assume_specification[ <str as PartialEq>::eq ](left: &str, right: &str) -> (equal: bool)
    ensures
        equal == (left@ == right@),
;

/// The character sequences of a list of strings.
pub open spec fn views(texts: Seq<String>) -> Seq<Seq<char>> {
    Seq::new(texts.len(), |i: int| texts[i]@)
}

/// The byte sequences of a list of byte strings.
pub open spec fn byte_views(list: Seq<Vec<u8>>) -> Seq<Seq<u8>> {
    Seq::new(list.len(), |i: int| list[i]@)
}

/// Unicode's `White_Space` property.
pub open spec fn white_space(c: char) -> bool {
    let code = c as u32;
    ||| 0x9 <= code <= 0xd
    ||| code == 0x20
    ||| code == 0x85
    ||| code == 0xa0
    ||| code == 0x1680
    ||| 0x2000 <= code <= 0x200a
    ||| code == 0x2028
    ||| code == 0x2029
    ||| code == 0x202f
    ||| code == 0x205f
    ||| code == 0x3000
}

/// The first position of `x` in `s`, or the length of `s` when it is absent.
pub open spec fn first_position<T>(s: Seq<T>, x: T) -> int
    decreases s.len(),
{
    if s.len() == 0 || s[0] == x {
        0
    } else {
        1 + first_position(s.drop_first(), x)
    }
}

/// `s` cut at every occurrence of `x`; always at least one piece.
pub open spec fn pieces<T>(s: Seq<T>, x: T) -> Seq<Seq<T>>
    decreases s.len(),
{
    let n = first_position(s, x);
    if n < 0 || n >= s.len() {
        seq![s]
    } else {
        seq![s.take(n)] + pieces(s.skip(n + 1), x)
    }
}

/// `s` without its leading white space.
pub open spec fn trim_start(s: Seq<char>) -> Seq<char>
    decreases s.len(),
{
    if s.len() > 0 && white_space(s[0]) {
        trim_start(s.drop_first())
    } else {
        s
    }
}

/// `s` without its trailing white space.
pub open spec fn trim_end(s: Seq<char>) -> Seq<char>
    decreases s.len(),
{
    if s.len() > 0 && white_space(s.last()) {
        trim_end(s.drop_last())
    } else {
        s
    }
}

/// `s` without leading and trailing white space.
pub open spec fn trimmed(s: Seq<char>) -> Seq<char> {
    trim_end(trim_start(s))
}

/// How many characters stand before the first white space of `s`.
pub open spec fn word_length(s: Seq<char>) -> int
    decreases s.len(),
{
    if s.len() == 0 || white_space(s[0]) {
        0
    } else {
        1 + word_length(s.drop_first())
    }
}

/// The maximal runs of characters that are not white space, in order.
pub open spec fn words(s: Seq<char>) -> Seq<Seq<char>>
    decreases s.len(),
{
    if s.len() == 0 {
        seq![]
    } else if white_space(s[0]) {
        words(s.drop_first())
    } else {
        let n = word_length(s);
        if 0 < n <= s.len() {
            seq![s.take(n)] + words(s.skip(n))
        } else {
            seq![]
        }
    }
}

/// `line` without one final carriage return.
pub open spec fn without_return(line: Seq<char>) -> Seq<char> {
    if line.len() > 0 && line.last() == '\r' {
        line.drop_last()
    } else {
        line
    }
}

/// The lines of a text. A line ends at a newline, or at a carriage return and
/// a newline; the final line may lack its terminator.
pub open spec fn lines(s: Seq<char>) -> Seq<Seq<char>>
    decreases s.len(),
{
    if s.len() == 0 {
        seq![]
    } else {
        let n = first_position(s, '\n');
        if n < 0 || n >= s.len() {
            seq![s]
        } else {
            seq![without_return(s.take(n))] + lines(s.skip(n + 1))
        }
    }
}

/// `part` occurs in `s` at position `at`.
pub open spec fn occurs_at(s: Seq<char>, part: Seq<char>, at: int) -> bool {
    0 <= at && at + part.len() <= s.len() && s.subrange(at, at + part.len()) == part
}

/// `part` occurs somewhere in `s`.
pub open spec fn contains_text(s: Seq<char>, part: Seq<char>) -> bool {
    exists|at: int| occurs_at(s, part, at)
}

/// The first position of a double colon, or the length of `s`.
pub open spec fn double_colon(s: Seq<char>) -> int
    decreases s.len(),
{
    if s.len() == 0 || (s.len() >= 2 && s[0] == ':' && s[1] == ':') {
        0
    } else {
        1 + double_colon(s.drop_first())
    }
}

/// `s` cut at its double colons, from left to right; at least one piece.
pub open spec fn path_parts(s: Seq<char>) -> Seq<Seq<char>>
    decreases s.len(),
{
    let n = double_colon(s);
    if n < 0 || n + 2 > s.len() {
        seq![s]
    } else {
        seq![s.take(n)] + path_parts(s.skip(n + 2))
    }
}

/// The texts of `list` with `separator` between neighbours.
pub open spec fn joined(list: Seq<Seq<char>>, separator: Seq<char>) -> Seq<char>
    decreases list.len(),
{
    if list.len() == 0 {
        seq![]
    } else if list.len() == 1 {
        list[0]
    } else {
        joined(list.drop_last(), separator) + separator + list.last()
    }
}

/// The ASCII digit of a number below ten.
pub open spec fn digit(n: nat) -> char {
    (48 + n % 10) as u8 as char
}

/// Decimal notation, without leading zeros.
pub open spec fn decimal(n: nat) -> Seq<char>
    decreases n,
{
    if n < 10 {
        seq![digit(n)]
    } else {
        decimal(n / 10).push(digit(n))
    }
}

/// Decimal notation with a sign where it is negative.
pub open spec fn signed_decimal(n: int) -> Seq<char> {
    if n < 0 {
        "-"@ + decimal((-n) as nat)
    } else {
        decimal(n as nat)
    }
}

/// `c` with an ASCII capital letter made small.
pub open spec fn ascii_lower(c: char) -> char {
    if 65 <= c as u32 <= 90 {
        (c as u32 + 32) as char
    } else {
        c
    }
}

/// Every ASCII capital letter of `s` made small.
pub open spec fn ascii_lowered(s: Seq<char>) -> Seq<char> {
    Seq::new(s.len(), |i: int| ascii_lower(s[i]))
}

/// `s` without its leading occurrences of `c`.
pub open spec fn without_leading(s: Seq<char>, c: char) -> Seq<char>
    decreases s.len(),
{
    if s.len() > 0 && s[0] == c {
        without_leading(s.drop_first(), c)
    } else {
        s
    }
}

pub proof fn lemma_first_position<T>(s: Seq<T>, x: T)
    ensures
        0 <= first_position(s, x) <= s.len(),
        first_position(s, x) < s.len() ==> s[first_position(s, x)] == x,
        forall|i: int| 0 <= i < first_position(s, x) ==> s[i] != x,
    decreases s.len(),
{
    if s.len() > 0 && s[0] != x {
        let rest = s.drop_first();
        lemma_first_position(rest, x);
        assert forall|i: int| 0 <= i < first_position(s, x) implies s[i] != x by {
            if i > 0 {
                assert(s[i] == rest[i - 1]);
            }
        }
    }
}

pub proof fn lemma_first_position_is<T>(s: Seq<T>, x: T, n: int)
    requires
        0 <= n <= s.len(),
        n < s.len() ==> s[n] == x,
        forall|i: int| 0 <= i < n ==> s[i] != x,
    ensures
        first_position(s, x) == n,
{
    lemma_first_position(s, x);
}

pub proof fn lemma_word_length(s: Seq<char>)
    ensures
        0 <= word_length(s) <= s.len(),
    decreases s.len(),
{
    if s.len() > 0 && !white_space(s[0]) {
        lemma_word_length(s.drop_first());
    }
}

pub proof fn lemma_double_colon(s: Seq<char>)
    ensures
        0 <= double_colon(s) <= s.len(),
    decreases s.len(),
{
    if s.len() > 0 && !(s.len() >= 2 && s[0] == ':' && s[1] == ':') {
        lemma_double_colon(s.drop_first());
    }
}

proof fn lemma_views_push(list: Seq<String>, item: String)
    ensures
        views(list.push(item)) == views(list).push(item@),
{
    assert(views(list.push(item)) =~= views(list).push(item@));
}

/// UTF-8 encodes a text piece by piece.
pub proof fn encoding_is_piecewise(a: Seq<char>, b: Seq<char>)
    ensures
        encode_utf8(a + b) == encode_utf8(a) + encode_utf8(b),
    decreases a.len(),
{
    if a.len() == 0 {
        assert(a + b =~= b);
        assert(encode_utf8(a) + encode_utf8(b) =~= encode_utf8(b));
    } else {
        assert((a + b).drop_first() =~= a.drop_first() + b);
        encoding_is_piecewise(a.drop_first(), b);
        assert(encode_utf8(a + b) =~= encode_utf8(a) + encode_utf8(b));
    }
}

/// Decimal notation has digits only, and at least one.
pub proof fn decimal_has_digits(n: nat)
    ensures
        decimal(n).len() > 0,
        forall|i: int| 0 <= i < decimal(n).len() ==> 48 <= (#[trigger] decimal(n)[i]) as u32 <= 57,
    decreases n,
{
    if n >= 10 {
        decimal_has_digits(n / 10);
    }
    lemma_digit(n, n);
}

proof fn lemma_digit(n: nat, m: nat)
    ensures
        digit(n) as u32 == 48 + n % 10,
        digit(n) == digit(m) ==> n % 10 == m % 10,
{
}

/// Different numbers have different decimal notations.
pub proof fn decimal_is_injective(n: nat, m: nat)
    requires
        decimal(n) == decimal(m),
    ensures
        n == m,
    decreases n,
{
    lemma_digit(n, m);
    decimal_has_digits(n / 10);
    decimal_has_digits(m / 10);
    assert(decimal(n).last() == digit(n));
    assert(decimal(m).last() == digit(m));
    if n >= 10 {
        assert(decimal(n).drop_last() =~= decimal(n / 10));
        assert(m >= 10);
        assert(decimal(m).drop_last() =~= decimal(m / 10));
        decimal_is_injective(n / 10, m / 10);
    } else {
        assert(decimal(n).len() == 1);
        assert(m < 10);
    }
}

/// The characters of a text.
pub fn chars_of(text: &str) -> (chars: Vec<char>)
    ensures
        chars@ == text@,
{
    let mut chars: Vec<char> = Vec::new();
    for c in walk: text.chars()
        invariant
            walk.seq() == text@,
            chars@ == text@.take(walk.index() as int),
    {
        chars.push(c);
    }
    chars
}

/// The text made of `chars[from..to]`.
pub fn text_of(chars: &Vec<char>, from: usize, to: usize) -> (text: String)
    requires
        from <= to <= chars.len(),
    ensures
        text@ == chars@.subrange(from as int, to as int),
{
    let mut text = String::new();
    let mut i: usize = from;
    while i < to
        invariant
            from <= i <= to <= chars.len(),
            text@ == chars@.subrange(from as int, i as int),
        decreases to - i,
    {
        text.push(chars[i]);
        i += 1;
    }
    text
}

/// The same texts again.
pub fn copy_texts(list: &Vec<String>) -> (copy: Vec<String>)
    ensures
        views(copy@) == views(list@),
{
    let mut copy: Vec<String> = Vec::new();
    let mut i: usize = 0;
    while i < list.len()
        invariant
            i <= list.len(),
            copy@.len() == i,
            forall|k: int| 0 <= k < i ==> (#[trigger] copy@[k])@ == list@[k]@,
        decreases list.len() - i,
    {
        copy.push(String::from_str(list[i].as_str()));
        i += 1;
    }
    proof {
        assert(views(copy@) =~= views(list@));
    }
    copy
}

pub fn concat2(a: &str, b: &str) -> (text: String)
    ensures
        text@ == a@ + b@,
{
    let mut text = a.to_owned();
    text.push_str(b);
    text
}

pub fn concat3(a: &str, b: &str, c: &str) -> (text: String)
    ensures
        text@ == a@ + b@ + c@,
{
    let mut text = concat2(a, b);
    text.push_str(c);
    text
}

pub fn concat4(a: &str, b: &str, c: &str, d: &str) -> (text: String)
    ensures
        text@ == a@ + b@ + c@ + d@,
{
    let mut text = concat3(a, b, c);
    text.push_str(d);
    text
}

pub fn concat5(a: &str, b: &str, c: &str, d: &str, e: &str) -> (text: String)
    ensures
        text@ == a@ + b@ + c@ + d@ + e@,
{
    let mut text = concat4(a, b, c, d);
    text.push_str(e);
    text
}

/// Whether a character is Unicode white space.
pub fn is_white_space(c: char) -> (white: bool)
    ensures
        white == white_space(c),
{
    let code = c as u32;
    (0x9 <= code && code <= 0xd) || code == 0x20 || code == 0x85 || code == 0xa0 || code == 0x1680
        || (0x2000 <= code && code <= 0x200a) || code == 0x2028 || code == 0x2029 || code == 0x202f
        || code == 0x205f || code == 0x3000
}

/// A text without leading and trailing white space.
pub fn trim(text: &str) -> (result: String)
    ensures
        result@ == trimmed(text@),
{
    let chars = chars_of(text);
    let ghost s = chars@;
    let mut from: usize = 0;
    proof {
        assert(s.skip(0) =~= s);
    }
    while from < chars.len() && is_white_space(chars[from])
        invariant
            from <= chars.len(),
            chars@ == s,
            trim_start(s.skip(from as int)) == trim_start(s),
        decreases chars.len() - from,
    {
        proof {
            assert(s.skip(from as int).drop_first() =~= s.skip(from as int + 1));
        }
        from += 1;
    }
    let ghost t = s.skip(from as int);
    assert(t == trim_start(s));
    let mut to: usize = chars.len();
    proof {
        assert(t.take(t.len() as int) =~= t);
    }
    while from < to && is_white_space(chars[to - 1])
        invariant
            from <= to <= chars.len(),
            chars@ == s,
            t == s.skip(from as int),
            trim_end(t.take(to - from)) == trim_end(t),
        decreases to - from,
    {
        proof {
            assert(t.take(to - from).drop_last() =~= t.take(to - from - 1));
            assert(t.take(to - from).last() == s[to - 1]);
        }
        to -= 1;
    }
    proof {
        assert(s.subrange(from as int, to as int) =~= t.take(to - from));
        if from < to {
            assert(t.take(to - from).last() == s[to - 1]);
        }
    }
    text_of(&chars, from, to)
}

/// The words of a text, separated by white space.
pub fn split_words(text: &str) -> (list: Vec<String>)
    ensures
        views(list@) == words(text@),
{
    let chars = chars_of(text);
    let ghost s = chars@;
    let mut list: Vec<String> = Vec::new();
    let mut i: usize = 0;
    proof {
        assert(s.skip(0) =~= s);
        assert(views(list@) + words(s) =~= words(s));
    }
    while i < chars.len()
        invariant
            i <= chars.len(),
            chars@ == s,
            views(list@) + words(s.skip(i as int)) == words(s),
        decreases chars.len() - i,
    {
        let ghost rest = s.skip(i as int);
        if is_white_space(chars[i]) {
            proof {
                assert(rest.drop_first() =~= s.skip(i as int + 1));
            }
            i += 1;
        } else {
            let mut j: usize = i;
            while j < chars.len() && !is_white_space(chars[j])
                invariant
                    i <= j <= chars.len(),
                    chars@ == s,
                    rest == s.skip(i as int),
                    word_length(rest) == (j - i) + word_length(s.skip(j as int)),
                decreases chars.len() - j,
            {
                proof {
                    assert(s.skip(j as int).drop_first() =~= s.skip(j as int + 1));
                }
                j += 1;
            }
            proof {
                assert(word_length(s.skip(j as int)) == 0);
                assert(word_length(rest) == j - i);
                lemma_word_length(rest);
                if j == i {
                    assert(!white_space(rest[0]));
                    lemma_word_length(rest.drop_first());
                }
                assert(rest.take(j - i) =~= s.subrange(i as int, j as int));
                assert(rest.skip(j - i) =~= s.skip(j as int));
                assert(words(rest) == seq![rest.take(j - i)] + words(s.skip(j as int)));
            }
            let word = text_of(&chars, i, j);
            proof {
                lemma_views_push(list@, word);
                assert(views(list@).push(word@) + words(s.skip(j as int)) =~= views(list@) + (seq![
                    rest.take(j - i),
                ] + words(s.skip(j as int))));
            }
            list.push(word);
            i = j;
        }
    }
    proof {
        assert(s.skip(i as int).len() == 0);
        assert(views(list@) + words(s.skip(i as int)) =~= views(list@));
    }
    list
}

/// The lines of a text.
pub fn split_lines(text: &str) -> (list: Vec<String>)
    ensures
        views(list@) == lines(text@),
{
    let chars = chars_of(text);
    let ghost s = chars@;
    let mut list: Vec<String> = Vec::new();
    let mut i: usize = 0;
    proof {
        assert(s.skip(0) =~= s);
        assert(views(list@) + lines(s) =~= lines(s));
    }
    while i < chars.len()
        invariant
            i <= chars.len(),
            chars@ == s,
            views(list@) + lines(s.skip(i as int)) == lines(s),
        decreases chars.len() - i,
    {
        let ghost rest = s.skip(i as int);
        let mut j: usize = i;
        while j < chars.len() && chars[j] != '\n'
            invariant
                i <= j <= chars.len(),
                chars@ == s,
                rest == s.skip(i as int),
                forall|k: int| 0 <= k < j - i ==> rest[k] != '\n',
            decreases chars.len() - j,
        {
            j += 1;
        }
        proof {
            lemma_first_position_is(rest, '\n', j - i);
        }
        let ends = j < chars.len();
        let to = if ends && i < j && chars[j - 1] == '\r' {
            j - 1
        } else {
            j
        };
        let line = text_of(&chars, i, to);
        let next = if ends {
            j + 1
        } else {
            j
        };
        proof {
            lemma_views_push(list@, line);
            if ends {
                assert(rest.take(j - i).len() == j - i);
                assert(line@ =~= without_return(rest.take(j - i)));
                assert(rest.skip(j - i + 1) =~= s.skip(next as int));
            } else {
                assert(line@ =~= rest);
                assert(s.skip(next as int).len() == 0);
                assert(lines(s.skip(next as int)) =~= seq![]);
            }
            assert(lines(rest) =~= seq![line@] + lines(s.skip(next as int)));
            assert(views(list@).push(line@) + lines(s.skip(next as int)) =~= views(list@)
                + lines(rest));
        }
        list.push(line);
        i = next;
    }
    proof {
        assert(s.skip(i as int).len() == 0);
        assert(views(list@) + lines(s.skip(i as int)) =~= views(list@));
    }
    list
}

/// Whether `part` occurs in `text`.
pub fn contains(text: &str, part: &str) -> (found: bool)
    ensures
        found == contains_text(text@, part@),
{
    let chars = chars_of(text);
    let wanted = chars_of(part);
    let ghost s = chars@;
    let ghost p = wanted@;
    if wanted.len() > chars.len() {
        return false;
    }
    let last = chars.len() - wanted.len();
    let mut i: usize = 0;
    while i <= last
        invariant
            chars@ == s,
            wanted@ == p,
            s == text@,
            p == part@,
            last == chars.len() - wanted.len(),
            i <= last + 1,
            forall|k: int| 0 <= k < i ==> !occurs_at(s, p, k),
        decreases last + 1 - i,
    {
        let mut j: usize = 0;
        while j < wanted.len() && chars[i + j] == wanted[j]
            invariant
                chars@ == s,
                wanted@ == p,
                i + wanted.len() <= chars.len(),
                j <= wanted.len(),
                forall|k: int| 0 <= k < j ==> s[i + k] == p[k],
            decreases p.len() - j,
        {
            j += 1;
        }
        if j == wanted.len() {
            proof {
                assert(s.subrange(i as int, i + p.len()) =~= p);
                assert(occurs_at(s, p, i as int));
            }
            return true;
        }
        proof {
            if occurs_at(s, p, i as int) {
                assert(s.subrange(i as int, i + p.len())[j as int] == p[j as int]);
            }
        }
        if i == usize::MAX {
            return false;
        }
        i += 1;
    }
    false
}

/// The pieces of a text between its double colons.
pub fn split_path(text: &str) -> (list: Vec<String>)
    ensures
        views(list@) == path_parts(text@),
{
    let chars = chars_of(text);
    let ghost s = chars@;
    let mut list: Vec<String> = Vec::new();
    let mut from: usize = 0;
    let mut i: usize = 0;
    proof {
        assert(s.skip(0) =~= s);
        assert(views(list@) + path_parts(s) =~= path_parts(s));
    }
    while i < chars.len()
        invariant
            from <= i <= chars.len(),
            chars@ == s,
            views(list@) + path_parts(s.skip(from as int)) == path_parts(s),
            double_colon(s.skip(from as int)) == (i - from) + double_colon(s.skip(i as int)),
        decreases chars.len() - i,
    {
        let ghost rest = s.skip(from as int);
        if chars[i] == ':' && i + 1 < chars.len() && chars[i + 1] == ':' {
            let piece = text_of(&chars, from, i);
            proof {
                assert(double_colon(s.skip(i as int)) == 0);
                assert(rest.take(i - from) =~= piece@);
                assert(rest.skip(i - from + 2) =~= s.skip(i as int + 2));
                lemma_views_push(list@, piece);
                assert(views(list@).push(piece@) + path_parts(s.skip(i as int + 2)) =~= views(list@)
                    + path_parts(rest));
            }
            list.push(piece);
            i += 2;
            from = i;
        } else {
            proof {
                assert(s.skip(i as int).drop_first() =~= s.skip(i as int + 1));
            }
            i += 1;
        }
    }
    let piece = text_of(&chars, from, i);
    proof {
        let rest = s.skip(from as int);
        assert(s.skip(i as int).len() == 0);
        assert(double_colon(rest) == rest.len());
        assert(piece@ =~= rest);
        lemma_views_push(list@, piece);
        assert(views(list@).push(piece@) =~= views(list@) + path_parts(rest));
    }
    list.push(piece);
    list
}

/// The texts of a list with a separator between neighbours.
pub fn join(list: &Vec<String>, separator: &str) -> (text: String)
    ensures
        text@ == joined(views(list@), separator@),
{
    let ghost all = views(list@);
    let mut text = String::new();
    let mut i: usize = 0;
    while i < list.len()
        invariant
            i <= list.len(),
            all == views(list@),
            text@ == joined(all.take(i as int), separator@),
        decreases list.len() - i,
    {
        if i > 0 {
            text.push_str(separator);
        }
        text.push_str(list[i].as_str());
        proof {
            let next = all.take(i as int + 1);
            assert(next.drop_last() =~= all.take(i as int));
            assert(next.last() == list@[i as int]@);
            if i == 0 {
                assert(text@ =~= next[0]);
            }
        }
        i += 1;
    }
    proof {
        assert(all.take(list.len() as int) =~= all);
    }
    text
}

fn digit_char(n: u64) -> (c: char)
    requires
        n < 10,
    ensures
        c == digit(n as nat),
{
    (48 + n as u8) as char
}

/// The decimal notation of a number.
pub fn decimal_text(n: u64) -> (text: String)
    ensures
        text@ == decimal(n as nat),
    decreases n,
{
    let mut text = if n < 10 {
        String::new()
    } else {
        decimal_text(n / 10)
    };
    text.push(digit_char(n % 10));
    proof {
        if n < 10 {
            assert(text@ =~= seq![digit(n as nat)]);
        }
    }
    text
}

/// Decimal notation of a number that may be negative.
pub fn signed_text(n: i32) -> (text: String)
    ensures
        text@ == signed_decimal(n as int),
{
    if n < 0 {
        let size: u64 = (-(n as i64)) as u64;
        concat2("-", decimal_text(size).as_str())
    } else {
        decimal_text(n as u64)
    }
}

/// A text with its ASCII capital letters made small.
pub fn lower_ascii(text: &str) -> (lowered: String)
    ensures
        lowered@ == ascii_lowered(text@),
{
    let chars = chars_of(text);
    let mut lowered = String::new();
    let mut i: usize = 0;
    while i < chars.len()
        invariant
            i <= chars.len(),
            chars@ == text@,
            lowered@ == ascii_lowered(text@).take(i as int),
        decreases chars.len() - i,
    {
        let code = chars[i] as u32;
        let c = if 65 <= code && code <= 90 {
            (code as u8 + 32) as char
        } else {
            chars[i]
        };
        lowered.push(c);
        proof {
            assert(lowered@ =~= ascii_lowered(text@).take(i as int + 1));
        }
        i += 1;
    }
    proof {
        assert(ascii_lowered(text@).take(i as int) =~= ascii_lowered(text@));
    }
    lowered
}

/// A text without its leading occurrences of `c`.
pub fn skip_leading(text: &str, c: char) -> (rest: String)
    ensures
        rest@ == without_leading(text@, c),
{
    let chars = chars_of(text);
    let ghost s = chars@;
    let mut from: usize = 0;
    proof {
        assert(s.skip(0) =~= s);
    }
    while from < chars.len() && chars[from] == c
        invariant
            from <= chars.len(),
            chars@ == s,
            without_leading(s.skip(from as int), c) == without_leading(s, c),
        decreases chars.len() - from,
    {
        proof {
            assert(s.skip(from as int).drop_first() =~= s.skip(from as int + 1));
        }
        from += 1;
    }
    proof {
        assert(s.subrange(from as int, s.len() as int) =~= s.skip(from as int));
    }
    text_of(&chars, from, chars.len())
}

/// The pieces of a byte string between occurrences of `x`.
pub fn split_bytes(bytes: &[u8], x: u8) -> (list: Vec<Vec<u8>>)
    ensures
        byte_views(list@) == pieces(bytes@, x),
{
    let ghost s = bytes@;
    let mut list: Vec<Vec<u8>> = Vec::new();
    let mut piece: Vec<u8> = Vec::new();
    let mut from: Ghost<int> = Ghost(0);
    let mut i: usize = 0;
    proof {
        assert(s.skip(0) =~= s);
        assert(byte_views(list@) + pieces(s, x) =~= pieces(s, x));
    }
    while i < bytes.len()
        invariant
            i <= bytes.len(),
            bytes@ == s,
            0 <= from@ <= i,
            piece@ == s.subrange(from@, i as int),
            forall|k: int| from@ <= k < i ==> s[k] != x,
            byte_views(list@) + pieces(s.skip(from@), x) == pieces(s, x),
        decreases bytes.len() - i,
    {
        if bytes[i] == x {
            proof {
                let rest = s.skip(from@);
                lemma_first_position_is(rest, x, i - from@);
                assert(rest.take(i - from@) =~= piece@);
                assert(rest.skip(i - from@ + 1) =~= s.skip(i as int + 1));
            }
            let ghost before = byte_views(list@);
            list.push(piece);
            proof {
                assert(byte_views(list@) =~= before.push(piece@));
                assert(byte_views(list@) + pieces(s.skip(i as int + 1), x) =~= before + pieces(
                    s.skip(from@),
                    x,
                ));
                from@ = i as int + 1;
            }
            piece = Vec::new();
        } else {
            piece.push(bytes[i]);
        }
        i += 1;
    }
    proof {
        let rest = s.skip(from@);
        lemma_first_position_is(rest, x, rest.len() as int);
        assert(piece@ =~= rest);
    }
    let ghost before = byte_views(list@);
    list.push(piece);
    proof {
        assert(byte_views(list@) =~= before.push(piece@));
        assert(byte_views(list@) =~= before + pieces(s.skip(from@), x));
    }
    list
}

} // verus!
