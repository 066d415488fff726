//! Native byte strings: command-line arguments, environment values and paths
//! as a Unix system hands them over.

use crate::text::{
    byte_views, chars_of, first_position, lemma_first_position_is, pieces, split_bytes, text_of,
};
use vstd::prelude::*;
use vstd::std_specs::cmp::PartialEqSpecImpl;
use vstd::utf8::{decode_utf8, encode_utf8, valid_utf8};

verus! {

/// What `String::from_utf8_lossy` makes of a byte string that is not UTF-8.
pub uninterp spec fn with_replacements(bytes: Seq<u8>) -> Seq<char>;

/// A byte string as it is shown: the text that it encodes, if it is UTF-8.
pub open spec fn lossy(bytes: Seq<u8>) -> Seq<char> {
    if valid_utf8(bytes) {
        decode_utf8(bytes)
    } else {
        with_replacements(bytes)
    }
}

/// What formatting a string slice with `{:?}` gives.
pub uninterp spec fn debug_quoted(text: Seq<char>) -> Seq<char>;

/// What formatting the UTF-8 chunks of a byte string with `{:?}` gives.
pub uninterp spec fn debug_chunks(bytes: Seq<u8>) -> Seq<char>;

/// `String::from_utf8`: succeeds exactly on valid UTF-8, with the text that the
/// bytes encode.
#[verifier::external_body]
pub(crate) fn from_utf8(bytes: Vec<u8>) -> (text: Option<String>)
    ensures
        text is Some <==> valid_utf8(bytes@),
        text matches Some(t) ==> t@ == decode_utf8(bytes@),
{
    String::from_utf8(bytes).ok()
}

/// `String::from_utf8_lossy`: invalid sequences are replaced in a way that is
/// only named here; valid UTF-8 is decoded unchanged.
#[verifier::external_body]
pub(crate) fn lossy_text(bytes: &[u8]) -> (text: String)
    ensures
        valid_utf8(bytes@) ==> text@ == decode_utf8(bytes@),
        !valid_utf8(bytes@) ==> text@ == with_replacements(bytes@),
{
    String::from_utf8_lossy(bytes).into_owned()
}

/// The `Debug` formatting of a string slice, which is only named here.
#[verifier::external_body]
pub(crate) fn debug_text(text: &str) -> (quoted: String)
    ensures
        quoted@ == debug_quoted(text@),
{
    format!("{:?}", text)
}

/// The `Debug` formatting of the iterator that `utf8_chunks` gives for a byte
/// string, which is only named here.
#[verifier::external_body]
fn chunks_text(bytes: &[u8]) -> (text: String)
    ensures
        text@ == debug_chunks(bytes@),
{
    format!("{:?}", bytes.utf8_chunks())
}

/// What is left of a text from its first quotation mark on.
pub open spec fn from_quotation(s: Seq<char>) -> Seq<char>
    decreases s.len(),
{
    if s.len() == 0 || s[0] == '"' {
        s
    } else {
        from_quotation(s.drop_first())
    }
}

/// What is left of a text up to its last quotation mark.
pub open spec fn to_quotation(s: Seq<char>) -> Seq<char>
    decreases s.len(),
{
    if s.len() == 0 || s.last() == '"' {
        s
    } else {
        to_quotation(s.drop_last())
    }
}

/// A native string in quotation marks, as the system shows it for debugging:
/// with bytes that are no UTF-8 in hexadecimal. The chunks of a byte string are
/// shown in this notation, with the name of their type around it.
pub open spec fn native_quoted(bytes: Seq<u8>) -> Seq<char> {
    to_quotation(from_quotation(debug_chunks(bytes)))
}

/// A native string in quotation marks.
fn quoted_bytes(bytes: &[u8]) -> (text: String)
    ensures
        text@ == native_quoted(bytes@),
{
    let chars = chars_of(chunks_text(bytes).as_str());
    let ghost s = chars@;
    let mut from: usize = 0;
    proof {
        assert(s.skip(0) =~= s);
    }
    while from < chars.len() && chars[from] != '"'
        invariant
            from <= chars.len(),
            chars@ == s,
            from_quotation(s.skip(from as int)) == from_quotation(s),
        decreases chars.len() - from,
    {
        proof {
            assert(s.skip(from as int).drop_first() =~= s.skip(from as int + 1));
        }
        from += 1;
    }
    let ghost t = s.skip(from as int);
    assert(t == from_quotation(s));
    let mut to: usize = chars.len();
    proof {
        assert(t.take(t.len() as int) =~= t);
    }
    while from < to && chars[to - 1] != '"'
        invariant
            from <= to <= chars.len(),
            chars@ == s,
            t == s.skip(from as int),
            to_quotation(t.take(to - from)) == to_quotation(t),
        decreases to - from,
    {
        proof {
            assert(t.take(to - from).drop_last() =~= t.take(to - from - 1));
            assert(t.take(to - from).last() == s[to - 1]);
        }
        to -= 1;
    }
    proof {
        assert(s.subrange(from as int, to as int) =~= t.take(to - from));
        if from < to {
            assert(t.take(to - from).last() == s[to - 1]);
        }
    }
    text_of(&chars, from, to)
}

/// A copy of a byte string.
pub fn copy_bytes(bytes: &[u8]) -> (copy: Vec<u8>)
    ensures
        copy@ == bytes@,
{
    let mut copy: Vec<u8> = Vec::new();
    append_bytes(&mut copy, bytes);
    proof {
        assert(copy@ =~= bytes@);
    }
    copy
}

/// Appends a byte string.
pub fn append_bytes(target: &mut Vec<u8>, bytes: &[u8])
    ensures
        final(target)@ == old(target)@ + bytes@,
{
    let ghost before = target@;
    let mut i: usize = 0;
    proof {
        assert(before + bytes@.take(0) =~= before);
    }
    while i < bytes.len()
        invariant
            i <= bytes.len(),
            target@ == before + bytes@.take(i as int),
        decreases bytes.len() - i,
    {
        target.push(bytes[i]);
        proof {
            assert(bytes@.take(i as int + 1) =~= bytes@.take(i as int).push(bytes@[i as int]));
            assert(target@ =~= before + bytes@.take(i as int + 1));
        }
        i += 1;
    }
    proof {
        assert(bytes@.take(i as int) =~= bytes@);
    }
}

/// Whether two byte strings are the same.
pub fn same_bytes(left: &[u8], right: &[u8]) -> (same: bool)
    ensures
        same == (left@ == right@),
{
    if left.len() != right.len() {
        return false;
    }
    let mut i: usize = 0;
    while i < left.len()
        invariant
            i <= left.len(),
            left.len() == right.len(),
            forall|k: int| 0 <= k < i ==> left@[k] == right@[k],
        decreases left.len() - i,
    {
        if left[i] != right[i] {
            proof {
                assert(left@[i as int] != right@[i as int]);
            }
            return false;
        }
        i += 1;
    }
    proof {
        assert(left@ =~= right@);
    }
    true
}

/// A native string: any sequence of bytes, usually UTF-8.
#[derive(Debug, PartialEq, Eq)]
pub struct NativeText {
    pub bytes: Vec<u8>,
}

impl View for NativeText {
    type V = Seq<u8>;

    open spec fn view(&self) -> Seq<u8> {
        self.bytes@
    }
}

impl Clone for NativeText {
    fn clone(&self) -> (copy: NativeText)
        ensures
            copy@ == self@,
    {
        NativeText { bytes: copy_bytes(self.bytes.as_slice()) }
    }
}

impl NativeText {
    /// The UTF-8 encoding of a text.
    pub fn from_text(text: &str) -> (native: NativeText)
        ensures
            native@ == encode_utf8(text@),
    {
        NativeText { bytes: copy_bytes(text.as_bytes()) }
    }

    /// The text that the bytes encode, if they are valid UTF-8.
    pub fn to_text(&self) -> (text: Option<String>)
        ensures
            text is Some <==> valid_utf8(self@),
            text matches Some(t) ==> t@ == decode_utf8(self@),
    {
        from_utf8(copy_bytes(self.bytes.as_slice()))
    }

    /// The text with invalid sequences replaced.
    pub fn shown(&self) -> (text: String)
        ensures
            text@ == lossy(self@),
    {
        lossy_text(self.bytes.as_slice())
    }

    /// The text in quotation marks, with everything in it told apart.
    pub fn quoted(&self) -> (text: String)
        ensures
            text@ == native_quoted(self@),
    {
        quoted_bytes(self.bytes.as_slice())
    }

    /// Whether the bytes are the UTF-8 encoding of `text`.
    pub fn is_text(&self, text: &str) -> (same: bool)
        ensures
            same == (self@ == encode_utf8(text@)),
    {
        same_bytes(self.bytes.as_slice(), text.as_bytes())
    }
}

/// Reading back an encoded text gives the text.
pub proof fn native_text_round_trip(text: Seq<char>)
    ensures
        valid_utf8(encode_utf8(text)),
        decode_utf8(encode_utf8(text)) == text,
{
    vstd::utf8::encode_utf8_valid_utf8(text);
    vstd::utf8::encode_utf8_decode_utf8(text);
}

/// The views of a list of native strings.
pub open spec fn native_views(list: Seq<NativeText>) -> Seq<Seq<u8>> {
    Seq::new(list.len(), |i: int| list[i]@)
}

pub const SLASH: u8 = 47;

pub const DOT: u8 = 46;

/// A path that starts at the file-system root.
pub open spec fn rooted(path: Seq<u8>) -> bool {
    path.len() > 0 && path[0] == SLASH
}

/// A piece between slashes that names something: neither empty nor a single dot.
pub open spec fn significant(piece: Seq<u8>) -> bool {
    piece.len() > 0 && piece != seq![DOT]
}

/// The significant pieces of a list, in order.
pub open spec fn significant_pieces(list: Seq<Seq<u8>>) -> Seq<Seq<u8>>
    decreases list.len(),
{
    if list.len() == 0 {
        seq![]
    } else {
        let rest = significant_pieces(list.drop_last());
        if significant(list.last()) {
            rest.push(list.last())
        } else {
            rest
        }
    }
}

/// The components of a path below its root. Repeated slashes and inner dots
/// name nothing; a leading dot of a relative path is kept.
pub open spec fn path_names(path: Seq<u8>) -> Seq<Seq<u8>> {
    let all = pieces(path, SLASH);
    let kept = significant_pieces(all);
    if !rooted(path) && all.len() > 0 && all[0] == seq![DOT] {
        seq![seq![DOT]] + kept
    } else {
        kept
    }
}

/// The two paths have the same components.
pub open spec fn same_path(a: Seq<u8>, b: Seq<u8>) -> bool {
    rooted(a) == rooted(b) && path_names(a) == path_names(b)
}

/// `path` is `base` or lies below it. Everything lies below the empty path.
pub open spec fn path_within(path: Seq<u8>, base: Seq<u8>) -> bool {
    (rooted(path) == rooted(base) || base.len() == 0) && path_names(base).is_prefix_of(
        path_names(path),
    )
}

pub proof fn lemma_empty_path(path: Seq<u8>)
    requires
        path.len() == 0,
    ensures
        path_names(path).len() == 0,
{
    reveal_with_fuel(significant_pieces, 2);
    lemma_single_piece(path, SLASH);
    assert(pieces(path, SLASH).drop_last() =~= seq![]);
}

/// What is left of a path below `base`.
pub open spec fn path_rest(path: Seq<u8>, base: Seq<u8>) -> Seq<u8> {
    spelled(
        rooted(path) && !rooted(base),
        path_names(path).skip(path_names(base).len() as int),
    )
}

/// `name` looked up from `path`: an absolute name stands for itself.
pub open spec fn path_join(path: Seq<u8>, name: Seq<u8>) -> Seq<u8> {
    if rooted(name) {
        name
    } else if path.len() == 0 || path.last() == SLASH {
        path + name
    } else {
        path.push(SLASH) + name
    }
}

/// The path with the given components, written without anything redundant.
pub open spec fn spelled(from_root: bool, names: Seq<Seq<u8>>) -> Seq<u8>
    decreases names.len(),
{
    if names.len() == 0 {
        if from_root {
            seq![SLASH]
        } else {
            seq![]
        }
    } else {
        path_join(spelled(from_root, names.drop_last()), names.last())
    }
}

/// An absolute path without anything redundant, as the system resolves it.
pub open spec fn canonical(path: Seq<u8>) -> bool {
    rooted(path) && path == spelled(true, path_names(path))
}

/// A path and the directories above it, nearest first.
pub open spec fn ancestors_of(path: Seq<u8>) -> Seq<Seq<u8>> {
    let names = path_names(path);
    Seq::new(
        names.len() + 1,
        |k: int| spelled(rooted(path), names.take(names.len() - k)),
    )
}

/// A path, held as the bytes that the system uses.
#[derive(Debug, Eq)]
pub struct HostPath {
    pub bytes: Vec<u8>,
}

impl PartialEq for HostPath {
    /// Paths are equal if they have the same components.
    fn eq(&self, other: &HostPath) -> (same: bool) {
        self.is_same(other)
    }
}

impl PartialEqSpecImpl for HostPath {
    open spec fn obeys_eq_spec() -> bool {
        true
    }

    open spec fn eq_spec(&self, other: &HostPath) -> bool {
        same_path(self@, other@)
    }
}

impl View for HostPath {
    type V = Seq<u8>;

    open spec fn view(&self) -> Seq<u8> {
        self.bytes@
    }
}

impl Clone for HostPath {
    fn clone(&self) -> (copy: HostPath)
        ensures
            copy@ == self@,
    {
        HostPath { bytes: copy_bytes(self.bytes.as_slice()) }
    }
}

/// The views of a list of paths.
pub open spec fn path_views(list: Seq<HostPath>) -> Seq<Seq<u8>> {
    Seq::new(list.len(), |i: int| list[i]@)
}

/// The view of an optional path.
pub open spec fn path_view(path: Option<&HostPath>) -> Option<Seq<u8>> {
    match path {
        Some(p) => Some(p@),
        None => None,
    }
}

fn is_significant(piece: &Vec<u8>) -> (kept: bool)
    ensures
        kept == significant(piece@),
{
    if piece.len() == 0 {
        return false;
    }
    let dot = piece.len() == 1 && piece[0] == DOT;
    proof {
        if dot {
            assert(piece@ =~= seq![DOT]);
        }
    }
    !dot
}

impl HostPath {
    /// The path that a text spells.
    pub fn from_text(text: &str) -> (path: HostPath)
        ensures
            path@ == encode_utf8(text@),
    {
        HostPath { bytes: copy_bytes(text.as_bytes()) }
    }

    /// The path as text, if it is valid UTF-8.
    pub fn to_text(&self) -> (text: Option<String>)
        ensures
            text is Some <==> valid_utf8(self@),
            text matches Some(t) ==> t@ == decode_utf8(self@),
    {
        from_utf8(copy_bytes(self.bytes.as_slice()))
    }

    /// The path for a message, with invalid sequences replaced.
    pub fn shown(&self) -> (text: String)
        ensures
            text@ == lossy(self@),
    {
        lossy_text(self.bytes.as_slice())
    }

    /// The path in quotation marks, with everything in it told apart.
    pub fn quoted(&self) -> (text: String)
        ensures
            text@ == native_quoted(self@),
    {
        quoted_bytes(self.bytes.as_slice())
    }

    pub fn is_absolute(&self) -> (absolute: bool)
        ensures
            absolute == rooted(self@),
    {
        self.bytes.len() > 0 && self.bytes[0] == SLASH
    }

    /// `name` looked up from this path.
    pub fn join_bytes(&self, name: &[u8]) -> (path: HostPath)
        ensures
            path@ == path_join(self@, name@),
    {
        if name.len() > 0 && name[0] == SLASH {
            return HostPath { bytes: copy_bytes(name) };
        }
        let mut bytes = copy_bytes(self.bytes.as_slice());
        if bytes.len() > 0 && bytes[bytes.len() - 1] != SLASH {
            bytes.push(SLASH);
        }
        append_bytes(&mut bytes, name);
        HostPath { bytes }
    }

    /// `name` looked up from this path.
    pub fn join(&self, name: &str) -> (path: HostPath)
        ensures
            path@ == path_join(self@, encode_utf8(name@)),
    {
        self.join_bytes(name.as_bytes())
    }

    /// The components below the root.
    pub fn components(&self) -> (names: Vec<Vec<u8>>)
        ensures
            byte_views(names@) == path_names(self@),
    {
        let all = split_bytes(self.bytes.as_slice(), SLASH);
        let ghost parts = byte_views(all@);
        let mut names: Vec<Vec<u8>> = Vec::new();
        let keep_dot = !self.is_absolute() && all.len() > 0 && all[0].len() == 1 && all[0][0] == DOT;
        let ghost lead: Seq<Seq<u8>> = if keep_dot {
            seq![seq![DOT]]
        } else {
            seq![]
        };
        if keep_dot {
            let mut dot: Vec<u8> = Vec::new();
            dot.push(DOT);
            names.push(dot);
            proof {
                assert(all@[0]@ =~= seq![DOT]);
            }
        }
        proof {
            assert(byte_views(names@) =~= lead);
            assert(significant_pieces(parts.take(0)) =~= seq![]);
            assert(byte_views(names@) =~= lead + significant_pieces(parts.take(0)));
            if all.len() > 0 {
                assert(parts[0] == all@[0]@);
            }
        }
        let mut i: usize = 0;
        while i < all.len()
            invariant
                i <= all.len(),
                parts == byte_views(all@),
                byte_views(names@) == lead + significant_pieces(parts.take(i as int)),
            decreases all.len() - i,
        {
            let ghost before = byte_views(names@);
            proof {
                let next = parts.take(i as int + 1);
                assert(next.drop_last() =~= parts.take(i as int));
                assert(next.last() == all@[i as int]@);
            }
            if is_significant(&all[i]) {
                names.push(copy_bytes(all[i].as_slice()));
                proof {
                    assert(byte_views(names@) =~= before.push(all@[i as int]@));
                    assert(byte_views(names@) =~= lead + significant_pieces(
                        parts.take(i as int + 1),
                    ));
                }
            }
            i += 1;
        }
        proof {
            assert(parts.take(i as int) =~= parts);
            assert(lead + significant_pieces(parts) =~= path_names(self@));
        }
        names
    }

    /// The path with the given components.
    pub fn spell(from_root: bool, names: &Vec<Vec<u8>>) -> (path: HostPath)
        ensures
            path@ == spelled(from_root, byte_views(names@)),
    {
        let ghost all = byte_views(names@);
        let mut path = HostPath { bytes: Vec::new() };
        if from_root {
            path.bytes.push(SLASH);
        }
        proof {
            assert(path@ =~= spelled(from_root, all.take(0)));
        }
        let mut i: usize = 0;
        while i < names.len()
            invariant
                i <= names.len(),
                all == byte_views(names@),
                path@ == spelled(from_root, all.take(i as int)),
            decreases names.len() - i,
        {
            path = path.join_bytes(names[i].as_slice());
            proof {
                let next = all.take(i as int + 1);
                assert(next.drop_last() =~= all.take(i as int));
                assert(next.last() == names@[i as int]@);
            }
            i += 1;
        }
        proof {
            assert(all.take(i as int) =~= all);
        }
        path
    }

    /// The directory above, unless there is none.
    pub fn parent(&self) -> (parent: Option<HostPath>)
        ensures
            parent is Some <==> path_names(self@).len() > 0,
            parent matches Some(above) ==> above@ == spelled(
                rooted(self@),
                path_names(self@).drop_last(),
            ),
    {
        let mut names = self.components();
        let ghost all = byte_views(names@);
        if names.len() == 0 {
            return None;
        }
        let ghost before = names@;
        names.pop();
        proof {
            assert(byte_views(names@) =~= all.drop_last());
        }
        Some(HostPath::spell(self.is_absolute(), &names))
    }

    /// The last component, if the path ends in a name.
    pub fn file_name(&self) -> (name: Option<NativeText>)
        ensures
            name is Some <==> path_names(self@).len() > 0 && path_names(self@).last() != seq![
                DOT,
                DOT,
            ] && path_names(self@).last() != seq![DOT],
            name matches Some(last) ==> last@ == path_names(self@).last(),
    {
        let names = self.components();
        let ghost all = byte_views(names@);
        if names.len() == 0 {
            return None;
        }
        let last = &names[names.len() - 1];
        proof {
            assert(all.last() == last@);
        }
        if (last.len() == 1 && last[0] == DOT) || (last.len() == 2 && last[0] == DOT && last[1]
            == DOT) {
            proof {
                if last.len() == 1 {
                    assert(last@ =~= seq![DOT]);
                } else {
                    assert(last@ =~= seq![DOT, DOT]);
                }
            }
            return None;
        }
        Some(NativeText { bytes: copy_bytes(last.as_slice()) })
    }

    /// This path and the directories above it, nearest first.
    pub fn ancestors(&self) -> (list: Vec<HostPath>)
        ensures
            path_views(list@) == ancestors_of(self@),
    {
        let mut names = self.components();
        let ghost all = byte_views(names@);
        let ghost n = all.len() as int;
        let from_root = self.is_absolute();
        let mut list: Vec<HostPath> = Vec::new();
        proof {
            assert(all.take(n) =~= all);
        }
        let mut left: usize = names.len();
        while left > 0
            invariant
                left <= n,
                all == path_names(self@),
                n == all.len(),
                from_root == rooted(self@),
                byte_views(names@) == all.take(left as int),
                list.len() == n - left,
                path_views(list@) == ancestors_of(self@).take(n - left),
            decreases left,
        {
            let path = HostPath::spell(from_root, &names);
            proof {
                assert(path_views(list@.push(path)) =~= path_views(list@).push(path@));
                assert(ancestors_of(self@).take(n - left + 1) =~= ancestors_of(self@).take(
                    n - left,
                ).push(path@));
                assert(byte_views(names@.drop_last()) =~= all.take(left - 1));
            }
            list.push(path);
            names.pop();
            left -= 1;
        }
        let path = HostPath::spell(from_root, &names);
        proof {
            assert(path_views(list@.push(path)) =~= path_views(list@).push(path@));
            assert(ancestors_of(self@) =~= ancestors_of(self@).take(n).push(path@));
        }
        list.push(path);
        list
    }

    /// Whether both paths have the same components.
    pub fn is_same(&self, other: &HostPath) -> (same: bool)
        ensures
            same == same_path(self@, other@),
    {
        let left = self.components();
        let right = other.components();
        let ghost a = byte_views(left@);
        let ghost b = byte_views(right@);
        proof {
            assert(a.len() == left.len() && b.len() == right.len());
        }
        if self.is_absolute() != other.is_absolute() || left.len() != right.len() {
            return false;
        }
        let prefix = is_list_prefix(&left, &right);
        proof {
            if prefix {
                assert(b.take(a.len() as int) =~= b);
                assert(a =~= b);
            }
        }
        prefix
    }

    /// Whether this path is `base` or lies below it.
    pub fn starts_with(&self, base: &HostPath) -> (within: bool)
        ensures
            within == path_within(self@, base@),
    {
        let names = self.components();
        let wanted = base.components();
        (self.is_absolute() == base.is_absolute() || base.bytes.len() == 0) && is_list_prefix(
            &wanted,
            &names,
        )
    }

    /// What is left of this path below `base`, if it lies there.
    pub fn relative_to(&self, base: &HostPath) -> (rest: Option<HostPath>)
        ensures
            rest is Some <==> path_within(self@, base@),
            rest matches Some(path) ==> path@ == path_rest(self@, base@),
    {
        if !self.starts_with(base) {
            return None;
        }
        let names = self.components();
        let skipped = base.components().len();
        let ghost all = byte_views(names@);
        let mut rest: Vec<Vec<u8>> = Vec::new();
        let mut i: usize = skipped;
        while i < names.len()
            invariant
                skipped <= i <= names.len(),
                all == byte_views(names@),
                byte_views(rest@) =~= all.subrange(skipped as int, i as int),
            decreases names.len() - i,
        {
            let ghost before = rest@;
            rest.push(copy_bytes(names[i].as_slice()));
            proof {
                assert(byte_views(rest@) =~= byte_views(before).push(rest@.last()@));
            }
            i += 1;
        }
        proof {
            assert(all.subrange(skipped as int, i as int) =~= all.skip(skipped as int));
        }
        Some(HostPath::spell(self.is_absolute() && !base.is_absolute(), &rest))
    }
}

fn is_list_prefix(prefix: &Vec<Vec<u8>>, list: &Vec<Vec<u8>>) -> (is_prefix: bool)
    ensures
        is_prefix == byte_views(prefix@).is_prefix_of(byte_views(list@)),
{
    let ghost a = byte_views(prefix@);
    let ghost b = byte_views(list@);
    if prefix.len() > list.len() {
        return false;
    }
    let mut i: usize = 0;
    while i < prefix.len()
        invariant
            i <= prefix.len() <= list.len(),
            a == byte_views(prefix@),
            b == byte_views(list@),
            forall|k: int| 0 <= k < i ==> a[k] == b[k],
        decreases prefix.len() - i,
    {
        if !same_bytes(prefix[i].as_slice(), list[i].as_slice()) {
            proof {
                assert(a[i as int] != b[i as int]);
                assert(b.subrange(0, a.len() as int)[i as int] == b[i as int]);
            }
            return false;
        }
        proof {
            assert(a[i as int] == b[i as int]);
        }
        i += 1;
    }
    proof {
        assert(a =~= b.subrange(0, a.len() as int));
    }
    true
}

/// A name that a single component can have.
pub open spec fn plain_name(name: Seq<u8>) -> bool {
    significant(name) && !name.contains(SLASH)
}

pub proof fn lemma_pieces_join<T>(s: Seq<T>, x: T, t: Seq<T>)
    ensures
        pieces(s.push(x) + t, x) == pieces(s, x) + pieces(t, x),
    decreases s.len(),
{
    let whole = s.push(x) + t;
    let n = first_position(s, x);
    crate::text::lemma_first_position(s, x);
    if n >= s.len() {
        assert forall|i: int| 0 <= i < s.len() implies whole[i] != x by {
            assert(whole[i] == s[i]);
        }
        assert(whole[s.len() as int] == x);
        lemma_first_position_is(whole, x, s.len() as int);
        assert(whole.take(s.len() as int) =~= s);
        assert(whole.skip(s.len() as int + 1) =~= t);
    } else {
        assert forall|i: int| 0 <= i < n implies whole[i] != x by {
            assert(whole[i] == s[i]);
        }
        assert(whole[n] == x);
        lemma_first_position_is(whole, x, n);
        assert(whole.take(n) =~= s.take(n));
        assert(whole.skip(n + 1) =~= s.skip(n + 1).push(x) + t);
        lemma_pieces_join(s.skip(n + 1), x, t);
        assert(pieces(whole, x) =~= pieces(s, x) + pieces(t, x));
    }
}

pub proof fn lemma_single_piece<T>(s: Seq<T>, x: T)
    requires
        !s.contains(x),
    ensures
        pieces(s, x) == seq![s],
{
    assert forall|i: int| 0 <= i < s.len() implies s[i] != x by {
        assert(s.contains(s[i]));
    }
    lemma_first_position_is(s, x, s.len() as int);
}

proof fn lemma_pieces_free<T>(s: Seq<T>, x: T, i: int)
    requires
        0 <= i < pieces(s, x).len(),
    ensures
        !pieces(s, x)[i].contains(x),
    decreases s.len(),
{
    let n = first_position(s, x);
    crate::text::lemma_first_position(s, x);
    if n >= s.len() {
        assert(pieces(s, x)[i] == s);
    } else if i == 0 {
        assert(pieces(s, x)[0] == s.take(n));
    } else {
        assert(pieces(s, x)[i] == pieces(s.skip(n + 1), x)[i - 1]);
        lemma_pieces_free(s.skip(n + 1), x, i - 1);
    }
}

proof fn lemma_significant_concat(a: Seq<Seq<u8>>, b: Seq<Seq<u8>>)
    ensures
        significant_pieces(a + b) == significant_pieces(a) + significant_pieces(b),
    decreases b.len(),
{
    if b.len() == 0 {
        assert(a + b =~= a);
        assert(significant_pieces(a) + significant_pieces(b) =~= significant_pieces(a));
    } else {
        assert((a + b).drop_last() =~= a + b.drop_last());
        assert((a + b).last() == b.last());
        lemma_significant_concat(a, b.drop_last());
        assert(significant_pieces(a + b) =~= significant_pieces(a) + significant_pieces(b));
    }
}

proof fn lemma_significant_members(list: Seq<Seq<u8>>, i: int)
    requires
        0 <= i < significant_pieces(list).len(),
    ensures
        significant(significant_pieces(list)[i]),
        exists|k: int| 0 <= k < list.len() && list[k] == significant_pieces(list)[i],
    decreases list.len(),
{
    if list.len() > 0 {
        let rest = list.drop_last();
        if i < significant_pieces(rest).len() {
            lemma_significant_members(rest, i);
            let k = choose|k: int| 0 <= k < rest.len() && rest[k] == significant_pieces(rest)[i];
            assert(list[k] == significant_pieces(list)[i]);
        } else {
            assert(list[list.len() - 1] == significant_pieces(list)[i]);
        }
    }
}

proof fn lemma_all_significant(list: Seq<Seq<u8>>)
    requires
        forall|i: int| 0 <= i < list.len() ==> significant(#[trigger] list[i]),
    ensures
        significant_pieces(list) == list,
    decreases list.len(),
{
    if list.len() > 0 {
        lemma_all_significant(list.drop_last());
        assert(list =~= list.drop_last().push(list.last()));
    } else {
        assert(significant_pieces(list) =~= list);
    }
}

/// The components of an absolute path are plain names.
pub proof fn components_are_plain(path: Seq<u8>)
    requires
        rooted(path),
    ensures
        forall|i: int| 0 <= i < path_names(path).len() ==> plain_name(#[trigger] path_names(path)[i]),
{
    let all = pieces(path, SLASH);
    assert forall|i: int| 0 <= i < path_names(path).len() implies plain_name(
        #[trigger] path_names(path)[i],
    ) by {
        lemma_significant_members(all, i);
        let k = choose|k: int| 0 <= k < all.len() && all[k] == significant_pieces(all)[i];
        lemma_pieces_free(path, SLASH, k);
    }
}

/// The last component of any path is a plain name, unless it is a single dot.
pub proof fn last_component_is_plain(path: Seq<u8>)
    requires
        path_names(path).len() > 0,
        path_names(path).last() != seq![DOT],
    ensures
        plain_name(path_names(path).last()),
{
    let all = pieces(path, SLASH);
    let kept = significant_pieces(all);
    let i = kept.len() - 1;
    if kept.len() > 0 {
        assert(path_names(path).last() == kept[i]);
        lemma_significant_members(all, i);
        let k = choose|k: int| 0 <= k < all.len() && all[k] == kept[i];
        lemma_pieces_free(path, SLASH, k);
    } else {
        assert(path_names(path).last() == seq![DOT]);
    }
}

/// Looking up a plain name in a directory adds exactly that component.
pub proof fn join_adds_one_component(path: Seq<u8>, name: Seq<u8>)
    requires
        rooted(path),
        plain_name(name),
    ensures
        rooted(path_join(path, name)),
        path_names(path_join(path, name)) == path_names(path).push(name),
        path_within(path_join(path, name), path),
{
    if name[0] == SLASH {
        assert(name.contains(name[0]));
    }
    let whole = path_join(path, name);
    lemma_single_piece(name, SLASH);
    assert(significant_pieces(seq![name]) =~= seq![name]) by {
        lemma_all_significant(seq![name]);
    }
    assert(whole[0] == path[0]);
    if path.last() == SLASH {
        let front = path.drop_last();
        assert(path =~= front.push(SLASH) + Seq::<u8>::empty());
        assert(whole =~= front.push(SLASH) + name);
        lemma_pieces_join(front, SLASH, Seq::<u8>::empty());
        lemma_pieces_join(front, SLASH, name);
        lemma_single_piece(Seq::<u8>::empty(), SLASH);
        lemma_significant_concat(pieces(front, SLASH), seq![Seq::<u8>::empty()]);
        lemma_significant_concat(pieces(front, SLASH), seq![name]);
        let none: Seq<Seq<u8>> = seq![Seq::<u8>::empty()];
        assert(significant_pieces(none) =~= seq![]) by {
            assert(none.drop_last() =~= seq![]);
            assert(significant_pieces(none.drop_last()) =~= seq![]);
        }
        assert(path_names(path) =~= significant_pieces(pieces(front, SLASH)));
    } else {
        assert(whole =~= path.push(SLASH) + name);
        lemma_pieces_join(path, SLASH, name);
        lemma_significant_concat(pieces(path, SLASH), seq![name]);
    }
    assert(path_names(whole) =~= path_names(path).push(name));
    assert(path_names(whole).subrange(0, path_names(path).len() as int) =~= path_names(path));
}

/// Spelling out plain components and taking the path apart again gives the
/// components back.
pub proof fn spelled_components(names: Seq<Seq<u8>>)
    requires
        forall|i: int| 0 <= i < names.len() ==> plain_name(#[trigger] names[i]),
    ensures
        rooted(spelled(true, names)),
        path_names(spelled(true, names)) == names,
        canonical(spelled(true, names)),
    decreases names.len(),
{
    if names.len() == 0 {
        let root: Seq<u8> = seq![SLASH];
        let nothing = Seq::<u8>::empty();
        assert(root =~= nothing.push(SLASH) + nothing);
        lemma_pieces_join(nothing, SLASH, nothing);
        lemma_single_piece(nothing, SLASH);
        let none: Seq<Seq<u8>> = seq![nothing];
        assert(significant_pieces(none) =~= seq![]) by {
            assert(none.drop_last() =~= seq![]);
            assert(significant_pieces(none.drop_last()) =~= seq![]);
        }
        lemma_significant_concat(none, none);
        assert(path_names(root) =~= names);
    } else {
        let front = names.drop_last();
        assert forall|i: int| 0 <= i < front.len() implies plain_name(#[trigger] front[i]) by {
            assert(plain_name(names[i]));
        }
        spelled_components(front);
        assert(plain_name(names[names.len() - 1]));
        join_adds_one_component(spelled(true, front), names.last());
        assert(front.push(names.last()) =~= names);
    }
}

/// A directory of the ancestor list lies above the path it was made from.
pub proof fn ancestors_contain_the_path(path: Seq<u8>, k: int)
    requires
        rooted(path),
        0 <= k < ancestors_of(path).len(),
    ensures
        path_within(path, ancestors_of(path)[k]),
        canonical(path) && k == 0 ==> ancestors_of(path)[k] == path,
{
    components_are_plain(path);
    let names = path_names(path);
    let part = names.take(names.len() - k);
    assert forall|i: int| 0 <= i < part.len() implies plain_name(#[trigger] part[i]) by {
        assert(plain_name(names[i]));
    }
    spelled_components(part);
    assert(names.subrange(0, part.len() as int) =~= part);
    if k == 0 {
        assert(part =~= names);
    }
}

} // verus!
