//! What paths are made of.

use crate::native::{ancestors_of, path_names, plain_name, rooted, HostPath, NativeText};
use crate::promises::selecting::{lemma_lies_in, lies_in};
use vstd::prelude::*;

verus! {

/// The bytes of an absolute path with these components.
pub open spec fn from_the_root(names: Seq<Seq<u8>>) -> Seq<u8>
    decreases names.len(),
{
    if names.len() == 0 {
        seq![]
    } else {
        from_the_root(names.drop_last()) + seq![47u8] + names.last()
    }
}

pub open spec fn all_plain(names: Seq<Seq<u8>>) -> bool {
    forall|i: int| 0 <= i < names.len() ==> is_plain(#[trigger] names[i])
}

/// The name of something in a directory.
pub open spec fn is_plain(name: Seq<u8>) -> bool {
    name.len() > 0 && name != seq![46u8] && forall|i: int|
        0 <= i < name.len() ==> #[trigger] name[i] != 47u8
}

proof fn lemma_plain_names(names: Seq<Seq<u8>>)
    requires
        all_plain(names),
    ensures
        forall|i: int| 0 <= i < names.len() ==> plain_name(#[trigger] names[i]),
{
    assert forall|i: int| 0 <= i < names.len() implies plain_name(#[trigger] names[i]) by {
        assert(is_plain(names[i]));
        if names[i].contains(47u8) {
            let k = choose|k: int| 0 <= k < names[i].len() && names[i][k] == 47u8;
            assert(names[i][k] != 47u8);
        }
    }
}

proof fn lemma_spelled(names: Seq<Seq<u8>>)
    requires
        all_plain(names),
        names.len() > 0,
    ensures
        crate::native::spelled(true, names) == from_the_root(names),
        from_the_root(names).len() > 0,
        from_the_root(names).last() != 47u8,
    decreases names.len(),
{
    let front = names.drop_last();
    let last = names.last();
    assert(is_plain(names[names.len() - 1]));
    assert(last[0] != 47u8);
    assert(last[last.len() - 1] != 47u8);
    if names.len() == 1 {
        assert(front =~= Seq::<Seq<u8>>::empty());
        assert(crate::native::spelled(true, front) == seq![47u8]);
        assert(seq![47u8] + last =~= from_the_root(front) + seq![47u8] + last);
    } else {
        assert forall|i: int| 0 <= i < front.len() implies is_plain(#[trigger] front[i]) by {
            assert(front[i] == names[i]);
        }
        lemma_spelled(front);
        assert(from_the_root(front).push(47u8) + last =~= from_the_root(front) + seq![47u8] + last);
    }
}

/// A path is made of what stands between its slashes.
pub proof fn paths_are_cut_at_slashes(
    path: &HostPath,
    names: Seq<Seq<u8>>,
    components: Vec<Vec<u8>>,
    absolute: bool,
)
    requires
        all_plain(names),
        names.len() > 0,
        path@ == from_the_root(names),
        call_ensures(HostPath::components, (path,), components),
        call_ensures(HostPath::is_absolute, (path,), absolute),
    ensures
        absolute,
        crate::text::byte_views(components@) == names,
        path_names(path@) == names,
{
    lemma_plain_names(names);
    lemma_spelled(names);
    crate::native::spelled_components(names);
}

/// A path is absolute if it begins with a slash.
pub proof fn absolute_paths_begin_with_a_slash(path: &HostPath, absolute: bool)
    requires
        call_ensures(HostPath::is_absolute, (path,), absolute),
    ensures
        absolute <==> path@.len() > 0 && path@[0] == 47u8,
{
}

/// The parent of a path lacks its last component, which is the name of its file.
pub proof fn the_last_component_is_the_file(
    path: &HostPath,
    names: Seq<Seq<u8>>,
    parent: Option<HostPath>,
    name: Option<NativeText>,
)
    requires
        all_plain(names),
        names.len() > 1,
        names.last() != seq![46u8, 46u8],
        path@ == from_the_root(names),
        call_ensures(HostPath::parent, (path,), parent),
        call_ensures(HostPath::file_name, (path,), name),
    ensures
        parent matches Some(above) && above@ == from_the_root(names.drop_last()),
        name matches Some(last) && last@ == names.last(),
{
    lemma_plain_names(names);
    lemma_spelled(names);
    crate::native::spelled_components(names);
    let front = names.drop_last();
    assert forall|i: int| 0 <= i < front.len() implies is_plain(#[trigger] front[i]) by {
        assert(front[i] == names[i]);
    }
    lemma_spelled(front);
    assert(is_plain(names[names.len() - 1]));
}

/// A name is looked up in a directory; one that begins with a slash stands for
/// itself.
pub proof fn names_are_looked_up_in_their_directory(
    path: &HostPath,
    names: Seq<Seq<u8>>,
    name: &str,
    joined: HostPath,
)
    requires
        all_plain(names),
        names.len() > 0,
        path@ == from_the_root(names),
        call_ensures(HostPath::join, (path, name), joined),
    ensures
        ({
            let bytes = vstd::utf8::encode_utf8(name@);
            &&& bytes.len() > 0 && bytes[0] == 47u8 ==> joined@ == bytes
            &&& is_plain(bytes) ==> joined@ == from_the_root(names.push(bytes))
        }),
{
    lemma_spelled(names);
    let bytes = vstd::utf8::encode_utf8(name@);
    if is_plain(bytes) {
        assert(bytes[0] != 47u8);
        assert(names.push(bytes).drop_last() =~= names);
        assert(path@.push(47u8) + bytes =~= path@ + seq![47u8] + bytes);
    }
}

/// A path lies in a directory if it begins with the components of the directory;
/// the rest of it leads there from the directory.
pub proof fn paths_lie_in_directories(
    path: &HostPath,
    base: &HostPath,
    within: bool,
    rest: Option<HostPath>,
)
    requires
        rooted(path@),
        rooted(base@),
        call_ensures(HostPath::starts_with, (path, base), within),
        call_ensures(HostPath::relative_to, (path, base), rest),
    ensures
        within <==> lies_in(path@, base@),
        rest is Some <==> within,
        rest matches Some(left) ==> left@ == crate::promises::asking::slashed(
            path_names(path@).skip(path_names(base@).len() as int),
        ),
{
    lemma_lies_in(path@, base@);
    let names = path_names(path@);
    let n = path_names(base@).len() as int;
    if within {
        let left = names.skip(n);
        crate::native::components_are_plain(path@);
        assert forall|i: int| 0 <= i < left.len() implies plain_name(#[trigger] left[i]) by {
            assert(left[i] == names[n + i]);
        }
        crate::promises::asking::lemma_slashed(left);
    }
}

/// Two paths are the same if they have the same components.
pub proof fn paths_are_compared_by_components(a: &HostPath, b: &HostPath, same: bool)
    requires
        rooted(a@),
        rooted(b@),
        call_ensures(HostPath::is_same, (a, b), same),
    ensures
        same <==> lies_in(a@, b@) && lies_in(b@, a@),
{
    if lies_in(a@, b@) && lies_in(b@, a@) {
        assert(path_names(a@) =~= path_names(b@));
    }
}

/// The ancestors of a path are the path itself and every directory above it, from
/// the inside out.
pub proof fn ancestors_lead_to_the_root(path: &HostPath, list: Vec<HostPath>, k: int)
    requires
        rooted(path@),
        call_ensures(HostPath::ancestors, (path,), list),
        0 <= k < list@.len(),
    ensures
        list@.len() == path_names(path@).len() + 1,
        rooted(list@[k]@),
        path_names(list@[k]@) == path_names(path@).take(path_names(path@).len() - k),
{
    let all = crate::native::path_views(list@);
    assert(all == ancestors_of(path@));
    assert(all.len() == list@.len());
    assert(all[k] == list@[k]@);
    let names = path_names(path@);
    let part = names.take(names.len() - k);
    crate::native::components_are_plain(path@);
    assert forall|i: int| 0 <= i < part.len() implies plain_name(#[trigger] part[i]) by {
        assert(part[i] == names[i]);
    }
    crate::native::spelled_components(part);
}

/// Text is kept as its bytes and read back as it was.
pub proof fn texts_are_read_back(
    text: &str,
    native: NativeText,
    path: HostPath,
    told: Option<String>,
    path_told: Option<String>,
    shown: String,
    same: bool,
)
    requires
        call_ensures(NativeText::from_text, (text,), native),
        call_ensures(HostPath::from_text, (text,), path),
        call_ensures(NativeText::to_text, (&native,), told),
        call_ensures(HostPath::to_text, (&path,), path_told),
        call_ensures(HostPath::shown, (&path,), shown),
        call_ensures(NativeText::is_text, (&native, text), same),
    ensures
        told matches Some(t) && t@ == text@,
        path_told matches Some(t) && t@ == text@,
        shown@ == text@,
        same,
{
    crate::native::native_text_round_trip(text@);
}

} // verus!
