use pipeline::names::{precedes, NameSet};
use pipeline::native::{append_bytes, copy_bytes, same_bytes, HostPath, NativeText};
use pipeline::text::{
    chars_of, concat2, concat5, contains, decimal_text, is_white_space, join, lower_ascii,
    signed_text, skip_leading, split_bytes, split_lines, split_path, split_words, text_of, trim,
};
use std::collections::BTreeSet;

fn path(text: &str) -> HostPath {
    HostPath::from_text(text)
}

#[test]
fn white_space_is_that_of_unicode() {
    for code in 0..=0x10ffffu32 {
        if let Some(c) = char::from_u32(code) {
            assert_eq!(is_white_space(c), c.is_whitespace(), "{code:x}");
        }
    }
}

#[test]
fn trimming_and_splitting_agree_with_the_standard_library() {
    for text in [
        "",
        "  a b\tc \n",
        "\u{a0}x\u{2003}y\u{3000}",
        "one\r\ntwo\n\nthree",
        "line\n",
        "\n",
        "a\rb\n",
        "\r\n",
        "x\r",
    ] {
        assert_eq!(trim(text), text.trim());
        let words: Vec<&str> = text.split_whitespace().collect();
        assert_eq!(split_words(text), words);
        let lines: Vec<&str> = text.lines().collect();
        assert_eq!(split_lines(text), lines);
    }
    for text in ["", "a", "a::b", "::", "a:::b", "a::b::", ":", "é::ü"] {
        let parts: Vec<&str> = text.split("::").collect();
        assert_eq!(split_path(text), parts);
    }
}

#[test]
fn searching_agrees_with_the_standard_library() {
    for (text, part) in [
        ("abcabd", "abd"),
        ("abc", ""),
        ("", "a"),
        ("aaa", "aaaa"),
        ("naïve", "ïv"),
    ] {
        assert_eq!(contains(text, part), text.contains(part));
    }
}

#[test]
fn numbers_are_written_in_decimal() {
    for n in [0, 1, 9, 10, 12345, u64::MAX] {
        assert_eq!(decimal_text(n), n.to_string());
    }
    for n in [0, 1, -1, i32::MAX, i32::MIN] {
        assert_eq!(signed_text(n), n.to_string());
    }
}

#[test]
fn texts_are_put_together() {
    assert_eq!(concat2("a", "b"), "ab");
    assert_eq!(concat5("a", "", "b", "ü", "c"), "abüc");
    let list = vec!["a".to_owned(), "b".to_owned(), "c".to_owned()];
    assert_eq!(join(&list, ", "), "a, b, c");
    assert_eq!(join(&Vec::new(), ", "), "");
    let chars = chars_of("naïve");
    assert_eq!(chars.len(), 5);
    assert_eq!(text_of(&chars, 1, 3), "aï");
    assert_eq!(lower_ascii("JuSt Ä"), "just Ä");
    assert_eq!(skip_leading("vv1v", 'v'), "1v");
}

#[test]
fn bytes_are_split_at_every_separator() {
    assert_eq!(
        split_bytes(b"a,,b", b','),
        [b"a".to_vec(), Vec::new(), b"b".to_vec()]
    );
    assert_eq!(split_bytes(b"", b','), [Vec::new()]);
}

#[test]
fn names_are_ordered_like_strings() {
    let names = ["b", "a", "ab", "", "é", "z", "a", "\u{10000}", "\u{ffff}", "Z"];
    let list: Vec<String> = names.iter().map(|name| (*name).to_owned()).collect();
    let expected: BTreeSet<String> = list.iter().cloned().collect();
    let set = NameSet::from_names(&list);
    assert_eq!(
        set.as_list().iter().collect::<Vec<_>>(),
        expected.iter().collect::<Vec<_>>()
    );
    for a in names {
        for b in names {
            assert_eq!(precedes(a, b), a < b);
        }
    }
    assert_eq!(set.len(), expected.len());
    assert!(set.contains("ab") && !set.contains("abc"));
}

#[test]
fn name_sets_are_sets() {
    let mut set = NameSet::new();
    assert!(set.is_empty());
    set.insert("b");
    set.insert("a");
    set.insert("b");
    assert_eq!(set.as_list(), &["a", "b"]);
    let mut other = NameSet::new();
    other.insert("b");
    other.insert("c");
    assert_eq!(set.intersection(&other).as_list(), &["b"]);
    assert_eq!(set.clone(), set);
}

#[test]
fn native_text_keeps_every_byte() {
    let text = NativeText::from_text("naïve");
    assert_eq!(text.to_text().as_deref(), Some("naïve"));
    assert!(text.is_text("naïve") && !text.is_text("naive"));
    let odd = NativeText { bytes: vec![b'a', 0x80] };
    assert_eq!(odd.to_text(), None);
    assert_eq!(odd.shown(), "a\u{fffd}");
    assert_eq!(odd.clone(), odd);
    let mut bytes = copy_bytes(b"ab");
    append_bytes(&mut bytes, b"c");
    assert!(same_bytes(&bytes, b"abc") && !same_bytes(&bytes, b"abd"));
}

#[test]
fn paths_behave_like_unix_paths() {
    for text in [
        "",
        "/",
        "a",
        "/a",
        "/a/b",
        "a/b/",
        "a//b",
        "./a",
        "a/./b",
        "..",
        "a/..",
        "/a/.",
        "//a",
        ".",
        ".git",
    ] {
        let known = std::path::Path::new(text);
        let found = path(text);
        let parent = known.parent().map(|place| place.to_str().unwrap().to_owned());
        match (found.parent(), parent) {
            (Some(ours), Some(theirs)) => assert!(ours.is_same(&path(&theirs)), "{text}"),
            (None, None) => {}
            _ => panic!("{text}"),
        }
        assert_eq!(
            found.file_name().map(|name| name.shown()),
            known.file_name().map(|name| name.to_str().unwrap().to_owned()),
            "{text}"
        );
        assert_eq!(found.is_absolute(), known.is_absolute());
        for other in ["x", "/x", "x/y", ""] {
            assert_eq!(
                found.join(other).shown(),
                known.join(other).to_str().unwrap(),
                "{text} {other}"
            );
        }
        assert_eq!(found.ancestors().len(), known.ancestors().count(), "{text}");
        for base in ["", "/", "a", "/a", "a/b", "."] {
            assert_eq!(
                found.starts_with(&path(base)),
                known.starts_with(base),
                "{text} {base}"
            );
            assert_eq!(
                found.is_same(&path(base)),
                known == std::path::Path::new(base),
                "{text} {base}"
            );
            assert_eq!(
                found.relative_to(&path(base)).map(|rest| rest.shown()),
                known
                    .strip_prefix(base)
                    .ok()
                    .map(|rest| rest.components().collect::<std::path::PathBuf>())
                    .map(|rest| rest.to_str().unwrap().to_owned()),
                "{text} {base}"
            );
        }
    }
}

#[test]
fn native_strings_are_quoted_as_the_system_shows_them() {
    for text in ["", "plain", "it's", "a\"b", "back\\slash", "tab\tnew\nline", "é\u{200b}\u{301}"] {
        assert_eq!(
            HostPath::from_text(text).quoted(),
            format!("{:?}", std::path::Path::new(text))
        );
    }
    let odd = NativeText {
        bytes: b"\"\xff\"".to_vec(),
    };
    assert_eq!(odd.quoted(), "\"\\\"\\xFF\\\"\"");
}

#[test]
fn paths_are_equal_by_their_components() {
    assert_eq!(path("/a//b/./c/"), path("/a/b/c"));
    assert_ne!(path("/a/b"), path("a/b"));
    assert_ne!(path("./a"), path("a"));
    assert_ne!(path("/a/../b"), path("/b"));
}
