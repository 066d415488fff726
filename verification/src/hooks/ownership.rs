//! Which hooks Pipeline owns.

use crate::hooks::error::HookError;
use crate::hooks::repository::{hooks_home, Repository};
use crate::hooks::{supported_hooks, SUPPORTED_HOOKS};
use crate::names::{ascending, NameSet};
use crate::native::{lemma_pieces_join, lemma_single_piece, path_join, same_bytes, HostPath};
use crate::text::{byte_views, concat5, encoding_is_piecewise, pieces, split_bytes};
use vstd::prelude::*;
use vstd::utf8::{encode_utf8, is_ascii_chars_encode_utf8};

verus! {

pub const MANAGED_HOOK_MARKER: &'static str = "# managed-by: pipeline";

/// The byte that ends a line.
pub const NEWLINE: u8 = 10;

/// What stands at a path, links not followed.
#[derive(Debug, PartialEq, Eq)]
pub enum FileProbe {
    Missing,
    File,
    Directory,
    Symlink,
    Other,
    Unknown(String),
}

/// A hook path: what stands there and, for a regular file, what it holds.
#[derive(Debug)]
pub struct HookFile {
    pub probe: FileProbe,
    pub contents: Result<Vec<u8>, String>,
}

/// Something stands at the path.
pub open spec fn present(probe: FileProbe) -> bool {
    !(probe is Missing || probe is Unknown)
}

/// The marker is one of the first four lines.
pub open spec fn marked(contents: Seq<u8>) -> bool {
    exists|i: int|
        0 <= i < 4 && i < pieces(contents, NEWLINE).len() && #[trigger] pieces(contents, NEWLINE)[i]
            == encode_utf8(MANAGED_HOOK_MARKER@)
}

/// The hook is a regular file with Pipeline's marker.
pub open spec fn managed(file: HookFile) -> bool {
    file.probe is File && (file.contents matches Ok(bytes) && marked(bytes@))
}

/// Nothing hinders looking at the hook.
pub open spec fn readable(file: HookFile) -> bool {
    !(file.probe is Unknown) && (file.probe is File ==> file.contents is Ok)
}

/// Why a hook cannot be looked at.
pub open spec fn read_failure(file: HookFile) -> Seq<char> {
    match file.probe {
        FileProbe::Unknown(text) => text@,
        _ => file.contents->Err_0@,
    }
}

pub open spec fn tells_managed(file: HookFile, result: Result<bool, HookError>) -> bool {
    if readable(file) {
        result == Ok::<bool, HookError>(managed(file))
    } else {
        result matches Err(HookError::Io(text)) && text@ == read_failure(file)
    }
}

/// Whether something stands at a path.
pub fn is_present(probe: &FileProbe) -> (yes: bool)
    ensures
        yes == present(*probe),
{
    match probe {
        FileProbe::Missing => false,
        FileProbe::Unknown(_) => false,
        _ => true,
    }
}

fn has_marker(contents: &Vec<u8>) -> (yes: bool)
    ensures
        yes == marked(contents@),
{
    let lines = split_bytes(contents.as_slice(), NEWLINE);
    let ghost all = pieces(contents@, NEWLINE);
    let mut i: usize = 0;
    while i < lines.len() && i < 4
        invariant
            i <= lines.len(),
            byte_views(lines@) == all,
            all == pieces(contents@, NEWLINE),
            forall|k: int| 0 <= k < i ==> #[trigger] all[k] != encode_utf8(MANAGED_HOOK_MARKER@),
        decreases lines.len() - i,
    {
        proof {
            assert(all[i as int] == lines@[i as int]@);
        }
        if same_bytes(lines[i].as_slice(), MANAGED_HOOK_MARKER.as_bytes()) {
            return true;
        }
        i += 1;
    }
    false
}

/// Whether Pipeline owns a hook. A link is never followed: Pipeline writes
/// regular files only.
pub fn is_managed_hook(file: &HookFile) -> (result: Result<bool, HookError>)
    ensures
        tells_managed(*file, result),
{
    match &file.probe {
        FileProbe::Unknown(text) => Err(HookError::Io(String::from_str(text.as_str()))),
        FileProbe::File => match &file.contents {
            Ok(bytes) => Ok(has_marker(bytes)),
            Err(text) => Err(HookError::Io(String::from_str(text.as_str()))),
        },
        _ => Ok(false),
    }
}

/// The wrapper that dispatches a hook to the installed runner.
pub open spec fn wrapper_text(hook: Seq<char>) -> Seq<char> {
    "#!/bin/sh\n"@ + MANAGED_HOOK_MARKER@
        + "\nhook_dir=$(CDPATH= cd \"$(dirname \"$0\")\" && pwd) || exit 126\nrunner=\"$hook_dir/../pipeline/pipeline\"\nif [ ! -x \"$runner\" ]; then\n  echo \"pipeline: installed runner is missing; rerun 'pipeline add'\" >&2\n  exit 126\nfi\nexec \"$runner\" __hook "@
        + hook + " \"$@\"\n"@
}

/// The wrapper of a hook.
pub fn hook_wrapper(hook: &str) -> (text: String)
    ensures
        text@ == wrapper_text(hook@),
{
    concat5(
        "#!/bin/sh\n",
        MANAGED_HOOK_MARKER,
        "\nhook_dir=$(CDPATH= cd \"$(dirname \"$0\")\" && pwd) || exit 126\nrunner=\"$hook_dir/../pipeline/pipeline\"\nif [ ! -x \"$runner\" ]; then\n  echo \"pipeline: installed runner is missing; rerun 'pipeline add'\" >&2\n  exit 126\nfi\nexec \"$runner\" __hook ",
        hook,
        " \"$@\"\n",
    )
}

/// A wrapper that Pipeline writes is recognised as its own.
pub proof fn wrappers_are_managed(hook: Seq<char>)
    ensures
        marked(encode_utf8(wrapper_text(hook))),
{
    let shebang = "#!/bin/sh"@;
    let first = "#!/bin/sh\n"@;
    let marker = MANAGED_HOOK_MARKER@;
    let body =
        "\nhook_dir=$(CDPATH= cd \"$(dirname \"$0\")\" && pwd) || exit 126\nrunner=\"$hook_dir/../pipeline/pipeline\"\nif [ ! -x \"$runner\" ]; then\n  echo \"pipeline: installed runner is missing; rerun 'pipeline add'\" >&2\n  exit 126\nfi\nexec \"$runner\" __hook "@;
    let rest = body.skip(1) + hook + " \"$@\"\n"@;
    reveal_strlit("#!/bin/sh");
    reveal_strlit("#!/bin/sh\n");
    reveal_strlit("# managed-by: pipeline");
    assert(body.len() > 0 && body[0] == '\n') by {
        reveal_strlit(
            "\nhook_dir=$(CDPATH= cd \"$(dirname \"$0\")\" && pwd) || exit 126\nrunner=\"$hook_dir/../pipeline/pipeline\"\nif [ ! -x \"$runner\" ]; then\n  echo \"pipeline: installed runner is missing; rerun 'pipeline add'\" >&2\n  exit 126\nfi\nexec \"$runner\" __hook ",
        );
    }
    let newline = seq!['\n'];
    is_ascii_chars_encode_utf8(newline);
    is_ascii_chars_encode_utf8(shebang);
    is_ascii_chars_encode_utf8(marker);
    assert(encode_utf8(newline) =~= seq![NEWLINE]);
    let tail = marker + (newline + rest);
    assert(wrapper_text(hook) =~= shebang + (newline + tail));
    encoding_is_piecewise(shebang, newline + tail);
    encoding_is_piecewise(newline, tail);
    encoding_is_piecewise(marker, newline + rest);
    encoding_is_piecewise(newline, rest);
    let a = encode_utf8(shebang);
    let m = encode_utf8(marker);
    let r = encode_utf8(rest);
    let t = encode_utf8(tail);
    assert(t =~= m.push(NEWLINE) + r);
    assert(encode_utf8(wrapper_text(hook)) =~= a.push(NEWLINE) + t);
    assert forall|i: int| 0 <= i < m.len() implies m[i] != NEWLINE by {
        assert(marker[i] as u8 == m[i]);
    }
    assert forall|i: int| 0 <= i < a.len() implies a[i] != NEWLINE by {
        assert(shebang[i] as u8 == a[i]);
    }
    lemma_pieces_join(a, NEWLINE, t);
    lemma_pieces_join(m, NEWLINE, r);
    lemma_single_piece(a, NEWLINE);
    lemma_single_piece(m, NEWLINE);
    let all = pieces(encode_utf8(wrapper_text(hook)), NEWLINE);
    assert(all[1] == m);
}

/// The path of a hook.
pub open spec fn hook_home(repository: Repository, hook: Seq<char>) -> Seq<u8> {
    path_join(hooks_home(repository), encode_utf8(hook))
}

/// The path of a hook.
pub fn hook_path(repository: &Repository, hook: &str) -> (path: HostPath)
    ensures
        path@ == hook_home(*repository, hook@),
{
    repository.hooks_dir().join(hook)
}

/// Every hook up to `n` could be looked at.
pub open spec fn all_readable(files: Seq<HookFile>, n: int) -> bool {
    forall|i: int| 0 <= i < n ==> readable(#[trigger] files[i])
}

/// The hook is installed, going by the files of all supported hooks.
pub open spec fn installed(files: Seq<HookFile>, hook: Seq<char>) -> bool {
    exists|i: int|
        0 <= i < files.len() && supported_hooks()[i] == hook && managed(#[trigger] files[i])
}

/// What the files of all supported hooks say about which are installed.
pub open spec fn lists_installed(files: Seq<HookFile>, result: Result<NameSet, HookError>) -> bool {
    &&& all_readable(files, files.len() as int) ==> {
        &&& result matches Ok(set)
        &&& ascending(set@)
        &&& forall|hook: Seq<char>| #[trigger] set@.contains(hook) <==> installed(files, hook)
    }
    &&& !all_readable(files, files.len() as int) ==> {
        &&& result matches Err(HookError::Io(text))
        &&& exists|i: int|
            0 <= i < files.len() && !readable(#[trigger] files[i]) && all_readable(files, i)
                && text@ == read_failure(files[i])
    }
}

/// The installed hooks that Pipeline owns. `files` describes the supported
/// hooks in their documented order.
pub fn installed_managed_hooks(files: &Vec<HookFile>) -> (result: Result<NameSet, HookError>)
    requires
        files@.len() == SUPPORTED_HOOKS@.len(),
    ensures
        lists_installed(files@, result),
{
    let mut set = NameSet::new();
    let mut i: usize = 0;
    while i < SUPPORTED_HOOKS.len()
        invariant
            i <= SUPPORTED_HOOKS@.len(),
            files@.len() == SUPPORTED_HOOKS@.len(),
            all_readable(files@, i as int),
            ascending(set@),
            forall|hook: Seq<char>| #[trigger]
                set@.contains(hook) <==> installed(files@.take(i as int), hook),
        decreases SUPPORTED_HOOKS@.len() - i,
    {
        let ghost before = set@;
        let ghost seen = files@.take(i as int);
        let ghost next = files@.take(i as int + 1);
        let ghost name = supported_hooks()[i as int];
        match is_managed_hook(&files[i]) {
            Err(error) => {
                return Err(error);
            },
            Ok(owned) => {
                if owned {
                    set.insert(SUPPORTED_HOOKS[i]);
                }
            },
        }
        proof {
            assert forall|hook: Seq<char>| #[trigger]
                set@.contains(hook) <==> installed(next, hook) by {
                assert(next[i as int] == files@[i as int]);
                if installed(seen, hook) {
                    let k = choose|k: int|
                        0 <= k < seen.len() && supported_hooks()[k] == hook && managed(
                            #[trigger] seen[k],
                        );
                    assert(next[k] == seen[k]);
                    assert(installed(next, hook));
                }
                if installed(next, hook) {
                    let k = choose|k: int|
                        0 <= k < next.len() && supported_hooks()[k] == hook && managed(
                            #[trigger] next[k],
                        );
                    if k < i {
                        assert(seen[k] == next[k]);
                        assert(installed(seen, hook));
                    }
                }
                if managed(files@[i as int]) && hook == name {
                    assert(managed(next[i as int]));
                    assert(installed(next, hook));
                }
                assert(before.contains(hook) <==> installed(seen, hook));
            }
        }
        i += 1;
    }
    proof {
        assert(files@.take(i as int) =~= files@);
    }
    Ok(set)
}

} // verus!
