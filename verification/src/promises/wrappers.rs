//! What an installed hook does when Git calls it.

use crate::hooks::ownership::{hook_wrapper, wrapper_text, MANAGED_HOOK_MARKER};
use crate::hooks::repository::{pipeline_home, Repository};
use crate::native::{
    join_adds_one_component, lemma_pieces_join, lemma_single_piece, path_names, plain_name, rooted,
    HostPath, DOT, SLASH,
};
use crate::promises::reading::lemma_no_char;
use crate::text::pieces;
use vstd::prelude::*;
use vstd::utf8::{encode_utf8, is_ascii_chars_encode_utf8};

verus! {

/// A walk from a directory: two dots lead up, any other name leads down.
pub open spec fn walked(from: Seq<Seq<u8>>, names: Seq<Seq<u8>>) -> Seq<Seq<u8>>
    decreases names.len(),
{
    if names.len() == 0 {
        from
    } else {
        let there = walked(from, names.drop_last());
        if names.last() == seq![DOT, DOT] {
            there.drop_last()
        } else {
            there.push(names.last())
        }
    }
}

/// The line of a wrapper that says which file it runs, from the directory that
/// the wrapper stands in.
pub open spec fn runner_line(relative: Seq<char>) -> Seq<char> {
    "runner=\"$hook_dir/"@ + relative + "\""@
}

/// The line of a wrapper that finds the directory that the wrapper stands in.
pub open spec fn directory_line() -> Seq<char> {
    "hook_dir=$(CDPATH= cd \"$(dirname \"$0\")\" && pwd) || exit 126"@
}

/// The line of a wrapper that hands over to the runner: with the name of the
/// hook and all that Git gave to it.
pub open spec fn exec_line(hook: Seq<char>) -> Seq<char> {
    "exec \"$runner\" __hook "@ + hook + " \"$@\""@
}

/// The lines of a wrapper whose runner stands at `relative`.
pub open spec fn wrapper_lines(relative: Seq<char>, hook: Seq<char>) -> Seq<Seq<char>> {
    seq![
        "#!/bin/sh"@,
        "# managed-by: pipeline"@,
        directory_line(),
        runner_line(relative),
        "if [ ! -x \"$runner\" ]; then"@,
        "  echo \"pipeline: installed runner is missing; rerun 'pipeline add'\" >&2"@,
        "  exit 126"@,
        "fi"@,
        exec_line(hook),
        ""@,
    ]
}

spec fn middle() -> Seq<char> {
    "\nhook_dir=$(CDPATH= cd \"$(dirname \"$0\")\" && pwd) || exit 126\nrunner=\"$hook_dir/../pipeline/pipeline\"\nif [ ! -x \"$runner\" ]; then\n  echo \"pipeline: installed runner is missing; rerun 'pipeline add'\" >&2\n  exit 126\nfi\nexec \"$runner\" __hook "@
}

spec fn guard() -> Seq<char> {
    "if [ ! -x \"$runner\" ]; then"@
}

spec fn complaint() -> Seq<char> {
    "  echo \"pipeline: installed runner is missing; rerun 'pipeline add'\" >&2"@
}

proof fn lemma_middle()
    ensures
        middle() == seq!['\n'] + directory_line() + seq!['\n'] + runner_line(
            "../pipeline/pipeline"@,
        ) + seq!['\n'] + guard() + seq!['\n'] + complaint() + seq!['\n'] + "  exit 126"@
            + seq!['\n'] + "fi"@ + seq!['\n'] + "exec \"$runner\" __hook "@,
{
    reveal_strlit(
        "\nhook_dir=$(CDPATH= cd \"$(dirname \"$0\")\" && pwd) || exit 126\nrunner=\"$hook_dir/../pipeline/pipeline\"\nif [ ! -x \"$runner\" ]; then\n  echo \"pipeline: installed runner is missing; rerun 'pipeline add'\" >&2\n  exit 126\nfi\nexec \"$runner\" __hook ",
    );
    reveal_strlit("hook_dir=$(CDPATH= cd \"$(dirname \"$0\")\" && pwd) || exit 126");
    reveal_strlit("runner=\"$hook_dir/");
    reveal_strlit("../pipeline/pipeline");
    reveal_strlit("\"");
    reveal_strlit("if [ ! -x \"$runner\" ]; then");
    reveal_strlit("  echo \"pipeline: installed runner is missing; rerun 'pipeline add'\" >&2");
    reveal_strlit("  exit 126");
    reveal_strlit("fi");
    reveal_strlit("exec \"$runner\" __hook ");
    assert(middle() =~= seq!['\n'] + directory_line() + seq!['\n'] + runner_line(
        "../pipeline/pipeline"@,
    ) + seq!['\n'] + guard() + seq!['\n'] + complaint() + seq!['\n'] + "  exit 126"@
        + seq!['\n'] + "fi"@ + seq!['\n'] + "exec \"$runner\" __hook "@);
}

/// Lines as one text: between two lines stands a line end.
spec fn lined(lines: Seq<Seq<char>>) -> Seq<char>
    decreases lines.len(),
{
    if lines.len() == 0 {
        seq![]
    } else if lines.len() == 1 {
        lines[0]
    } else {
        lined(lines.drop_last()) + seq!['\n'] + lines.last()
    }
}

proof fn lemma_lined(lines: Seq<Seq<char>>)
    requires
        lines.len() > 0,
        forall|i: int| 0 <= i < lines.len() ==> !(#[trigger] lines[i]).contains('\n'),
    ensures
        pieces(lined(lines), '\n') == lines,
    decreases lines.len(),
{
    assert(!lines[lines.len() - 1].contains('\n'));
    if lines.len() == 1 {
        lemma_single_piece(lines[0], '\n');
        assert(seq![lines[0]] =~= lines);
    } else {
        let front = lines.drop_last();
        assert forall|i: int| 0 <= i < front.len() implies !(#[trigger] front[i]).contains('\n') by {
            assert(front[i] == lines[i]);
        }
        lemma_lined(front);
        lemma_pieces_join(lined(front), '\n', lines.last());
        lemma_single_piece(lines.last(), '\n');
        assert(lined(front).push('\n') + lines.last() =~= lined(lines));
        assert(front + seq![lines.last()] =~= lines);
    }
}

proof fn lemma_grown(lines: Seq<Seq<char>>, line: Seq<char>)
    requires
        lines.len() > 0,
    ensures
        lined(lines.push(line)) == lined(lines) + seq!['\n'] + line,
{
    assert(lines.push(line).drop_last() =~= lines);
}

proof fn lemma_wrapper_lines(hook: Seq<char>)
    ensures
        lined(wrapper_lines("../pipeline/pipeline"@, hook)) == "#!/bin/sh"@ + seq!['\n']
            + "# managed-by: pipeline"@ + middle() + hook + " \"$@\""@ + seq!['\n'] + ""@,
{
    lemma_middle();
    let e = seq!['\n'];
    let l0 = "#!/bin/sh"@;
    let l1 = "# managed-by: pipeline"@;
    let l2 = directory_line();
    let l3 = runner_line("../pipeline/pipeline"@);
    let l4 = guard();
    let l5 = complaint();
    let l6 = "  exit 126"@;
    let l7 = "fi"@;
    let l8 = exec_line(hook);
    let l9 = ""@;
    let a0 = seq![l0];
    let a1 = a0.push(l1);
    let a2 = a1.push(l2);
    let a3 = a2.push(l3);
    let a4 = a3.push(l4);
    let a5 = a4.push(l5);
    let a6 = a5.push(l6);
    let a7 = a6.push(l7);
    let a8 = a7.push(l8);
    let a9 = a8.push(l9);
    lemma_grown(a0, l1);
    lemma_grown(a1, l2);
    lemma_grown(a2, l3);
    lemma_grown(a3, l4);
    lemma_grown(a4, l5);
    lemma_grown(a5, l6);
    lemma_grown(a6, l7);
    lemma_grown(a7, l8);
    lemma_grown(a8, l9);
    assert(a9 =~= wrapper_lines("../pipeline/pipeline"@, hook));
    let x = "exec \"$runner\" __hook "@;
    let z = " \"$@\""@;
    let inner = e + l2 + e + l3 + e + l4 + e + l5 + e + l6 + e + l7 + e + x;
    assert(middle() == inner);
    assert(lined(a8) == l0 + e + l1 + e + l2 + e + l3 + e + l4 + e + l5 + e + l6 + e + l7 + e + l8);
    assert(lined(a8) =~= l0 + e + l1 + inner + hook + z);
}

proof fn lemma_wrapper_text(hook: Seq<char>)
    ensures
        wrapper_text(hook) == lined(wrapper_lines("../pipeline/pipeline"@, hook)),
{
    lemma_wrapper_lines(hook);
    let e = seq!['\n'];
    let z = " \"$@\""@;
    assert("#!/bin/sh\n"@ =~= "#!/bin/sh"@ + e) by {
        reveal_strlit("#!/bin/sh\n");
        reveal_strlit("#!/bin/sh");
    }
    assert(" \"$@\"\n"@ =~= z + e) by {
        reveal_strlit(" \"$@\"\n");
        reveal_strlit(" \"$@\"");
    }
    assert(""@ =~= Seq::<char>::empty()) by {
        reveal_strlit("");
    }
    let front = "#!/bin/sh"@ + e + MANAGED_HOOK_MARKER@ + middle() + hook;
    assert(front + (z + e) =~= front + z + e + ""@);
}

proof fn lemma_plain(name: Seq<char>, first: char)
    requires
        name.len() > 1,
        name[0] == first,
        'a' <= first && first <= 'z',
        forall|i: int| 0 <= i < name.len() ==> '\0' <= #[trigger] name[i] <= '\u{7f}' && name[i] != '/',
    ensures
        plain_name(encode_utf8(name)),
{
    is_ascii_chars_encode_utf8(name);
    let bytes = encode_utf8(name);
    assert forall|i: int| 0 <= i < bytes.len() implies bytes[i] != SLASH by {
        assert(name[i] as u8 == bytes[i]);
    }
    assert(bytes.len() > 1);
}

proof fn lemma_relative()
    ensures
        pieces(encode_utf8("../pipeline/pipeline"@), SLASH) == seq![
            seq![DOT, DOT],
            encode_utf8("pipeline"@),
            encode_utf8("pipeline"@),
        ],
        plain_name(encode_utf8("pipeline"@)),
        plain_name(encode_utf8("hooks"@)),
{
    reveal_strlit("../pipeline/pipeline");
    reveal_strlit("pipeline");
    reveal_strlit("hooks");
    lemma_plain("pipeline"@, 'p');
    lemma_plain("hooks"@, 'h');
    is_ascii_chars_encode_utf8("../pipeline/pipeline"@);
    is_ascii_chars_encode_utf8("pipeline"@);
    let whole = encode_utf8("../pipeline/pipeline"@);
    let name = encode_utf8("pipeline"@);
    let up = seq![DOT, DOT];
    assert forall|i: int| 0 <= i < 20 implies whole[i] == "../pipeline/pipeline"@[i] as u8 by {}
    assert forall|i: int| 0 <= i < 8 implies name[i] == "pipeline"@[i] as u8 by {}
    assert(whole =~= up.push(SLASH) + (name.push(SLASH) + name));
    lemma_pieces_join(up, SLASH, name.push(SLASH) + name);
    lemma_pieces_join(name, SLASH, name);
    lemma_single_piece(up, SLASH);
    lemma_single_piece(name, SLASH);
    assert(seq![up] + (seq![name] + seq![name]) =~= seq![up, name, name]);
}

proof fn lemma_walk(common: Seq<Seq<u8>>, hooks: Seq<u8>, name: Seq<u8>)
    requires
        name != seq![DOT, DOT],
    ensures
        walked(common.push(hooks), seq![seq![DOT, DOT], name, name]) == common.push(name).push(name),
{
    let up = seq![DOT, DOT];
    let from = common.push(hooks);
    let all = seq![up, name, name];
    assert(all.drop_last() =~= seq![up, name]);
    assert(seq![up, name].drop_last() =~= seq![up]);
    assert(seq![up].drop_last() =~= Seq::<Seq<u8>>::empty());
    reveal_with_fuel(walked, 4);
    assert(from.drop_last() =~= common);
}

/// The runner that a wrapper hands over to is the executable that Pipeline
/// installs: the way from the directory of the hooks that its `runner` line
/// names leads there. The wrapper finds that directory by its own path, refuses
/// to go on where the runner cannot be executed, and hands over the name of its
/// hook and all that Git gave to it.
pub proof fn wrappers_run_the_installed_executable(
    repository: &Repository,
    hook: &str,
    text: String,
    hooks: HostPath,
    installed: HostPath,
)
    requires
        rooted(repository.common_dir@),
        !hook@.contains('\n'),
        call_ensures(hook_wrapper, (hook,), text),
        call_ensures(Repository::hooks_dir, (repository,), hooks),
        call_ensures(Repository::installed_pipeline, (repository,), installed),
    ensures
        exists|relative: Seq<char>|
            pieces(text@, '\n') == #[trigger] wrapper_lines(relative, hook@) && walked(
                path_names(hooks@),
                pieces(encode_utf8(relative), SLASH),
            ) == path_names(installed@),
{
    let relative = "../pipeline/pipeline"@;
    let lines = wrapper_lines(relative, hook@);
    lemma_wrapper_text(hook@);
    lemma_lines_are_lines(hook@);
    lemma_lined(lines);
    lemma_relative();
    let common = repository.common_dir@;
    let name = encode_utf8("pipeline"@);
    join_adds_one_component(common, encode_utf8("hooks"@));
    join_adds_one_component(common, name);
    join_adds_one_component(pipeline_home(*repository), name);
    assert(name != seq![DOT, DOT]) by {
        reveal_strlit("pipeline");
        is_ascii_chars_encode_utf8("pipeline"@);
        assert(name.len() == 8);
    }
    lemma_walk(path_names(common), encode_utf8("hooks"@), name);
    assert(pieces(text@, '\n') == wrapper_lines(relative, hook@));
}

proof fn lemma_lines_are_lines(hook: Seq<char>)
    requires
        !hook.contains('\n'),
    ensures
        forall|i: int|
            0 <= i < wrapper_lines("../pipeline/pipeline"@, hook).len() ==> !(
            #[trigger] wrapper_lines("../pipeline/pipeline"@, hook)[i]).contains('\n'),
{
    reveal_strlit("#!/bin/sh");
    reveal_strlit("# managed-by: pipeline");
    reveal_strlit("hook_dir=$(CDPATH= cd \"$(dirname \"$0\")\" && pwd) || exit 126");
    reveal_strlit("runner=\"$hook_dir/");
    reveal_strlit("../pipeline/pipeline");
    reveal_strlit("\"");
    reveal_strlit("if [ ! -x \"$runner\" ]; then");
    reveal_strlit("  echo \"pipeline: installed runner is missing; rerun 'pipeline add'\" >&2");
    reveal_strlit("  exit 126");
    reveal_strlit("fi");
    reveal_strlit("exec \"$runner\" __hook ");
    reveal_strlit(" \"$@\"");
    reveal_strlit("");
    lemma_no_char("runner=\"$hook_dir/"@, "../pipeline/pipeline"@, '\n');
    lemma_no_char("runner=\"$hook_dir/"@ + "../pipeline/pipeline"@, "\""@, '\n');
    lemma_no_char("exec \"$runner\" __hook "@, hook, '\n');
    lemma_no_char("exec \"$runner\" __hook "@ + hook, " \"$@\""@, '\n');
}

} // verus!
