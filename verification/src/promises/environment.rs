//! What a recipe finds in its environment.

use crate::definition::project::variable_views;
use crate::dispatch::{git_variables, incoming_environment, ref_variables};
use crate::hooks::error::HookError;
use crate::hooks::repository::Repository;
use crate::hooks::supported;
use crate::hooks::updates::{hook_environment, hook_variables};
use crate::native::{native_text_round_trip, native_views, HostPath, NativeText};
use crate::text::{decimal, decimal_is_injective, views};
use vstd::prelude::*;
use vstd::utf8::encode_utf8;

verus! {

/// The value of a variable: a later setting replaces an earlier one.
pub open spec fn value_of(list: Seq<(Seq<u8>, Seq<u8>)>, name: Seq<char>) -> Option<Seq<u8>>
    decreases list.len(),
{
    if list.len() == 0 {
        None
    } else if list.last().0 == encode_utf8(name) {
        Some(list.last().1)
    } else {
        value_of(list.drop_last(), name)
    }
}

/// A numbered variable.
pub open spec fn numbered(prefix: Seq<char>, i: int) -> Seq<char> {
    prefix + decimal(i as nat)
}

proof fn lemma_after(a: Seq<(Seq<u8>, Seq<u8>)>, b: Seq<(Seq<u8>, Seq<u8>)>, name: Seq<char>)
    ensures
        value_of(a + b, name) == (match value_of(b, name) {
            Some(value) => Some(value),
            None => value_of(a, name),
        }),
    decreases b.len(),
{
    if b.len() == 0 {
        assert(a + b =~= a);
    } else {
        assert((a + b).drop_last() =~= a + b.drop_last());
        lemma_after(a, b.drop_last(), name);
    }
}

proof fn lemma_absent(list: Seq<(Seq<u8>, Seq<u8>)>, name: Seq<char>)
    requires
        forall|i: int| 0 <= i < list.len() ==> (#[trigger] list[i]).0 != encode_utf8(name),
    ensures
        value_of(list, name) is None,
    decreases list.len(),
{
    if list.len() > 0 {
        assert(list[list.len() - 1].0 != encode_utf8(name));
        let front = list.drop_last();
        assert forall|i: int| 0 <= i < front.len() implies (#[trigger] front[i]).0 != encode_utf8(
            name,
        ) by {
            assert(front[i] == list[i]);
        }
        lemma_absent(front, name);
    }
}

proof fn lemma_set_once(list: Seq<(Seq<u8>, Seq<u8>)>, name: Seq<char>, k: int)
    requires
        0 <= k < list.len(),
        list[k].0 == encode_utf8(name),
        forall|i: int| k < i < list.len() ==> (#[trigger] list[i]).0 != encode_utf8(name),
    ensures
        value_of(list, name) == Some(list[k].1),
    decreases list.len(),
{
    if k < list.len() - 1 {
        assert(list[list.len() - 1].0 != encode_utf8(name));
        let front = list.drop_last();
        assert forall|i: int| k < i < front.len() implies (#[trigger] front[i]).0 != encode_utf8(
            name,
        ) by {
            assert(front[i] == list[i]);
        }
        lemma_set_once(front, name, k);
    }
}

proof fn lemma_names_differ(a: Seq<char>, b: Seq<char>)
    requires
        a != b,
    ensures
        encode_utf8(a) != encode_utf8(b),
{
    native_text_round_trip(a);
    native_text_round_trip(b);
}

proof fn lemma_numbers_differ(prefix: Seq<char>, i: int, k: int)
    requires
        0 <= i,
        0 <= k,
        i != k,
    ensures
        numbered(prefix, i) != numbered(prefix, k),
{
    if numbered(prefix, i) == numbered(prefix, k) {
        let n = prefix.len() as int;
        assert(numbered(prefix, i).skip(n) =~= decimal(i as nat));
        assert(numbered(prefix, k).skip(n) =~= decimal(k as nat));
        decimal_is_injective(i as nat, k as nat);
    }
}

/// A recipe learns from its environment which hook it runs for, how many
/// arguments Git gave to the hook, and each of them. Only hooks that Git has get
/// an environment.
pub proof fn recipes_learn_of_their_hook(
    hook: &str,
    arguments: &Vec<NativeText>,
    result: Result<Vec<(NativeText, NativeText)>, HookError>,
)
    requires
        call_ensures(hook_environment, (hook, arguments), result),
    ensures
        result is Ok <==> supported(hook@),
        result matches Ok(list) ==> {
            let variables = variable_views(list@);
            &&& value_of(variables, "PIPELINE_HOOK"@) == Some(encode_utf8(hook@))
            &&& value_of(variables, "PIPELINE_HOOK_ARGC"@) == Some(
                encode_utf8(decimal(arguments@.len())),
            )
            &&& forall|i: int|
                0 <= i < arguments@.len() ==> value_of(
                    variables,
                    #[trigger] numbered("PIPELINE_HOOK_ARG_"@, i),
                ) == Some(arguments@[i]@)
            &&& variables.len() == arguments@.len() + 2
        },
{
    if let Ok(list) = result {
        lemma_hook_variables(hook@, native_views(arguments@));
    }
}

proof fn lemma_hook_variables(hook: Seq<char>, arguments: Seq<Seq<u8>>)
    ensures
        value_of(hook_variables(hook, arguments), "PIPELINE_HOOK"@) == Some(encode_utf8(hook)),
        value_of(hook_variables(hook, arguments), "PIPELINE_HOOK_ARGC"@) == Some(
            encode_utf8(decimal(arguments.len())),
        ),
        forall|i: int|
            0 <= i < arguments.len() ==> value_of(
                hook_variables(hook, arguments),
                #[trigger] numbered("PIPELINE_HOOK_ARG_"@, i),
            ) == Some(arguments[i]),
{
    let list = hook_variables(hook, arguments);
    let prefix = "PIPELINE_HOOK_ARG_"@;
    reveal_strlit("PIPELINE_HOOK");
    reveal_strlit("PIPELINE_HOOK_ARGC");
    reveal_strlit("PIPELINE_HOOK_ARG_");
    assert forall|i: int| 2 <= i < list.len() implies (#[trigger] list[i]).0 == encode_utf8(
        numbered(prefix, i - 2),
    ) && numbered(prefix, i - 2)[17] == '_' by {}
    assert("PIPELINE_HOOK_ARGC"@[17] == 'C');
    assert forall|i: int| 1 <= i < list.len() implies (#[trigger] list[i]).0 != encode_utf8(
        "PIPELINE_HOOK"@,
    ) by {
        if i == 1 {
            lemma_names_differ("PIPELINE_HOOK_ARGC"@, "PIPELINE_HOOK"@);
        } else {
            lemma_names_differ(numbered(prefix, i - 2), "PIPELINE_HOOK"@);
        }
    }
    lemma_set_once(list, "PIPELINE_HOOK"@, 0);
    assert forall|i: int| 2 <= i < list.len() implies (#[trigger] list[i]).0 != encode_utf8(
        "PIPELINE_HOOK_ARGC"@,
    ) by {
        lemma_names_differ(numbered(prefix, i - 2), "PIPELINE_HOOK_ARGC"@);
    }
    lemma_set_once(list, "PIPELINE_HOOK_ARGC"@, 1);
    assert forall|k: int| 0 <= k < arguments.len() implies value_of(
        list,
        #[trigger] numbered(prefix, k),
    ) == Some(arguments[k]) by {
        assert forall|i: int| k + 2 < i < list.len() implies (#[trigger] list[i]).0 != encode_utf8(
            numbered(prefix, k),
        ) by {
            lemma_numbers_differ(prefix, i - 2, k);
            lemma_names_differ(numbered(prefix, i - 2), numbered(prefix, k));
        }
        assert(list[k + 2] == (encode_utf8(numbered(prefix, k)), arguments[k]));
        lemma_set_once(list, numbered(prefix, k), k + 2);
    }
}

/// No two hooks look the same to a recipe.
pub proof fn hooks_are_told_apart(
    first: &str,
    second: &str,
    arguments: &Vec<NativeText>,
    one: Vec<(NativeText, NativeText)>,
    other: Vec<(NativeText, NativeText)>,
)
    requires
        first@ != second@,
        call_ensures(hook_environment, (first, arguments), Ok(one)),
        call_ensures(hook_environment, (second, arguments), Ok(other)),
    ensures
        variable_views(one@) != variable_views(other@),
{
    recipes_learn_of_their_hook(first, arguments, Ok(one));
    recipes_learn_of_their_hook(second, arguments, Ok(other));
    lemma_names_differ(first@, second@);
}

/// The names of the variables for Git.
pub open spec fn git_name(name: Seq<char>) -> bool {
    name == "GIT_DIR"@ || name == "GIT_COMMON_DIR"@ || name == "GIT_WORK_TREE"@ || name
        == "GIT_INDEX_FILE"@ || name == "GIT_LFS_SKIP_SMUDGE"@
}

/// Git works on this repository, this tree and, if there is one, this index.
pub open spec fn points_git_at(
    variables: Seq<(Seq<u8>, Seq<u8>)>,
    repository: Repository,
    work_tree: Seq<u8>,
    index: Seq<u8>,
) -> bool {
    &&& value_of(variables, "GIT_DIR"@) == Some(repository.git_dir@)
    &&& value_of(variables, "GIT_COMMON_DIR"@) == Some(repository.common_dir@)
    &&& value_of(variables, "GIT_WORK_TREE"@) == Some(work_tree)
    &&& value_of(variables, "GIT_INDEX_FILE"@) == Some(index)
    &&& value_of(variables, "GIT_LFS_SKIP_SMUDGE"@) == Some(encode_utf8("1"@))
}

proof fn lemma_git_names()
    ensures
        encode_utf8("GIT_DIR"@) != encode_utf8("GIT_COMMON_DIR"@),
        encode_utf8("GIT_DIR"@) != encode_utf8("GIT_WORK_TREE"@),
        encode_utf8("GIT_DIR"@) != encode_utf8("GIT_INDEX_FILE"@),
        encode_utf8("GIT_DIR"@) != encode_utf8("GIT_LFS_SKIP_SMUDGE"@),
        encode_utf8("GIT_COMMON_DIR"@) != encode_utf8("GIT_WORK_TREE"@),
        encode_utf8("GIT_COMMON_DIR"@) != encode_utf8("GIT_INDEX_FILE"@),
        encode_utf8("GIT_COMMON_DIR"@) != encode_utf8("GIT_LFS_SKIP_SMUDGE"@),
        encode_utf8("GIT_WORK_TREE"@) != encode_utf8("GIT_INDEX_FILE"@),
        encode_utf8("GIT_WORK_TREE"@) != encode_utf8("GIT_LFS_SKIP_SMUDGE"@),
        encode_utf8("GIT_INDEX_FILE"@) != encode_utf8("GIT_LFS_SKIP_SMUDGE"@),
{
    reveal_strlit("GIT_DIR");
    reveal_strlit("GIT_COMMON_DIR");
    reveal_strlit("GIT_WORK_TREE");
    reveal_strlit("GIT_INDEX_FILE");
    reveal_strlit("GIT_LFS_SKIP_SMUDGE");
    assert("GIT_COMMON_DIR"@[4] == 'C' && "GIT_INDEX_FILE"@[4] == 'I');
    native_text_round_trip("GIT_DIR"@);
    native_text_round_trip("GIT_COMMON_DIR"@);
    native_text_round_trip("GIT_WORK_TREE"@);
    native_text_round_trip("GIT_INDEX_FILE"@);
    native_text_round_trip("GIT_LFS_SKIP_SMUDGE"@);
}

/// What is added for Git points it at a repository and a tree, and at an index
/// of its own exactly if there is one; nothing else is touched.
pub proof fn git_is_pointed_at_the_tree(
    base: Seq<(Seq<u8>, Seq<u8>)>,
    repository: Repository,
    work_tree: Seq<u8>,
    index: Option<Seq<u8>>,
    name: Seq<char>,
)
    ensures
        ({
            let variables = base + git_variables(repository, work_tree, index);
            &&& value_of(variables, "GIT_DIR"@) == Some(repository.git_dir@)
            &&& value_of(variables, "GIT_COMMON_DIR"@) == Some(repository.common_dir@)
            &&& value_of(variables, "GIT_WORK_TREE"@) == Some(work_tree)
            &&& index matches Some(path) ==> points_git_at(variables, repository, work_tree, path)
            &&& index is None ==> value_of(variables, "GIT_INDEX_FILE"@) == value_of(
                base,
                "GIT_INDEX_FILE"@,
            )
            &&& !git_name(name) ==> value_of(variables, name) == value_of(base, name)
        }),
{
    let list = git_variables(repository, work_tree, index);
    lemma_git_names();
    lemma_set_once(list, "GIT_DIR"@, 0);
    lemma_set_once(list, "GIT_COMMON_DIR"@, 1);
    lemma_set_once(list, "GIT_WORK_TREE"@, 2);
    lemma_after(base, list, "GIT_DIR"@);
    lemma_after(base, list, "GIT_COMMON_DIR"@);
    lemma_after(base, list, "GIT_WORK_TREE"@);
    lemma_after(base, list, "GIT_INDEX_FILE"@);
    lemma_after(base, list, "GIT_LFS_SKIP_SMUDGE"@);
    if index is Some {
        lemma_set_once(list, "GIT_INDEX_FILE"@, 3);
        lemma_set_once(list, "GIT_LFS_SKIP_SMUDGE"@, 4);
    } else {
        lemma_absent(list, "GIT_INDEX_FILE"@);
    }
    if !git_name(name) {
        native_text_round_trip(name);
        native_text_round_trip("GIT_DIR"@);
        native_text_round_trip("GIT_COMMON_DIR"@);
        native_text_round_trip("GIT_WORK_TREE"@);
        native_text_round_trip("GIT_INDEX_FILE"@);
        native_text_round_trip("GIT_LFS_SKIP_SMUDGE"@);
        assert forall|i: int| 0 <= i < list.len() implies (#[trigger] list[i]).0 != encode_utf8(
            name,
        ) by {}
        lemma_absent(list, name);
        lemma_after(base, list, name);
    }
}

proof fn lemma_ref_variables(refs: Seq<Seq<char>>, name: Seq<char>)
    ensures
        value_of(ref_variables(refs), "PIPELINE_REF_COUNT"@) == Some(
            encode_utf8(decimal(refs.len())),
        ),
        forall|i: int|
            0 <= i < refs.len() ==> value_of(
                ref_variables(refs),
                #[trigger] numbered("PIPELINE_REF_"@, i),
            ) == Some(encode_utf8(refs[i])),
        !"PIPELINE_REF_"@.is_prefix_of(name) ==> value_of(ref_variables(refs), name) is None,
{
    let list = ref_variables(refs);
    let prefix = "PIPELINE_REF_"@;
    reveal_strlit("PIPELINE_REF_");
    reveal_strlit("PIPELINE_REF_COUNT");
    assert forall|i: int| 1 <= i < list.len() implies (#[trigger] list[i]).0 == encode_utf8(
        numbered(prefix, i - 1),
    ) by {}
    assert forall|i: int| 1 <= i < list.len() implies (#[trigger] list[i]).0 != encode_utf8(
        "PIPELINE_REF_COUNT"@,
    ) by {
        crate::text::decimal_has_digits((i - 1) as nat);
        assert(numbered(prefix, i - 1)[13] == decimal((i - 1) as nat)[0]);
        assert("PIPELINE_REF_COUNT"@[13] == 'C');
        lemma_names_differ(numbered(prefix, i - 1), "PIPELINE_REF_COUNT"@);
    }
    lemma_set_once(list, "PIPELINE_REF_COUNT"@, 0);
    assert forall|k: int| 0 <= k < refs.len() implies value_of(
        list,
        #[trigger] numbered(prefix, k),
    ) == Some(encode_utf8(refs[k])) by {
        assert forall|i: int| k + 1 < i < list.len() implies (#[trigger] list[i]).0 != encode_utf8(
            numbered(prefix, k),
        ) by {
            lemma_numbers_differ(prefix, i - 1, k);
            lemma_names_differ(numbered(prefix, i - 1), numbered(prefix, k));
        }
        assert(list[k + 1] == (encode_utf8(numbered(prefix, k)), encode_utf8(refs[k])));
        lemma_set_once(list, numbered(prefix, k), k + 1);
    }
    if !prefix.is_prefix_of(name) {
        assert forall|i: int| 0 <= i < list.len() implies (#[trigger] list[i]).0 != encode_utf8(
            name,
        ) by {
            if i == 0 {
                assert(prefix =~= "PIPELINE_REF_COUNT"@.subrange(0, 13));
                lemma_names_differ("PIPELINE_REF_COUNT"@, name);
            } else {
                let other = numbered(prefix, i - 1);
                assert(prefix =~= other.subrange(0, 13));
                lemma_names_differ(other, name);
            }
        }
        lemma_absent(list, name);
    }
}

/// The variables that say what is pushed.
pub open spec fn push_name(name: Seq<char>) -> bool {
    name == "PIPELINE_COMMIT"@ || "PIPELINE_REF_"@.is_prefix_of(name)
}

/// A recipe that runs over an incoming commit learns which commit that is and
/// which references are pushed, and Git works on the tree of the commit. What
/// its hook told it stays.
pub proof fn recipes_learn_of_their_commit(
    base: &Vec<(NativeText, NativeText)>,
    refs: &Vec<String>,
    commit: &str,
    repository: &Repository,
    work_tree: &HostPath,
    index: &HostPath,
    environment: Vec<(NativeText, NativeText)>,
    name: Seq<char>,
)
    requires
        call_ensures(
            incoming_environment,
            (base, refs, commit, repository, work_tree, index),
            environment,
        ),
    ensures
        ({
            let variables = variable_views(environment@);
            &&& points_git_at(variables, *repository, work_tree@, index@)
            &&& value_of(variables, "PIPELINE_COMMIT"@) == Some(encode_utf8(commit@))
            &&& value_of(variables, "PIPELINE_REF_COUNT"@) == Some(
                encode_utf8(decimal(refs@.len())),
            )
            &&& forall|i: int|
                0 <= i < refs@.len() ==> value_of(
                    variables,
                    #[trigger] numbered("PIPELINE_REF_"@, i),
                ) == Some(encode_utf8(refs@[i]@))
            &&& !git_name(name) && !push_name(name) ==> value_of(variables, name) == value_of(
                variable_views(base@),
                name,
            )
        }),
{
    let first = variable_views(base@);
    let pushed = ref_variables(views(refs@));
    let told = first + pushed;
    let item = seq![(encode_utf8("PIPELINE_COMMIT"@), encode_utf8(commit@))];
    let known = told + item;
    let variables = variable_views(environment@);
    lemma_other_names();
    lemma_ref_variables(views(refs@), name);
    lemma_set_once(item, "PIPELINE_COMMIT"@, 0);
    lemma_after(told, item, "PIPELINE_COMMIT"@);
    git_is_pointed_at_the_tree(known, *repository, work_tree@, Some(index@), "PIPELINE_COMMIT"@);
    let count = "PIPELINE_REF_COUNT"@;
    lemma_absent(item, count);
    lemma_after(told, item, count);
    lemma_after(first, pushed, count);
    git_is_pointed_at_the_tree(known, *repository, work_tree@, Some(index@), count);
    assert forall|i: int| 0 <= i < refs@.len() implies value_of(
        variables,
        #[trigger] numbered("PIPELINE_REF_"@, i),
    ) == Some(encode_utf8(refs@[i]@)) by {
        let wanted = numbered("PIPELINE_REF_"@, i);
        reveal_strlit("PIPELINE_REF_");
        reveal_strlit("PIPELINE_COMMIT");
        assert(wanted[9] == 'R' && "PIPELINE_COMMIT"@[9] == 'C');
        lemma_names_differ(wanted, "PIPELINE_COMMIT"@);
        lemma_absent(item, wanted);
        lemma_after(told, item, wanted);
        lemma_after(first, pushed, wanted);
        assert(!git_name(wanted)) by {
            reveal_strlit("GIT_DIR");
            reveal_strlit("GIT_COMMON_DIR");
            reveal_strlit("GIT_WORK_TREE");
            reveal_strlit("GIT_INDEX_FILE");
            reveal_strlit("GIT_LFS_SKIP_SMUDGE");
            assert(wanted[0] == 'P');
        }
        git_is_pointed_at_the_tree(known, *repository, work_tree@, Some(index@), wanted);
        assert(views(refs@)[i] == refs@[i]@);
    }
    git_is_pointed_at_the_tree(known, *repository, work_tree@, Some(index@), name);
    if !push_name(name) {
        lemma_names_differ(name, "PIPELINE_COMMIT"@);
        lemma_absent(item, name);
        lemma_after(told, item, name);
        lemma_after(first, pushed, name);
    }
}

proof fn lemma_other_names()
    ensures
        !git_name("PIPELINE_COMMIT"@),
        !git_name("PIPELINE_REF_COUNT"@),
        encode_utf8("PIPELINE_COMMIT"@) != encode_utf8("PIPELINE_REF_COUNT"@),
{
    reveal_strlit("GIT_DIR");
    reveal_strlit("GIT_COMMON_DIR");
    reveal_strlit("GIT_WORK_TREE");
    reveal_strlit("GIT_INDEX_FILE");
    reveal_strlit("GIT_LFS_SKIP_SMUDGE");
    reveal_strlit("PIPELINE_COMMIT");
    reveal_strlit("PIPELINE_REF_COUNT");
    assert("PIPELINE_COMMIT"@[0] == 'P' && "PIPELINE_REF_COUNT"@[0] == 'P');
    assert("PIPELINE_COMMIT"@.len() == 15 && "PIPELINE_REF_COUNT"@.len() == 18);
    lemma_names_differ("PIPELINE_COMMIT"@, "PIPELINE_REF_COUNT"@);
}

} // verus!
