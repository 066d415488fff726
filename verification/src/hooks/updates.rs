//! What Git tells a hook: reference updates and arguments.

use crate::definition::project::variable_views;
use crate::hooks::error::HookError;
use crate::hooks::repository::blank;
use crate::hooks::{is_supported_hook, supported};
use crate::names::{ascending, NameSet};
use crate::native::{copy_bytes, from_utf8, native_views, NativeText};
use crate::text::{
    chars_of, concat2, copy_texts, decimal, decimal_text, lines, split_lines, split_words, trim,
    views, words,
};
use vstd::prelude::*;
use vstd::utf8::{decode_utf8, encode_utf8, valid_utf8};

verus! {

/// One line of Git's update protocol.
#[derive(Debug, PartialEq, Eq)]
pub struct RefUpdate {
    pub old_oid: String,
    pub new_oid: String,
    pub reference: String,
}

/// The model of an update.
pub struct UpdateModel {
    pub old_oid: Seq<char>,
    pub new_oid: Seq<char>,
    pub reference: Seq<char>,
}

impl View for RefUpdate {
    type V = UpdateModel;

    open spec fn view(&self) -> UpdateModel {
        UpdateModel {
            old_oid: self.old_oid@,
            new_oid: self.new_oid@,
            reference: self.reference@,
        }
    }
}

impl Clone for RefUpdate {
    fn clone(&self) -> (copy: RefUpdate)
        ensures
            copy@ == self@,
    {
        RefUpdate {
            old_oid: String::from_str(self.old_oid.as_str()),
            new_oid: String::from_str(self.new_oid.as_str()),
            reference: String::from_str(self.reference.as_str()),
        }
    }
}

pub open spec fn update_views(list: Seq<RefUpdate>) -> Seq<UpdateModel> {
    Seq::new(list.len(), |i: int| list[i]@)
}

/// The updates of a list of lines: three fields each, blank lines skipped.
/// Nothing if a line has another form.
pub open spec fn updates_of(rows: Seq<Seq<char>>) -> Option<Seq<UpdateModel>>
    decreases rows.len(),
{
    if rows.len() == 0 {
        Some(seq![])
    } else {
        let fields = words(rows.last());
        match updates_of(rows.drop_last()) {
            None => None,
            Some(before) => if blank(rows.last()) {
                Some(before)
            } else if fields.len() == 3 {
                Some(
                    before.push(
                        UpdateModel {
                            old_oid: fields[0],
                            new_oid: fields[1],
                            reference: fields[2],
                        },
                    ),
                )
            } else {
                None
            },
        }
    }
}

/// The updates that an input holds.
pub open spec fn updates_in(input: Seq<u8>) -> Option<Seq<UpdateModel>> {
    if valid_utf8(input) {
        updates_of(lines(decode_utf8(input)))
    } else {
        None
    }
}

proof fn lemma_bad_row(rows: Seq<Seq<char>>, n: int)
    requires
        0 <= n <= rows.len(),
        updates_of(rows.take(n)) is None,
    ensures
        updates_of(rows) is None,
    decreases rows.len() - n,
{
    if n < rows.len() {
        assert(rows.take(n + 1).drop_last() =~= rows.take(n));
        lemma_bad_row(rows, n + 1);
    } else {
        assert(rows.take(n) =~= rows);
    }
}

/// Reads the updates that Git writes to a receive hook.
pub fn parse_ref_updates(input: &[u8]) -> (result: Result<Vec<RefUpdate>, HookError>)
    ensures
        match updates_in(input@) {
            Some(updates) => result matches Ok(list) && update_views(list@) == updates,
            None => result matches Err(HookError::InvalidRefInput),
        },
{
    let text = match from_utf8(copy_bytes(input)) {
        Some(text) => text,
        None => {
            return Err(HookError::InvalidRefInput);
        },
    };
    let rows = split_lines(text.as_str());
    let ghost all = lines(text@);
    let mut updates: Vec<RefUpdate> = Vec::new();
    proof {
        assert(update_views(updates@) =~= seq![]);
        assert(all.take(0) =~= seq![]);
    }
    let mut i: usize = 0;
    while i < rows.len()
        invariant
            i <= rows.len(),
            views(rows@) == all,
            all == lines(text@),
            valid_utf8(input@),
            text@ == decode_utf8(input@),
            updates_of(all.take(i as int)) == Some(update_views(updates@)),
        decreases rows.len() - i,
    {
        let ghost next = all.take(i as int + 1);
        proof {
            assert(all[i as int] == rows@[i as int]@);
            assert(next.drop_last() =~= all.take(i as int));
            assert(next.last() == all[i as int]);
        }
        let rest = trim(rows[i].as_str());
        let chars = chars_of(rest.as_str());
        if chars.len() > 0 {
            let fields = split_words(rows[i].as_str());
            let ghost parts = words(all[i as int]);
            proof {
                assert(views(fields@) == parts);
            }
            if fields.len() != 3 {
                proof {
                    lemma_bad_row(all, i as int + 1);
                }
                return Err(HookError::InvalidRefInput);
            }
            let update = RefUpdate {
                old_oid: String::from_str(fields[0].as_str()),
                new_oid: String::from_str(fields[1].as_str()),
                reference: String::from_str(fields[2].as_str()),
            };
            proof {
                assert(parts[0] == fields@[0]@);
                assert(parts[1] == fields@[1]@);
                assert(parts[2] == fields@[2]@);
                assert(update_views(updates@.push(update)) =~= update_views(updates@).push(
                    update@,
                ));
            }
            updates.push(update);
        }
        i += 1;
    }
    proof {
        assert(all.take(i as int) =~= all);
    }
    Ok(updates)
}

/// The object name that stands for nothing.
pub open spec fn zero_oid(oid: Seq<char>) -> bool {
    oid.len() > 0 && forall|i: int| 0 <= i < oid.len() ==> #[trigger] oid[i] == '0'
}

/// Whether an object name stands for nothing.
pub fn is_zero_oid(oid: &str) -> (zero: bool)
    ensures
        zero == zero_oid(oid@),
{
    let chars = chars_of(oid);
    let mut i: usize = 0;
    while i < chars.len()
        invariant
            i <= chars.len(),
            chars@ == oid@,
            forall|k: int| 0 <= k < i ==> #[trigger] chars@[k] == '0',
        decreases chars.len() - i,
    {
        if chars[i] != '0' {
            return false;
        }
        i += 1;
    }
    chars.len() > 0
}

/// The update brings something, and its resolution ended in an error other than
/// that it is no commit.
pub open spec fn stops_at(update: RefUpdate, reply: Option<Result<String, HookError>>) -> bool {
    !zero_oid(update.new_oid@) && (reply matches Some(Err(error)) && !(error is InvalidRevision))
}

/// The update brings this commit.
pub open spec fn brings(
    update: RefUpdate,
    reply: Option<Result<String, HookError>>,
    commit: Seq<char>,
) -> bool {
    !zero_oid(update.new_oid@) && (reply matches Some(Ok(found)) && found@ == commit)
}

/// One of the first `n` updates brings the commit.
pub open spec fn brought(
    updates: Seq<RefUpdate>,
    replies: Seq<Option<Result<String, HookError>>>,
    n: int,
    commit: Seq<char>,
) -> bool {
    exists|i: int| 0 <= i < n && brings(updates[i], #[trigger] replies[i], commit)
}

/// None of the first `n` updates ends in an error.
pub open spec fn undisturbed(
    updates: Seq<RefUpdate>,
    replies: Seq<Option<Result<String, HookError>>>,
    n: int,
) -> bool {
    forall|i: int| 0 <= i < n ==> !stops_at(updates[i], #[trigger] replies[i])
}

/// The commits that updates bring, each once, in ascending order. `replies`
/// holds for every update what resolving its new object gave; deletions are not
/// resolved. What is no commit is skipped.
pub fn incoming_commits(
    updates: &Vec<RefUpdate>,
    replies: Vec<Option<Result<String, HookError>>>,
) -> (result: Result<Vec<String>, HookError>)
    requires
        replies@.len() == updates@.len(),
        forall|i: int|
            0 <= i < updates@.len() && !zero_oid(updates@[i].new_oid@) ==> #[trigger] replies@[i]
                is Some,
    ensures
        undisturbed(updates@, replies@, updates@.len() as int) ==> {
            &&& result matches Ok(list)
            &&& ascending(views(list@))
            &&& forall|commit: Seq<char>| #[trigger]
                views(list@).contains(commit) <==> brought(
                    updates@,
                    replies@,
                    updates@.len() as int,
                    commit,
                )
        },
        !undisturbed(updates@, replies@, updates@.len() as int) ==> {
            &&& result matches Err(error)
            &&& exists|i: int|
                0 <= i < updates@.len() && stops_at(updates@[i], #[trigger] replies@[i])
                    && undisturbed(updates@, replies@, i) && replies@[i] == Some(
                    Err::<String, HookError>(error),
                )
        },
{
    let ghost all = replies@;
    let mut left = replies;
    let mut commits = NameSet::new();
    proof {
        assert(all.skip(0) =~= all);
    }
    let mut i: usize = 0;
    while i < updates.len()
        invariant
            i <= updates.len(),
            all.len() == updates@.len(),
            left@ =~= all.skip(i as int),
            all == replies@,
            undisturbed(updates@, all, i as int),
            ascending(commits@),
            forall|commit: Seq<char>| #[trigger]
                commits@.contains(commit) <==> brought(updates@, all, i as int, commit),
        decreases updates.len() - i,
    {
        let ghost before = commits@;
        let reply = left.remove(0);
        proof {
            assert(reply == all[i as int]);
            assert(left@ =~= all.skip(i as int + 1));
        }
        if !is_zero_oid(updates[i].new_oid.as_str()) {
            match reply {
                Some(Ok(commit)) => {
                    commits.insert(commit.as_str());
                },
                Some(Err(error)) => {
                    if let HookError::InvalidRevision(_) = error {
                    } else {
                        proof {
                            assert(stops_at(updates@[i as int], all[i as int]));
                        }
                        return Err(error);
                    }
                },
                None => {},
            }
        }
        proof {
            assert forall|commit: Seq<char>| #[trigger]
                commits@.contains(commit) <==> brought(
                    updates@,
                    all,
                    i as int + 1,
                    commit,
                ) by {
                assert(before.contains(commit) <==> brought(updates@, all, i as int, commit));
                if brought(updates@, all, i as int, commit) {
                    let k = choose|k: int|
                        0 <= k < i && brings(updates@[k], #[trigger] all[k], commit);
                    assert(brings(updates@[k], all[k], commit));
                }
                if brings(updates@[i as int], all[i as int], commit) {
                    assert(brought(updates@, all, i as int + 1, commit));
                }
            }
        }
        i += 1;
    }
    Ok(copy_texts(commits.as_list()))
}

/// The variables that tell a recipe about its hook.
pub open spec fn hook_variables(hook: Seq<char>, arguments: Seq<Seq<u8>>) -> Seq<
    (Seq<u8>, Seq<u8>),
> {
    seq![
        (encode_utf8("PIPELINE_HOOK"@), encode_utf8(hook)),
        (encode_utf8("PIPELINE_HOOK_ARGC"@), encode_utf8(decimal(arguments.len()))),
    ] + Seq::new(
        arguments.len(),
        |i: int| (encode_utf8("PIPELINE_HOOK_ARG_"@ + decimal(i as nat)), arguments[i]),
    )
}

/// The environment of a hook.
pub fn hook_environment(hook: &str, arguments: &Vec<NativeText>) -> (result: Result<
    Vec<(NativeText, NativeText)>,
    HookError,
>)
    ensures
        supported(hook@) ==> (result matches Ok(list) && variable_views(list@) == hook_variables(
            hook@,
            native_views(arguments@),
        )),
        !supported(hook@) ==> (result matches Err(HookError::UnsupportedHook(name)) && name@
            == hook@),
{
    if !is_supported_hook(hook) {
        return Err(HookError::UnsupportedHook(String::from_str(hook)));
    }
    let ghost wanted = hook_variables(hook@, native_views(arguments@));
    let mut list: Vec<(NativeText, NativeText)> = Vec::new();
    list.push((NativeText::from_text("PIPELINE_HOOK"), NativeText::from_text(hook)));
    list.push(
        (
            NativeText::from_text("PIPELINE_HOOK_ARGC"),
            NativeText::from_text(decimal_text(arguments.len() as u64).as_str()),
        ),
    );
    proof {
        assert(variable_views(list@) =~= wanted.take(2));
    }
    let mut i: usize = 0;
    while i < arguments.len()
        invariant
            i <= arguments.len(),
            wanted == hook_variables(hook@, native_views(arguments@)),
            variable_views(list@) == wanted.take(i as int + 2),
        decreases arguments.len() - i,
    {
        let name = concat2("PIPELINE_HOOK_ARG_", decimal_text(i as u64).as_str());
        let item = (NativeText::from_text(name.as_str()), arguments[i].clone());
        proof {
            assert(variable_views(list@.push(item)) =~= variable_views(list@).push(
                (item.0@, item.1@),
            ));
            assert(wanted.take(i as int + 3) =~= wanted.take(i as int + 2).push(
                wanted[i as int + 2],
            ));
        }
        list.push(item);
        i += 1;
    }
    proof {
        assert(wanted.take(i as int + 2) =~= wanted);
    }
    Ok(list)
}

} // verus!
