//! What Git pushes.

use crate::error::{says, PipelineError};
use crate::hooks::updates::{update_views, RefUpdate, UpdateModel};
use crate::native::{native_views, NativeText};
use crate::protocol::MAX_REF_INPUT;
use crate::text::{concat2, views};
use vstd::prelude::*;
use vstd::utf8::{decode_utf8, valid_utf8};

verus! {

/// Where a receive hook finds its updates.
#[derive(Clone, Copy, Debug, PartialEq, Eq, Structural)]
pub enum UpdateSource {
    /// On standard input, which recipes get as well.
    Input,
    /// In the arguments `REF OLD-OID NEW-OID`.
    Arguments,
    /// In references that are resolved.
    References,
    /// In the commit to check out.
    Checkout,
    Nowhere,
}

pub open spec fn source_of(hook: Seq<char>, bare: bool) -> UpdateSource {
    if hook == "pre-receive"@ || hook == "post-receive"@ {
        UpdateSource::Input
    } else if hook == "reference-transaction"@ && bare {
        UpdateSource::Input
    } else if hook == "update"@ {
        UpdateSource::Arguments
    } else if hook == "post-update"@ {
        UpdateSource::References
    } else if hook == "push-to-checkout"@ {
        UpdateSource::Checkout
    } else {
        UpdateSource::Nowhere
    }
}

/// Where a receive hook finds its updates.
pub fn update_source(hook: &str, bare: bool) -> (source: UpdateSource)
    ensures
        source == source_of(hook@, bare),
{
    if *hook == *"pre-receive" || *hook == *"post-receive" {
        UpdateSource::Input
    } else if *hook == *"reference-transaction" && bare {
        UpdateSource::Input
    } else if *hook == *"update" {
        UpdateSource::Arguments
    } else if *hook == *"post-update" {
        UpdateSource::References
    } else if *hook == *"push-to-checkout" {
        UpdateSource::Checkout
    } else {
        UpdateSource::Nowhere
    }
}

/// Refuses input of an unreasonable size.
pub fn check_ref_input(length: u64) -> (result: Result<(), PipelineError>)
    ensures
        length <= MAX_REF_INPUT ==> result is Ok,
        length > MAX_REF_INPUT ==> (result matches Err(error) && says(
            error,
            "Git hook input exceeds 16 MiB"@,
        )),
{
    if length > MAX_REF_INPUT {
        Err(PipelineError::Message(String::from_str("Git hook input exceeds 16 MiB")))
    } else {
        Ok(())
    }
}

/// The text of an argument that must be text.
pub open spec fn reads_text(
    argument: Seq<u8>,
    description: Seq<char>,
    result: Result<String, PipelineError>,
) -> bool {
    if valid_utf8(argument) {
        result matches Ok(text) && text@ == decode_utf8(argument)
    } else {
        result matches Err(error) && says(error, "Git supplied a non-UTF-8 "@ + description)
    }
}

/// The text of an argument that must be text.
pub fn unicode_argument(argument: &NativeText, description: &str) -> (result: Result<
    String,
    PipelineError,
>)
    ensures
        reads_text(argument@, description@, result),
{
    match argument.to_text() {
        Some(text) => Ok(text),
        None => Err(PipelineError::Message(concat2("Git supplied a non-UTF-8 ", description))),
    }
}

/// The update that the arguments of the `update` hook describe.
pub fn update_from_arguments(arguments: &Vec<NativeText>) -> (result: Result<
    RefUpdate,
    PipelineError,
>)
    ensures
        ({
            let list = native_views(arguments@);
            if list.len() != 3 {
                result matches Err(error) && says(
                    error,
                    "the update hook requires REF OLD-OID NEW-OID arguments"@,
                )
            } else if !valid_utf8(list[0]) {
                result matches Err(error) && says(error, "Git supplied a non-UTF-8 reference"@)
            } else if !valid_utf8(list[1]) {
                result matches Err(error) && says(error, "Git supplied a non-UTF-8 old object ID"@)
            } else if !valid_utf8(list[2]) {
                result matches Err(error) && says(error, "Git supplied a non-UTF-8 new object ID"@)
            } else {
                result matches Ok(update) && update@ == (UpdateModel {
                    reference: decode_utf8(list[0]),
                    old_oid: decode_utf8(list[1]),
                    new_oid: decode_utf8(list[2]),
                })
            }
        }),
{
    let ghost list = native_views(arguments@);
    if arguments.len() != 3 {
        return Err(
            PipelineError::Message(
                String::from_str("the update hook requires REF OLD-OID NEW-OID arguments"),
            ),
        );
    }
    proof {
        assert(list[0] == arguments@[0]@ && list[1] == arguments@[1]@ && list[2]
            == arguments@[2]@);
        lemma_descriptions();
    }
    let reference = match unicode_argument(&arguments[0], "reference") {
        Ok(text) => text,
        Err(error) => {
            return Err(error);
        },
    };
    let old_oid = match unicode_argument(&arguments[1], "old object ID") {
        Ok(text) => text,
        Err(error) => {
            return Err(error);
        },
    };
    let new_oid = match unicode_argument(&arguments[2], "new object ID") {
        Ok(text) => text,
        Err(error) => {
            return Err(error);
        },
    };
    Ok(RefUpdate { old_oid, new_oid, reference })
}

proof fn lemma_descriptions()
    ensures
        "Git supplied a non-UTF-8 "@ + "reference"@ == "Git supplied a non-UTF-8 reference"@,
        "Git supplied a non-UTF-8 "@ + "old object ID"@
            == "Git supplied a non-UTF-8 old object ID"@,
        "Git supplied a non-UTF-8 "@ + "new object ID"@
            == "Git supplied a non-UTF-8 new object ID"@,
{
    reveal_strlit("Git supplied a non-UTF-8 ");
    reveal_strlit("reference");
    reveal_strlit("old object ID");
    reveal_strlit("new object ID");
    reveal_strlit("Git supplied a non-UTF-8 reference");
    reveal_strlit("Git supplied a non-UTF-8 old object ID");
    reveal_strlit("Git supplied a non-UTF-8 new object ID");
    assert("Git supplied a non-UTF-8 "@ + "reference"@ =~= "Git supplied a non-UTF-8 reference"@);
    assert("Git supplied a non-UTF-8 "@ + "old object ID"@
        =~= "Git supplied a non-UTF-8 old object ID"@);
    assert("Git supplied a non-UTF-8 "@ + "new object ID"@
        =~= "Git supplied a non-UTF-8 new object ID"@);
}

/// The update that the arguments of the `push-to-checkout` hook describe.
pub fn update_from_checkout(arguments: &Vec<NativeText>) -> (result: Result<
    RefUpdate,
    PipelineError,
>)
    ensures
        ({
            let list = native_views(arguments@);
            if list.len() == 0 {
                result matches Err(error) && says(
                    error,
                    "the push-to-checkout hook requires a new object ID"@,
                )
            } else if !valid_utf8(list[0]) {
                result matches Err(error) && says(error, "Git supplied a non-UTF-8 new object ID"@)
            } else {
                result matches Ok(update) && update@ == (UpdateModel {
                    reference: "HEAD"@,
                    old_oid: seq![],
                    new_oid: decode_utf8(list[0]),
                })
            }
        }),
{
    let ghost list = native_views(arguments@);
    if arguments.len() == 0 {
        return Err(
            PipelineError::Message(
                String::from_str("the push-to-checkout hook requires a new object ID"),
            ),
        );
    }
    proof {
        assert(list[0] == arguments@[0]@);
        lemma_descriptions();
    }
    match unicode_argument(&arguments[0], "new object ID") {
        Ok(new_oid) => {
            let update = RefUpdate {
                old_oid: String::new(),
                new_oid,
                reference: String::from_str("HEAD"),
            };
            proof {
                assert(update@.old_oid =~= seq![]);
            }
            Ok(update)
        },
        Err(error) => Err(error),
    }
}

/// The updates that resolved references describe: those that are text and lead
/// to a commit.
pub open spec fn resolved_updates(
    arguments: Seq<Seq<u8>>,
    replies: Seq<Option<Seq<char>>>,
) -> Seq<UpdateModel>
    decreases arguments.len(),
{
    if arguments.len() == 0 {
        seq![]
    } else {
        let before = resolved_updates(arguments.drop_last(), replies.drop_last());
        if valid_utf8(arguments.last()) && replies.last() is Some {
            before.push(
                UpdateModel {
                    old_oid: seq![],
                    new_oid: replies.last()->Some_0,
                    reference: decode_utf8(arguments.last()),
                },
            )
        } else {
            before
        }
    }
}

/// The commit that a reply resolved to, if it did.
pub open spec fn commit_views(replies: Seq<Option<String>>) -> Seq<Option<Seq<char>>> {
    Seq::new(
        replies.len(),
        |i: int|
            match replies[i] {
                Some(commit) => Some(commit@),
                None => None,
            },
    )
}

/// The updates that the references of the `post-update` hook describe.
/// `commits` holds for each what it resolves to, if it is text and does.
pub fn updates_from_refs(arguments: &Vec<NativeText>, commits: &Vec<Option<String>>) -> (updates:
    Vec<RefUpdate>)
    requires
        commits@.len() == arguments@.len(),
    ensures
        update_views(updates@) == resolved_updates(
            native_views(arguments@),
            commit_views(commits@),
        ),
{
    let ghost list = native_views(arguments@);
    let ghost found = commit_views(commits@);
    let mut updates: Vec<RefUpdate> = Vec::new();
    proof {
        assert(update_views(updates@) =~= seq![]);
    }
    let mut i: usize = 0;
    while i < arguments.len()
        invariant
            i <= arguments.len(),
            list == native_views(arguments@),
            found == commit_views(commits@),
            commits@.len() == arguments@.len(),
            update_views(updates@) == resolved_updates(list.take(i as int), found.take(i as int)),
        decreases arguments.len() - i,
    {
        proof {
            assert(list.take(i as int + 1).drop_last() =~= list.take(i as int));
            assert(found.take(i as int + 1).drop_last() =~= found.take(i as int));
            assert(list.take(i as int + 1).last() == arguments@[i as int]@);
            assert(found.take(i as int + 1).last() == found[i as int]);
        }
        if let Some(reference) = arguments[i].to_text() {
            if let Some(commit) = &commits[i] {
                let update = RefUpdate {
                    old_oid: String::new(),
                    new_oid: String::from_str(commit.as_str()),
                    reference,
                };
                proof {
                    assert(update@.old_oid =~= seq![]);
                    assert(update_views(updates@.push(update)) =~= update_views(updates@).push(
                        update@,
                    ));
                }
                updates.push(update);
            }
        }
        i += 1;
    }
    proof {
        assert(list.take(i as int) =~= list);
        assert(found.take(i as int) =~= found);
    }
    updates
}

/// The references of a list of updates.
pub fn update_references(updates: &Vec<RefUpdate>) -> (references: Vec<String>)
    ensures
        views(references@) == Seq::new(
            updates@.len(),
            |i: int| update_views(updates@)[i].reference,
        ),
{
    let ghost wanted = Seq::new(updates@.len(), |i: int| update_views(updates@)[i].reference);
    let mut references: Vec<String> = Vec::new();
    let mut i: usize = 0;
    while i < updates.len()
        invariant
            i <= updates.len(),
            wanted == Seq::new(updates@.len(), |i: int| update_views(updates@)[i].reference),
            views(references@) =~= wanted.take(i as int),
        decreases updates.len() - i,
    {
        let ghost before = references@;
        references.push(String::from_str(updates[i].reference.as_str()));
        proof {
            assert(views(references@) =~= views(before).push(references@.last()@));
            assert(wanted[i as int] == updates@[i as int].reference@);
        }
        i += 1;
    }
    proof {
        assert(wanted.take(i as int) =~= wanted);
    }
    references
}

} // verus!
