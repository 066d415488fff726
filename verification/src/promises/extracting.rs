//! How Just is taken out of a container image.

use crate::just_runtime::command::{
    container_id, format_output_failure, image_is_absent, verified_executable,
};
use crate::just_runtime::extract::{ExtractReply, ExtractStep, Extraction};
use crate::just_runtime::version::JustVersion;
use crate::native::{join_adds_one_component, path_names, rooted, HostPath};
use crate::promises::searching::lemma_plain;
use vstd::prelude::*;
use vstd::utf8::encode_utf8;

verus! {

/// An extraction that was advanced from one state to the next by the replies to
/// its steps.
pub open spec fn follows(
    states: Seq<Extraction>,
    steps: Seq<ExtractStep>,
    replies: Seq<ExtractReply>,
) -> bool {
    &&& states.len() == replies.len() + 1
    &&& steps.len() == states.len()
    &&& forall|i: int| #![trigger states[i]]
        0 <= i < states.len() ==> call_ensures(Extraction::step, (&states[i],), steps[i])
    &&& forall|i: int| #![trigger replies[i]]
        0 <= i < replies.len() ==> call_ensures(
            Extraction::advance,
            (states[i], replies[i]),
            states[i + 1],
        )
}

/// A step runs the engine with these words.
pub open spec fn runs_engine(step: ExtractStep, words: Seq<Seq<u8>>) -> bool {
    step matches ExtractStep::Engine(list) && list@.len() == words.len() && forall|i: int|
        0 <= i < words.len() ==> (#[trigger] list@[i])@ == words[i]
}

/// The engine did what it was asked for.
pub open spec fn went_well(reply: ExtractReply) -> bool {
    reply matches ExtractReply::Ran(Ok(output)) && output.code == Some(0i32)
}

/// Whether the engine did something else than it was asked for.
pub open spec fn went_wrong(reply: ExtractReply) -> bool {
    reply matches ExtractReply::Ran(Ok(output)) && output.code != Some(0i32)
}

/// `just` in a directory.
pub open spec fn just_in(path: Seq<u8>, directory: Seq<u8>) -> bool {
    path_names(path) == path_names(directory).push(encode_utf8("just"@))
}

proof fn lemma_just_in(directory: Seq<u8>)
    requires
        rooted(directory),
    ensures
        just_in(crate::just_runtime::extract::extracted_at(directory), directory),
{
    reveal_strlit("just");
    lemma_plain("just"@);
    join_adds_one_component(directory, encode_utf8("just"@));
}

proof fn lemma_engine(step: ExtractStep, words: Seq<Seq<u8>>)
    requires
        crate::just_runtime::extract::extract_step_view(step)
            == crate::just_runtime::extract::ExtractStepView::Engine(words),
    ensures
        runs_engine(step, words),
{
    if let ExtractStep::Engine(list) = step {
        let all = crate::native::native_views(list@);
        assert(all == words);
        assert forall|i: int| 0 <= i < words.len() implies (#[trigger] list@[i])@ == words[i] by {
            assert(all[i] == list@[i]@);
        }
    }
}

/// The image is inspected, a directory is made, a container is created, `/just`
/// is copied out of that container to the directory, that container is removed,
/// and the copy is made executable for the user alone and tried.
#[verifier::rlimit(40)]
pub proof fn just_is_copied_out_of_the_image(
    image: &str,
    minimum: &JustVersion,
    name: &str,
    temporary: HostPath,
    cache: Option<HostPath>,
    states: Seq<Extraction>,
    steps: Seq<ExtractStep>,
    replies: Seq<ExtractReply>,
    id: String,
    verdict: Result<(HostPath, JustVersion), String>,
    result: Result<(HostPath, JustVersion, HostPath), String>,
)
    requires
        call_ensures(Extraction::new, (image, minimum, name, Some(temporary), cache), states[0]),
        follows(states, steps, replies),
        replies.len() == 7,
        went_well(replies[0]),
        replies[1] matches ExtractReply::Directory(directory) && rooted(directory@),
        went_well(replies[2]),
        call_ensures(container_id, (&replies[2]->Ran_0->Ok_0, name), id),
        went_well(replies[3]),
        went_well(replies[4]),
        replies[5] is Done,
        replies[6] is Tried,
        call_ensures(
            verified_executable,
            (minimum, &replies[6]->output, &replies[6]->resolved),
            verdict,
        ),
        call_ensures(Extraction::finish, (states[7],), result),
    ensures
        ({
            let directory = replies[1]->Directory_0@;
            &&& runs_engine(
                steps[0],
                seq![encode_utf8("image"@), encode_utf8("inspect"@), encode_utf8(image@)],
            )
            &&& steps[1] matches ExtractStep::MakeTemporary(root) && root@ == temporary@
            &&& runs_engine(
                steps[2],
                seq![
                    encode_utf8("create"@),
                    encode_utf8("--name"@),
                    encode_utf8(name@),
                    encode_utf8(image@),
                    encode_utf8("/just"@),
                    encode_utf8("--version"@),
                ],
            )
            &&& steps[6] matches ExtractStep::Verify(copy) && just_in(copy@, directory)
            &&& runs_engine(
                steps[3],
                seq![encode_utf8("cp"@), encode_utf8(id@ + ":/just"@), steps[6]->Verify_0@],
            )
            &&& runs_engine(
                steps[4],
                seq![encode_utf8("rm"@), encode_utf8("-f"@), encode_utf8(id@)],
            )
            &&& steps[5] matches ExtractStep::MarkExecutable { path, mode } && path@
                == steps[6]->Verify_0@ && mode == 0o700
            &&& verdict matches Ok((executable, version)) ==> steps[7] is End && (result matches Ok(
                (path, found, home),
            ) && path@ == executable@ && found@ == version@ && home@ == directory)
        }),
{
    assert(replies[0] is Ran);
    let s0 = states[0];
    let s1 = states[1];
    let s2 = states[2];
    let s3 = states[3];
    let s4 = states[4];
    let s5 = states[5];
    let s6 = states[6];
    let s7 = states[7];
    let directory = replies[1]->Directory_0@;
    lemma_just_in(directory);
    let r0 = replies[0];
    let r1 = replies[1];
    let r2 = replies[2];
    let r3 = replies[3];
    let r4 = replies[4];
    let r5 = replies[5];
    let r6 = replies[6];
    lemma_engine(
        steps[0],
        seq![encode_utf8("image"@), encode_utf8("inspect"@), encode_utf8(image@)],
    );
    assert(s1@.phase is MakeTemporary);
    assert(s2@.phase is Create);
    lemma_engine(
        steps[2],
        seq![
            encode_utf8("create"@),
            encode_utf8("--name"@),
            encode_utf8(name@),
            encode_utf8(image@),
            encode_utf8("/just"@),
            encode_utf8("--version"@),
        ],
    );
    assert(s3@.phase is CopyOut);
    assert(s4@.phase is RemoveContainer);
    assert(s5@.phase is MarkExecutable);
    assert(s6@.phase is Verify);
    lemma_engine(
        steps[3],
        seq![encode_utf8("cp"@), encode_utf8(id@ + ":/just"@), steps[6]->Verify_0@],
    );
    lemma_engine(steps[4], seq![encode_utf8("rm"@), encode_utf8("-f"@), encode_utf8(id@)]);
}

/// An image that is not there is pulled, once; whatever else keeps it from being
/// inspected ends the extraction.
pub proof fn only_absent_images_are_pulled(
    image: &str,
    minimum: &JustVersion,
    name: &str,
    temporary: Option<HostPath>,
    cache: Option<HostPath>,
    states: Seq<Extraction>,
    steps: Seq<ExtractStep>,
    replies: Seq<ExtractReply>,
    absent: bool,
    result: Result<(HostPath, JustVersion, HostPath), String>,
    report: String,
)
    requires
        call_ensures(Extraction::new, (image, minimum, name, temporary, cache), states[0]),
        follows(states, steps, replies),
        replies.len() == 2,
        went_wrong(replies[0]),
        call_ensures(image_is_absent, (&replies[0]->Ran_0->Ok_0,), absent),
        !absent ==> call_ensures(Extraction::finish, (states[1],), result) && call_ensures(
            format_output_failure,
            ("cannot inspect image", &replies[0]->Ran_0->Ok_0),
            report,
        ),
        absent && went_wrong(replies[1]) ==> call_ensures(Extraction::finish, (states[2],), result)
            && call_ensures(
            format_output_failure,
            ("cannot pull image", &replies[1]->Ran_0->Ok_0),
            report,
        ),
    ensures
        absent <==> runs_engine(steps[1], seq![encode_utf8("pull"@), encode_utf8(image@)]),
        !absent ==> steps[1] is End && (result matches Err(error) && error@ == report@),
        absent && went_wrong(replies[1]) ==> steps[2] is End && (result matches Err(error) && error@
            == report@),
        absent && went_well(replies[1]) && temporary is Some ==> (
        steps[2] matches ExtractStep::MakeTemporary(root) && root@ == temporary->Some_0@),
        absent && went_well(replies[1]) && temporary is None && cache is Some ==> (
        steps[2] matches ExtractStep::EnsureDirectory(root) && root@ == cache->Some_0@),
{
    let s0 = states[0];
    let s1 = states[1];
    let s2 = states[2];
    let r0 = replies[0];
    let r1 = replies[1];
    if absent {
        lemma_engine(steps[1], seq![encode_utf8("pull"@), encode_utf8(image@)]);
    }
}

/// Without a temporary directory, the cache is made, shut to everyone else, and
/// used in its place.
pub proof fn the_cache_stands_in_for_the_temporary_directory(
    image: &str,
    minimum: &JustVersion,
    name: &str,
    temporary: HostPath,
    cache: HostPath,
    states: Seq<Extraction>,
    steps: Seq<ExtractStep>,
    replies: Seq<ExtractReply>,
)
    requires
        call_ensures(
            Extraction::new,
            (image, minimum, name, Some(temporary), Some(cache)),
            states[0],
        ),
        follows(states, steps, replies),
        replies.len() == 6,
        went_well(replies[0]),
        replies[1] is Refused,
        replies[2] is Done,
        replies[3] is Done,
        replies[4] matches ExtractReply::Directory(directory) && rooted(directory@),
        went_well(replies[5]),
    ensures
        steps[2] matches ExtractStep::EnsureDirectory(root) && root@ == cache@,
        steps[3] matches ExtractStep::SecureDirectory { path, mode } && path@ == cache@ && mode
            == 0o700,
        steps[4] matches ExtractStep::MakeCached(root) && root@ == cache@,
        steps[5] matches ExtractStep::Engine(words) && words@.len() == 6 && words@[0]@
            == encode_utf8("create"@),
        steps[6] matches ExtractStep::Engine(words) && words@.len() == 3 && just_in(
            words@[2]@,
            replies[4]->Directory_0@,
        ),
{
    let s0 = states[0];
    let s1 = states[1];
    let s2 = states[2];
    let s3 = states[3];
    let s4 = states[4];
    let s5 = states[5];
    let s6 = states[6];
    let r0 = replies[0];
    let r1 = replies[1];
    let r2 = replies[2];
    let r3 = replies[3];
    let r4 = replies[4];
    let r5 = replies[5];
    let directory = replies[4]->Directory_0@;
    lemma_just_in(directory);
    assert(s4@.phase is MakeCache);
    assert(s5@.phase is Create);
    lemma_engine(
        steps[5],
        seq![
            encode_utf8("create"@),
            encode_utf8("--name"@),
            encode_utf8(name@),
            encode_utf8(image@),
            encode_utf8("/just"@),
            encode_utf8("--version"@),
        ],
    );
    assert(s6@.phase is CopyOut);
    let id = s6@.phase->CopyOut_id;
    lemma_engine(
        steps[6],
        seq![
            encode_utf8("cp"@),
            encode_utf8(id + ":/just"@),
            crate::just_runtime::extract::extracted_at(directory),
        ],
    );
    let words = steps[5]->Engine_0;
    let first = words@[0];
    let others = steps[6]->Engine_0;
    let third = others@[2];
}

/// What goes wrong with a container is reported, after the container is removed.
pub proof fn broken_containers_are_removed(
    image: &str,
    minimum: &JustVersion,
    name: &str,
    temporary: HostPath,
    cache: Option<HostPath>,
    states: Seq<Extraction>,
    steps: Seq<ExtractStep>,
    replies: Seq<ExtractReply>,
    id: String,
    report: String,
    result: Result<(HostPath, JustVersion, HostPath), String>,
)
    requires
        call_ensures(Extraction::new, (image, minimum, name, Some(temporary), cache), states[0]),
        follows(states, steps, replies),
        replies.len() == 5,
        went_well(replies[0]),
        replies[1] is Directory,
        went_well(replies[2]),
        call_ensures(container_id, (&replies[2]->Ran_0->Ok_0, name), id),
        went_wrong(replies[3]),
        call_ensures(
            format_output_failure,
            ("cannot copy /just from container", &replies[3]->Ran_0->Ok_0),
            report,
        ),
        replies[4] is Ran,
        call_ensures(Extraction::finish, (states[5],), result),
    ensures
        runs_engine(steps[4], seq![encode_utf8("rm"@), encode_utf8("-f"@), encode_utf8(id@)]),
        steps[5] is End,
        result matches Err(error) && error@ == report@,
{
    let s0 = states[0];
    let s1 = states[1];
    let s2 = states[2];
    let s3 = states[3];
    let s4 = states[4];
    let s5 = states[5];
    let r0 = replies[0];
    let r1 = replies[1];
    let r2 = replies[2];
    let r3 = replies[3];
    let r4 = replies[4];
    assert(s3@.phase is CopyOut);
    assert(s4@.phase is DropContainer);
    lemma_engine(steps[4], seq![encode_utf8("rm"@), encode_utf8("-f"@), encode_utf8(id@)]);
}

/// A container that is not created leaves nothing to remove, and ends the
/// extraction.
pub proof fn containers_that_are_not_created_end_it(
    image: &str,
    minimum: &JustVersion,
    name: &str,
    temporary: HostPath,
    cache: Option<HostPath>,
    states: Seq<Extraction>,
    steps: Seq<ExtractStep>,
    replies: Seq<ExtractReply>,
    report: String,
    result: Result<(HostPath, JustVersion, HostPath), String>,
)
    requires
        call_ensures(Extraction::new, (image, minimum, name, Some(temporary), cache), states[0]),
        follows(states, steps, replies),
        replies.len() == 3,
        went_well(replies[0]),
        replies[1] is Directory,
        went_wrong(replies[2]),
        call_ensures(
            format_output_failure,
            ("cannot create extraction container", &replies[2]->Ran_0->Ok_0),
            report,
        ),
        call_ensures(Extraction::finish, (states[3],), result),
    ensures
        steps[3] is End,
        result matches Err(error) && error@ == report@,
{
    let s0 = states[0];
    let s1 = states[1];
    let s2 = states[2];
    let s3 = states[3];
    let r0 = replies[0];
    let r1 = replies[1];
    let r2 = replies[2];
}

/// A copy that may not be run in the temporary directory is copied to the cache
/// and tried there; any other that is refused ends the extraction.
#[verifier::rlimit(60)]
pub proof fn copies_that_may_not_run_are_tried_in_the_cache(
    image: &str,
    minimum: &JustVersion,
    name: &str,
    temporary: HostPath,
    cache: HostPath,
    states: Seq<Extraction>,
    steps: Seq<ExtractStep>,
    replies: Seq<ExtractReply>,
    refusal: String,
    before: Seq<char>,
    after: Seq<char>,
    verdict: Result<(HostPath, JustVersion), String>,
    result: Result<(HostPath, JustVersion, HostPath), String>,
)
    requires
        call_ensures(
            Extraction::new,
            (image, minimum, name, Some(temporary), Some(cache)),
            states[0],
        ),
        follows(states, steps, replies),
        replies.len() == 13,
        went_well(replies[0]),
        replies[1] matches ExtractReply::Directory(directory) && rooted(directory@),
        went_well(replies[2]),
        went_well(replies[3]),
        went_well(replies[4]),
        replies[5] is Done,
        replies[6] is Tried,
        call_ensures(
            verified_executable,
            (minimum, &replies[6]->output, &replies[6]->resolved),
            Err::<(HostPath, JustVersion), String>(refusal),
        ),
        refusal@ == before + "ermission denied"@ + after,
        before.len() > 0,
        before.last() == 'P' || before.last() == 'p',
        replies[7] is Done,
        replies[8] is Done,
        replies[9] matches ExtractReply::Directory(directory) && rooted(directory@),
        replies[10] is Done,
        replies[11] is Done,
        replies[12] is Tried,
        call_ensures(
            verified_executable,
            (minimum, &replies[12]->output, &replies[12]->resolved),
            verdict,
        ),
        call_ensures(Extraction::finish, (states[13],), result),
    ensures
        steps[7] matches ExtractStep::EnsureDirectory(root) && root@ == cache@,
        steps[8] matches ExtractStep::SecureDirectory { path, mode } && path@ == cache@ && mode
            == 0o700,
        steps[9] matches ExtractStep::MakeCached(root) && root@ == cache@,
        steps[10] matches ExtractStep::CopyFile { from, to } && just_in(
            from@,
            replies[1]->Directory_0@,
        ) && just_in(to@, replies[9]->Directory_0@),
        steps[11] matches ExtractStep::MarkExecutable { path, mode } && just_in(
            path@,
            replies[9]->Directory_0@,
        ) && mode == 0o700,
        steps[12] matches ExtractStep::Verify(path) && just_in(path@, replies[9]->Directory_0@),
        steps[13] is End,
        verdict matches Ok((executable, version)) ==> (result matches Ok((path, found, home))
            && path@ == executable@ && found@ == version@ && home@ == replies[9]->Directory_0@),
        verdict is Err ==> result is Err,
{
    let s0 = states[0];
    let s1 = states[1];
    let s2 = states[2];
    let s3 = states[3];
    let s4 = states[4];
    let s5 = states[5];
    let s6 = states[6];
    let s7 = states[7];
    let r0 = replies[0];
    let r1 = replies[1];
    let r2 = replies[2];
    let r3 = replies[3];
    let r4 = replies[4];
    let r5 = replies[5];
    let r6 = replies[6];
    lemma_just_in(replies[1]->Directory_0@);
    lemma_just_in(replies[9]->Directory_0@);
    assert(s1@.phase is MakeTemporary);
    assert(s2@.phase is Create);
    assert(s3@.phase is CopyOut);
    assert(s4@.phase is RemoveContainer);
    assert(s5@.phase is MarkExecutable);
    assert(s6@.phase is Verify);
    assert(crate::just_runtime::command::noexec(refusal@)) by {
        reveal_strlit("ermission denied");
        reveal_strlit("Permission denied");
        reveal_strlit("permission denied");
        let at = before.len() - 1;
        let part = refusal@.subrange(at, at + 17);
        if before.last() == 'P' {
            assert(part =~= "Permission denied"@);
            assert(crate::text::occurs_at(refusal@, "Permission denied"@, at));
        } else {
            assert(part =~= "permission denied"@);
            assert(crate::text::occurs_at(refusal@, "permission denied"@, at));
        }
    }
    assert(s7@.phase is EnsureCache);
    let s8 = states[8];
    let s9 = states[9];
    let r7 = replies[7];
    let r8 = replies[8];
    assert(s9@.phase is MakeCache);
    let s10 = states[10];
    let r9 = replies[9];
    assert(s10@.phase is CopyToCache);
    let s11 = states[11];
    let r10 = replies[10];
    assert(s11@.phase is MarkCached);
    let s12 = states[12];
    let r11 = replies[11];
    assert(s12@.phase is VerifyCached);
    let s13 = states[13];
    let r12 = replies[12];
}

/// A copy that is refused for another reason is not tried again.
pub proof fn refused_copies_end_it(
    minimum: &JustVersion,
    state: Extraction,
    reply: ExtractReply,
    next: Extraction,
    step: ExtractStep,
    refusal: String,
    result: Result<(HostPath, JustVersion, HostPath), String>,
)
    requires
        state@.phase is Verify,
        state@.settings.minimum_version == minimum@,
        reply is Tried,
        call_ensures(
            verified_executable,
            (minimum, &reply->output, &reply->resolved),
            Err::<(HostPath, JustVersion), String>(refusal),
        ),
        !crate::text::contains_text(refusal@, "ermission denied"@),
        call_ensures(Extraction::advance, (state, reply), next),
        call_ensures(Extraction::step, (&next,), step),
        call_ensures(Extraction::finish, (next,), result),
    ensures
        step is End,
        result matches Err(error) && error@ == refusal@,
{
    assert(!crate::just_runtime::command::noexec(refusal@)) by {
        reveal_strlit("ermission denied");
        reveal_strlit("Permission denied");
        reveal_strlit("permission denied");
        assert forall|at: int| !crate::text::occurs_at(refusal@, "Permission denied"@, at) by {
            if crate::text::occurs_at(refusal@, "Permission denied"@, at) {
                let part = refusal@.subrange(at, at + 17);
                assert(part.skip(1) =~= "ermission denied"@);
                assert(refusal@.subrange(at + 1, at + 17) =~= part.skip(1));
                assert(crate::text::occurs_at(refusal@, "ermission denied"@, at + 1));
            }
        }
        assert forall|at: int| !crate::text::occurs_at(refusal@, "permission denied"@, at) by {
            if crate::text::occurs_at(refusal@, "permission denied"@, at) {
                let part = refusal@.subrange(at, at + 17);
                assert(part.skip(1) =~= "ermission denied"@);
                assert(refusal@.subrange(at + 1, at + 17) =~= part.skip(1));
                assert(crate::text::occurs_at(refusal@, "ermission denied"@, at + 1));
            }
        }
    }
}

} // verus!
