//! What an installation leaves behind.

use crate::hooks::error::HookError;
use crate::hooks::install::{
    job_holds, just_place, may_execute, pipeline_place, FileMode, InstallJob,
};
use crate::hooks::installation::{
    after_install, every_step_keeps_the_staged_list, executable_entry, install_fits,
    next_install_step, sound, staged_through, wrapper_entry, InstallPhaseModel, InstallReply,
    InstallStepModel, InstallationModel, INSTALLED_MODE,
};
use crate::hooks::ownership::{
    all_readable, hook_home, installed, lists_installed, managed, readable, wrapper_text,
    wrappers_are_managed, HookFile,
};
use crate::hooks::recovery::{
    a_transaction_starts_clean, books, committed_entries_are_in_place, every_step_keeps_the_books,
    happens, is_target, same_at, well_staged, Files,
};
use crate::hooks::repository::{
    hooks_home, pipeline_home, Repository, INSTALLED_JUST_NAME, INSTALLED_PIPELINE_NAME,
    PIPELINE_DIRECTORY,
};
use crate::hooks::transaction::{
    after, consistent, started, EntryModel, PhaseModel, StepReply, TransactionModel,
};
use crate::hooks::{supported, supported_hooks, SUPPORTED_HOOKS};
use crate::names::{lemma_less_irreflexive, NameSet};
use crate::native::{rooted, SLASH};
use crate::text::encoding_is_piecewise;
use vstd::prelude::*;
use vstd::utf8::{encode_utf8, encode_utf8_decode_utf8, is_ascii_chars_encode_utf8};

verus! {

/// A hook goes to this path.
pub open spec fn is_hook_place(repository: Repository, path: Seq<u8>) -> bool {
    exists|hook: Seq<char>| supported(hook) && #[trigger] hook_home(repository, hook) == path
}

/// Something that Pipeline installs goes to this path.
pub open spec fn reserved(repository: Repository, path: Seq<u8>) -> bool {
    path == pipeline_place(repository) || path == just_place(repository) || is_hook_place(
        repository,
        path,
    )
}

proof fn lemma_first_byte(name: Seq<char>)
    requires
        name.len() > 0,
        '\0' <= name[0] <= '\u{7f}',
    ensures
        encode_utf8(name).len() > 0,
        encode_utf8(name)[0] == name[0] as u8,
{
    let head = seq![name[0]];
    is_ascii_chars_encode_utf8(head);
    encoding_is_piecewise(head, name.skip(1));
    assert(head + name.skip(1) =~= name);
}

#[verifier::rlimit(40)]
proof fn lemma_hook_names_are_plain(hook: Seq<char>)
    requires
        supported(hook),
    ensures
        !rooted(encode_utf8(hook)),
        encode_utf8(hook).len() > 0,
{
    let i = choose|i: int| 0 <= i < supported_hooks().len() && supported_hooks()[i] == hook;
    reveal_strlit("applypatch-msg");
    reveal_strlit("pre-applypatch");
    reveal_strlit("post-applypatch");
    reveal_strlit("pre-commit");
    reveal_strlit("pre-merge-commit");
    reveal_strlit("prepare-commit-msg");
    reveal_strlit("commit-msg");
    reveal_strlit("post-commit");
    reveal_strlit("pre-rebase");
    reveal_strlit("post-checkout");
    reveal_strlit("post-merge");
    reveal_strlit("pre-push");
    reveal_strlit("pre-receive");
    reveal_strlit("update");
    reveal_strlit("proc-receive");
    reveal_strlit("post-receive");
    reveal_strlit("post-update");
    reveal_strlit("reference-transaction");
    reveal_strlit("push-to-checkout");
    reveal_strlit("pre-auto-gc");
    reveal_strlit("post-rewrite");
    reveal_strlit("sendemail-validate");
    reveal_strlit("fsmonitor-watchman");
    reveal_strlit("p4-changelist");
    reveal_strlit("p4-prepare-changelist");
    reveal_strlit("p4-post-changelist");
    reveal_strlit("p4-pre-submit");
    reveal_strlit("post-index-change");
    assert(hook == SUPPORTED_HOOKS@[i]@);
    assert(hook.len() > 0 && '\0' <= hook[0] <= '\u{7f}' && hook[0] != '/');
    lemma_first_byte(hook);
}

/// What comes before a name that is looked up from a directory.
pub open spec fn directory(path: Seq<u8>) -> Seq<u8> {
    if path.len() == 0 || path.last() == SLASH {
        path
    } else {
        path.push(SLASH)
    }
}

proof fn lemma_homes(repository: Repository)
    ensures
        hooks_home(repository) == directory(repository.common_dir@) + encode_utf8("hooks"@),
        pipeline_home(repository) == directory(repository.common_dir@) + encode_utf8(
            PIPELINE_DIRECTORY@,
        ),
        hooks_home(repository).len() > directory(repository.common_dir@).len(),
        pipeline_home(repository).len() > directory(repository.common_dir@).len(),
        hooks_home(repository)[directory(repository.common_dir@).len() as int] == 104,
        pipeline_home(repository)[directory(repository.common_dir@).len() as int] == 112,
{
    reveal_strlit("hooks");
    reveal_strlit("pipeline");
    lemma_first_byte("hooks"@);
    lemma_first_byte("pipeline"@);
}

proof fn lemma_places(repository: Repository)
    ensures
        pipeline_place(repository) == directory(pipeline_home(repository)) + encode_utf8(
            INSTALLED_PIPELINE_NAME@,
        ),
        just_place(repository) == directory(pipeline_home(repository)) + encode_utf8(
            INSTALLED_JUST_NAME@,
        ),
        pipeline_place(repository).len() > pipeline_home(repository).len(),
        just_place(repository).len() > pipeline_home(repository).len(),
        pipeline_place(repository) != just_place(repository),
{
    reveal_strlit("pipeline");
    reveal_strlit("just");
    lemma_first_byte("pipeline"@);
    lemma_first_byte("just"@);
    let n = directory(pipeline_home(repository)).len() as int;
    assert(pipeline_place(repository)[n] == 112);
    assert(just_place(repository)[n] == 106);
}

pub proof fn lemma_hook_place(repository: Repository, hook: Seq<char>)
    requires
        supported(hook),
    ensures
        hook_home(repository, hook) == directory(hooks_home(repository)) + encode_utf8(hook),
        hook_home(repository, hook).len() > hooks_home(repository).len(),
        hook_home(repository, hook) != pipeline_place(repository),
        hook_home(repository, hook) != just_place(repository),
{
    lemma_hook_names_are_plain(hook);
    lemma_homes(repository);
    lemma_places(repository);
    let n = directory(repository.common_dir@).len() as int;
    assert(hook_home(repository, hook)[n] == 104);
    assert(pipeline_place(repository)[n] == 112);
    assert(just_place(repository)[n] == 112);
}

/// No two hooks go to one path.
pub proof fn hooks_have_paths_of_their_own(repository: Repository, a: Seq<char>, b: Seq<char>)
    requires
        supported(a),
        supported(b),
        hook_home(repository, a) == hook_home(repository, b),
    ensures
        a == b,
{
    lemma_hook_place(repository, a);
    lemma_hook_place(repository, b);
    let n = directory(hooks_home(repository)).len() as int;
    assert(encode_utf8(a) =~= hook_home(repository, a).skip(n));
    assert(encode_utf8(b) =~= hook_home(repository, b).skip(n));
    encode_utf8_decode_utf8(a);
    encode_utf8_decode_utf8(b);
}

/// Nothing that is installed stands above one of the two directories.
pub proof fn lemma_nothing_above(repository: Repository, path: Seq<u8>)
    requires
        path.is_prefix_of(hooks_home(repository)) || path.is_prefix_of(pipeline_home(repository)),
    ensures
        !reserved(repository, path),
{
    lemma_homes(repository);
    lemma_places(repository);
    let n = directory(repository.common_dir@).len() as int;
    if is_hook_place(repository, path) {
        let hook = choose|hook: Seq<char>|
            supported(hook) && #[trigger] hook_home(repository, hook) == path;
        lemma_hook_place(repository, hook);
        assert(path[n] == 104);
    } else if reserved(repository, path) {
        assert(path[n] == 112);
    }
}

/// What stands at a path, as hooks are looked at, and its mode.
pub struct Sight {
    pub file: HookFile,
    pub mode: FileMode,
}

/// A regular file with this text and this mode.
pub open spec fn holds(sight: Sight, text: Seq<char>, mode: u32) -> bool {
    &&& sight.file.probe is File
    &&& sight.file.contents matches Ok(bytes) && bytes@ == encode_utf8(text)
    &&& sight.mode == (FileMode { is_file: true, mode })
}

/// A new file appeared at a path that nothing is installed at.
pub open spec fn appeared(
    repository: Repository,
    before: Files,
    path: Seq<u8>,
    now: Files,
) -> bool {
    &&& !before.contains_key(path)
    &&& !reserved(repository, path)
    &&& now == before.insert(path, now[path])
}

/// The reply tells the truth about a step of an installation, and the step
/// changed the files from `before` to `now`. A directory comes with those above
/// it, staged files have names of their own, and so have files that are moved
/// out of the way. `look` shows what stands at a path.
pub open spec fn comes_true(
    look: spec_fn(int) -> Sight,
    m: InstallationModel,
    before: Files,
    reply: InstallReply,
    now: Files,
) -> bool {
    let repository = m.job.repository;
    &&& install_fits(m, reply)
    &&& match (next_install_step(m), reply) {
        (InstallStepModel::MakeDirectory(directory), _) => {
            &&& forall|path: Seq<u8>| #[trigger]
                before.contains_key(path) ==> same_at(before, now, path)
            &&& forall|path: Seq<u8>| #[trigger]
                now.contains_key(path) ==> before.contains_key(path) || path.is_prefix_of(directory)
        },
        (InstallStepModel::StageCopy(_, _, _), InstallReply::Staged(path)) => appeared(
            repository,
            before,
            path@,
            now,
        ),
        (InstallStepModel::StageLink(_, _), InstallReply::Staged(path)) => appeared(
            repository,
            before,
            path@,
            now,
        ),
        (InstallStepModel::StageWrapper(_, text, mode), InstallReply::Staged(path)) => appeared(
            repository,
            before,
            path@,
            now,
        ) && holds(look(now[path@]), text, mode),
        (InstallStepModel::Transact(_), InstallReply::Transacted(inner)) => {
            &&& m.phase matches InstallPhaseModel::Committing(t) && happens(t, before, inner, now)
            &&& inner matches StepReply::Vacant(path) ==> !reserved(repository, path@)
        },
        (InstallStepModel::RemoveDirectory(directory), _) => now == before || now == before.remove(
            directory,
        ),
        _ => now == before,
    }
}

/// Where an installation stands after some replies, with the files as they are
/// then.
pub open spec fn outcome(
    job: InstallJob,
    first: Files,
    events: Seq<(InstallReply, Files)>,
) -> (InstallationModel, Files)
    decreases events.len(),
{
    if events.len() == 0 {
        (
            InstallationModel { job, staged: seq![], phase: InstallPhaseModel::MakePipelineDir },
            first,
        )
    } else {
        let (m, files) = outcome(job, first, events.drop_last());
        (after_install(m, events.last().0), events.last().1)
    }
}

/// All replies told the truth.
pub open spec fn faithful(
    look: spec_fn(int) -> Sight,
    job: InstallJob,
    first: Files,
    events: Seq<(InstallReply, Files)>,
) -> bool
    decreases events.len(),
{
    events.len() == 0 || {
        let (m, files) = outcome(job, first, events.drop_last());
        &&& faithful(look, job, first, events.drop_last())
        &&& comes_true(look, m, files, events.last().0, events.last().1)
    }
}

/// `list` shows the supported hooks, in their documented order.
pub open spec fn surveyed(
    look: spec_fn(int) -> Sight,
    repository: Repository,
    files: Files,
    list: Seq<HookFile>,
) -> bool {
    &&& list.len() == supported_hooks().len()
    &&& forall|i: int|
        0 <= i < list.len() ==> {
            let path = hook_home(repository, supported_hooks()[i]);
            if files.contains_key(path) {
                #[trigger] list[i] == look(files[path]).file
            } else {
                list[i].probe is Missing
            }
        }
}

/// Nothing changed where something is installed.
spec fn stays(repository: Repository, first: Files, now: Files) -> bool {
    forall|path: Seq<u8>| #[trigger] reserved(repository, path) ==> same_at(first, now, path)
}

/// What is staged is there, with the text of every wrapper.
spec fn stored(
    look: spec_fn(int) -> Sight,
    job: InstallJob,
    staged: Seq<EntryModel>,
    executables: int,
    wrappers: int,
    now: Files,
) -> bool {
    &&& staged_through(job, staged, executables, wrappers)
    &&& forall|i: int, j: int|
        0 <= i < j < staged.len() ==> #[trigger] staged[i].temporary
            != #[trigger] staged[j].temporary
    &&& forall|i: int|
        0 <= i < staged.len() ==> now.contains_key(#[trigger] staged[i].temporary) && !reserved(
            job.repository,
            staged[i].temporary,
        )
    &&& forall|i: int|
        0 <= staged.len() - wrappers <= i < staged.len() ==> holds(
            look(now[#[trigger] staged[i].temporary]),
            wrapper_text(job.hooks@[i - (staged.len() - wrappers)]),
            INSTALLED_MODE,
        )
}

/// What a transaction moved out of the way is no installed path, and installed
/// paths that are no targets stay as they are.
spec fn set_aside(repository: Repository, t: TransactionModel, base: Files, now: Files) -> bool {
    &&& forall|k: int|
        0 <= k < t.applied.len() && (#[trigger] t.applied[k]) is Some ==> !reserved(
            repository,
            t.applied[k]->Some_0,
        )
    &&& match t.phase {
        PhaseModel::SettingAside(path) => !reserved(repository, path),
        PhaseModel::Placing(Some(path)) => !reserved(repository, path),
        PhaseModel::PuttingBack(path) => !reserved(repository, path),
        _ => true,
    }
    &&& forall|path: Seq<u8>| #[trigger]
        reserved(repository, path) && !is_target(t.entries, path) ==> same_at(base, now, path)
}

spec fn in_hand(
    look: spec_fn(int) -> Sight,
    job: InstallJob,
    first: Files,
    base: Files,
    t: TransactionModel,
    now: Files,
) -> bool {
    &&& stays(job.repository, first, base)
    &&& stored(look, job, t.entries, 2, job.hooks@.len() as int, base)
    &&& books(t, base, now)
    &&& set_aside(job.repository, t, base, now)
}

spec fn on_course(
    look: spec_fn(int) -> Sight,
    job: InstallJob,
    first: Files,
    m: InstallationModel,
    now: Files,
) -> bool {
    &&& m.job == job
    &&& match m.phase {
        InstallPhaseModel::MakePipelineDir => stays(job.repository, first, now) && m.staged.len()
            == 0,
        InstallPhaseModel::MakeHooksDir => stays(job.repository, first, now) && m.staged.len() == 0,
        InstallPhaseModel::Examine(just) => stays(job.repository, first, now) && stored(
            look,
            job,
            m.staged,
            just as int,
            0,
            now,
        ),
        InstallPhaseModel::Place { just, source, link } => stays(job.repository, first, now)
            && stored(look, job, m.staged, just as int, 0, now),
        InstallPhaseModel::Wrap(k) => 0 <= k < job.hooks@.len() && stays(
            job.repository,
            first,
            now,
        ) && stored(look, job, m.staged, 2, k, now),
        InstallPhaseModel::Committing(t) => exists|base: Files| #[trigger]
            in_hand(look, job, first, base, t, now),
        InstallPhaseModel::Finished => exists|base: Files, t: TransactionModel|
            t.phase is Committed && #[trigger] in_hand(look, job, first, base, t, now),
        _ => true,
    }
}

proof fn lemma_stored_targets(
    look: spec_fn(int) -> Sight,
    job: InstallJob,
    staged: Seq<EntryModel>,
    now: Files,
)
    requires
        job_holds(job),
        stored(look, job, staged, 2, job.hooks@.len() as int, now),
    ensures
        well_staged(staged, now),
        forall|i: int|
            0 <= i < staged.len() ==> reserved(job.repository, #[trigger] staged[i].target),
{
    let n = job.hooks@.len() as int;
    let first = staged.len() - n;
    let repository = job.repository;
    lemma_places(repository);
    assert forall|i: int| 0 <= i < first implies (#[trigger] staged[i].target == pipeline_place(
        repository,
    ) || staged[i].target == just_place(repository)) by {
        if first == 1 {
            let just = choose|just: bool|
                staged[0] == #[trigger] executable_entry(job, just, staged[0].temporary);
        }
    }
    assert forall|i: int| first <= i < staged.len() implies #[trigger] staged[i].target
        == hook_home(repository, job.hooks@[i - first]) && supported(job.hooks@[i - first]) by {
        assert(staged[first + (i - first)] == wrapper_entry(
            job,
            i - first,
            staged[first + (i - first)].temporary,
        ));
    }
    assert forall|i: int, j: int| 0 <= i < j < staged.len() implies #[trigger] staged[i].target
        != #[trigger] staged[j].target by {
        if first <= j {
            lemma_hook_place(repository, job.hooks@[j - first]);
            if first <= i && staged[i].target == staged[j].target {
                hooks_have_paths_of_their_own(
                    repository,
                    job.hooks@[i - first],
                    job.hooks@[j - first],
                );
                lemma_less_irreflexive(job.hooks@[i - first]);
            }
        }
    }
}

proof fn lemma_set_aside_step(
    repository: Repository,
    t: TransactionModel,
    base: Files,
    before: Files,
    reply: StepReply,
    now: Files,
)
    requires
        set_aside(repository, t, base, before),
        consistent(t),
        happens(t, before, reply, now),
        reply matches StepReply::Vacant(path) ==> !reserved(repository, path@),
        forall|i: int|
            0 <= i < t.entries.len() ==> !reserved(repository, #[trigger] t.entries[i].temporary),
    ensures
        set_aside(repository, after(t, reply), base, now),
{
    let next = after(t, reply);
    assert(next.entries == t.entries);
    let i = t.applied.len() as int;
    assert forall|path: Seq<u8>| #[trigger]
        reserved(repository, path) && !is_target(t.entries, path) implies same_at(
        base,
        now,
        path,
    ) by {
        assert(same_at(base, before, path));
        if i < t.entries.len() {
            assert(t.entries[i].target != path);
            assert(t.entries[i].temporary != path);
        }
        if i > 0 {
            assert(t.entries[i - 1].target != path);
            assert(t.applied[i - 1] == t.applied.last());
        }
    }
    assert forall|k: int| 0 <= k < next.applied.len() && (#[trigger] next.applied[k])
        is Some implies !reserved(repository, next.applied[k]->Some_0) by {
        if k < i {
            assert(next.applied[k] == t.applied[k]);
        }
    }
}

/// A staged file more keeps what is staged in order.
proof fn lemma_one_more_file(
    look: spec_fn(int) -> Sight,
    job: InstallJob,
    staged: Seq<EntryModel>,
    executables: int,
    wrappers: int,
    before: Files,
    entry: EntryModel,
    grown_executables: int,
    grown_wrappers: int,
    now: Files,
)
    requires
        stored(look, job, staged, executables, wrappers, before),
        appeared(job.repository, before, entry.temporary, now),
        staged_through(job, staged.push(entry), grown_executables, grown_wrappers),
        grown_wrappers == wrappers + 1 && holds(
            look(now[entry.temporary]),
            wrapper_text(job.hooks@[wrappers]),
            INSTALLED_MODE,
        ) || grown_wrappers == 0 && wrappers == 0,
    ensures
        stored(look, job, staged.push(entry), grown_executables, grown_wrappers, now),
{
    let grown = staged.push(entry);
    assert forall|i: int| 0 <= i < staged.len() implies #[trigger] grown[i] == staged[i]
        && staged[i].temporary != entry.temporary by {
        assert(before.contains_key(staged[i].temporary));
    }
    assert forall|i: int|
        0 <= grown.len() - grown_wrappers <= i < grown.len() implies holds(
        look(now[#[trigger] grown[i].temporary]),
        wrapper_text(job.hooks@[i - (grown.len() - grown_wrappers)]),
        INSTALLED_MODE,
    ) by {
        if i < staged.len() {
            assert(grown[i] == staged[i]);
            assert(now[staged[i].temporary] == before[staged[i].temporary]);
        }
    }
}

/// The transaction starts with everything in order.
proof fn lemma_all_staged(
    look: spec_fn(int) -> Sight,
    job: InstallJob,
    first: Files,
    staged: Seq<EntryModel>,
    now: Files,
)
    requires
        job_holds(job),
        stays(job.repository, first, now),
        stored(look, job, staged, 2, job.hooks@.len() as int, now),
    ensures
        in_hand(look, job, first, now, started(staged), now),
{
    lemma_stored_targets(look, job, staged, now);
    a_transaction_starts_clean(staged, now);
}

proof fn lemma_directories_disturb_nothing(
    look: spec_fn(int) -> Sight,
    first: Files,
    m: InstallationModel,
    before: Files,
    reply: InstallReply,
    now: Files,
)
    requires
        m.phase is MakePipelineDir || m.phase is MakeHooksDir || m.phase is DropPipelineDir
            || m.phase is DropHooksDir,
        stays(m.job.repository, first, before),
        comes_true(look, m, before, reply, now),
    ensures
        stays(m.job.repository, first, now),
{
    let repository = m.job.repository;
    assert forall|path: Seq<u8>| #[trigger] reserved(repository, path) implies same_at(
        first,
        now,
        path,
    ) by {
        assert(same_at(first, before, path));
        if now.contains_key(path) != before.contains_key(path) {
            lemma_nothing_above(repository, path);
        }
    }
}

proof fn lemma_step_stays_on_course(
    look: spec_fn(int) -> Sight,
    job: InstallJob,
    first: Files,
    m: InstallationModel,
    before: Files,
    reply: InstallReply,
    now: Files,
)
    requires
        job_holds(job),
        sound(m),
        on_course(look, job, first, m, before),
        comes_true(look, m, before, reply, now),
    ensures
        on_course(look, job, first, after_install(m, reply), now),
        sound(after_install(m, reply)),
{
    every_step_keeps_the_staged_list(m, reply);
    let next = after_install(m, reply);
    let repository = job.repository;
    match m.phase {
        InstallPhaseModel::MakePipelineDir | InstallPhaseModel::MakeHooksDir => {
            lemma_directories_disturb_nothing(look, first, m, before, reply, now);
        },
        InstallPhaseModel::Examine(just) => {
            assert(now == before);
            assert(job.hooks@.len() > 0);
        },
        InstallPhaseModel::Place { just, source, link } => {
            if let InstallReply::Staged(path) = reply {
                let entry = executable_entry(job, just, path@);
                let grown = m.staged.push(entry);
                assert(staged_through(job, grown, just as int + 1, 0)) by {
                    if just {
                        assert(next.phase == InstallPhaseModel::Wrap(0));
                    }
                }
                lemma_one_more_file(
                    look,
                    job,
                    m.staged,
                    just as int,
                    0,
                    before,
                    entry,
                    just as int + 1,
                    0,
                    now,
                );
            }
        },
        InstallPhaseModel::Wrap(k) => {
            if let InstallReply::Staged(path) = reply {
                let entry = wrapper_entry(job, k, path@);
                let grown = m.staged.push(entry);
                let n = job.hooks@.len() as int;
                assert(staged_through(job, grown, 2, k + 1)) by {
                    if k + 1 == n {
                        assert(next.phase == InstallPhaseModel::Committing(started(grown)));
                    }
                }
                lemma_one_more_file(look, job, m.staged, 2, k, before, entry, 2, k + 1, now);
                if k + 1 == n {
                    lemma_all_staged(look, job, first, grown, now);
                }
            }
        },
        InstallPhaseModel::Committing(t) => {
            let inner = reply->Transacted_0;
            let base = choose|base: Files| #[trigger] in_hand(look, job, first, base, t, before);
            every_step_keeps_the_books(t, base, before, inner, now);
            lemma_set_aside_step(repository, t, base, before, inner, now);
            assert(in_hand(look, job, first, base, after(t, inner), now));
        },
        _ => {},
    }
}

proof fn lemma_on_course(
    look: spec_fn(int) -> Sight,
    job: InstallJob,
    first: Files,
    events: Seq<(InstallReply, Files)>,
)
    requires
        job_holds(job),
        faithful(look, job, first, events),
    ensures
        sound(outcome(job, first, events).0),
        on_course(look, job, first, outcome(job, first, events).0, outcome(job, first, events).1),
    decreases events.len(),
{
    if events.len() > 0 {
        lemma_on_course(look, job, first, events.drop_last());
        let (m, files) = outcome(job, first, events.drop_last());
        lemma_step_stays_on_course(
            look,
            job,
            first,
            m,
            files,
            events.last().0,
            events.last().1,
        );
    }
}

proof fn lemma_asked_for(
    look: spec_fn(int) -> Sight,
    job: InstallJob,
    first: Files,
    base: Files,
    t: TransactionModel,
    now: Files,
    k: int,
)
    requires
        in_hand(look, job, first, base, t, now),
        t.phase is Committed,
        0 <= k < job.hooks@.len(),
    ensures
        now.contains_key(hook_home(job.repository, job.hooks@[k])),
        managed(look(now[hook_home(job.repository, job.hooks@[k])]).file),
        readable(look(now[hook_home(job.repository, job.hooks@[k])]).file),
        look(now[hook_home(job.repository, job.hooks@[k])]).mode == (FileMode {
            is_file: true,
            mode: INSTALLED_MODE,
        }),
{
    let e = t.entries.len() - job.hooks@.len() + k;
    assert(t.entries[e] == wrapper_entry(job, k, t.entries[e].temporary));
    committed_entries_are_in_place(t, base, now, e, seq![]);
    wrappers_are_managed(job.hooks@[k]);
}

proof fn lemma_not_asked_for(
    look: spec_fn(int) -> Sight,
    job: InstallJob,
    first: Files,
    base: Files,
    t: TransactionModel,
    now: Files,
    hook: Seq<char>,
)
    requires
        job_holds(job),
        in_hand(look, job, first, base, t, now),
        supported(hook),
        !job.hooks@.contains(hook),
    ensures
        same_at(first, now, hook_home(job.repository, hook)),
{
    let repository = job.repository;
    let path = hook_home(repository, hook);
    let executables = t.entries.len() - job.hooks@.len();
    assert(reserved(repository, path));
    lemma_hook_place(repository, hook);
    assert forall|e: int| 0 <= e < t.entries.len() implies #[trigger] t.entries[e].target
        != path by {
        if e >= executables {
            let k = e - executables;
            assert(t.entries[executables + k] == wrapper_entry(
                job,
                k,
                t.entries[executables + k].temporary,
            ));
            assert(job.hooks@.contains(job.hooks@[k]));
            if t.entries[e].target == path {
                hooks_have_paths_of_their_own(repository, hook, job.hooks@[k]);
            }
        } else if executables == 1 {
            let just = choose|just: bool|
                t.entries[0] == #[trigger] executable_entry(job, just, t.entries[0].temporary);
        }
    }
    assert(same_at(first, base, path));
}

/// An installation that succeeds adds its hooks to those that are installed and
/// takes none away: what is listed after it is what was listed before it,
/// together with the hooks that were asked for.
pub proof fn installing_adds_the_hooks_that_were_asked_for(
    look: spec_fn(int) -> Sight,
    job: InstallJob,
    first: Files,
    events: Seq<(InstallReply, Files)>,
    former: Seq<HookFile>,
    latter: Seq<HookFile>,
    before: NameSet,
    result: Result<NameSet, HookError>,
)
    requires
        job_holds(job),
        faithful(look, job, first, events),
        outcome(job, first, events).0.phase is Finished,
        surveyed(look, job.repository, first, former),
        surveyed(look, job.repository, outcome(job, first, events).1, latter),
        lists_installed(former, Ok(before)),
        lists_installed(latter, result),
    ensures
        result matches Ok(now) && forall|hook: Seq<char>| #[trigger]
            now@.contains(hook) <==> before@.contains(hook) || job.hooks@.contains(hook),
{
    let (m, files) = outcome(job, first, events);
    lemma_on_course(look, job, first, events);
    let (base, t) = choose|base: Files, t: TransactionModel|
        t.phase is Committed && #[trigger] in_hand(look, job, first, base, t, files);
    assert forall|j: int| 0 <= j < latter.len() implies readable(#[trigger] latter[j]) && managed(
        latter[j],
    ) == (managed(former[j]) || job.hooks@.contains(supported_hooks()[j])) by {
        let name = supported_hooks()[j];
        assert(supported_hooks().contains(name));
        assert(readable(former[j]));
        if job.hooks@.contains(name) {
            let k = choose|k: int| 0 <= k < job.hooks@.len() && job.hooks@[k] == name;
            lemma_asked_for(look, job, first, base, t, files, k);
        } else {
            lemma_not_asked_for(look, job, first, base, t, files, name);
        }
    }
    assert forall|hook: Seq<char>|
        installed(latter, hook) <==> installed(former, hook) || job.hooks@.contains(hook) by {
        if installed(former, hook) {
            let j = choose|j: int|
                0 <= j < former.len() && supported_hooks()[j] == hook && managed(
                    #[trigger] former[j],
                );
            assert(managed(latter[j]));
        }
        if job.hooks@.contains(hook) {
            let k = choose|k: int| 0 <= k < job.hooks@.len() && job.hooks@[k] == hook;
            assert(supported(job.hooks@[k]));
            let j = choose|j: int| 0 <= j < supported_hooks().len() && supported_hooks()[j] == hook;
            assert(managed(latter[j]));
        }
        if installed(latter, hook) {
            let j = choose|j: int|
                0 <= j < latter.len() && supported_hooks()[j] == hook && managed(
                    #[trigger] latter[j],
                );
            assert(managed(former[j]) || job.hooks@.contains(hook));
        }
    }
    assert(all_readable(latter, latter.len() as int));
    let now = result->Ok_0;
    assert forall|hook: Seq<char>| #[trigger]
        now@.contains(hook) <==> before@.contains(hook) || job.hooks@.contains(hook) by {
        assert(now@.contains(hook) <==> installed(latter, hook));
        assert(before@.contains(hook) <==> installed(former, hook));
    }
}

/// After an installation that succeeds, every hook that was asked for stands at
/// its path and can be executed.
pub proof fn installed_hooks_can_be_executed(
    look: spec_fn(int) -> Sight,
    job: InstallJob,
    first: Files,
    events: Seq<(InstallReply, Files)>,
    hook: Seq<char>,
)
    requires
        job_holds(job),
        faithful(look, job, first, events),
        outcome(job, first, events).0.phase is Finished,
        job.hooks@.contains(hook),
    ensures
        ({
            let files = outcome(job, first, events).1;
            let path = hook_home(job.repository, hook);
            files.contains_key(path) && managed(look(files[path]).file) && may_execute(
                look(files[path]).mode,
            )
        }),
{
    let files = outcome(job, first, events).1;
    lemma_on_course(look, job, first, events);
    let (base, t) = choose|base: Files, t: TransactionModel|
        t.phase is Committed && #[trigger] in_hand(look, job, first, base, t, files);
    let k = choose|k: int| 0 <= k < job.hooks@.len() && job.hooks@[k] == hook;
    lemma_asked_for(look, job, first, base, t, files, k);
    assert(0o755u32 & 0o111 != 0) by (bit_vector);
}

/// Whatever a transaction moved out of the way, it could put back.
pub open spec fn restored(job: InstallJob, first: Files, events: Seq<(InstallReply, Files)>) -> bool
    decreases events.len(),
{
    events.len() == 0 || {
        let (m, files) = outcome(job, first, events.drop_last());
        &&& restored(job, first, events.drop_last())
        &&& m.phase matches InstallPhaseModel::Committing(t) ==> (
        events.last().0 matches InstallReply::Transacted(inner) ==> !after(t, inner).damaged)
    }
}

/// The installation failed, or is about to.
spec fn is_failing(m: InstallationModel) -> bool {
    m.phase is DropPipelineDir || m.phase is DropHooksDir || m.phase is Failed
}

proof fn lemma_aborted(
    look: spec_fn(int) -> Sight,
    job: InstallJob,
    first: Files,
    base: Files,
    t: TransactionModel,
    now: Files,
)
    requires
        in_hand(look, job, first, base, t, now),
        t.phase is Aborted,
        !t.damaged,
    ensures
        stays(job.repository, first, now),
{
    assert forall|path: Seq<u8>| #[trigger] reserved(job.repository, path) implies same_at(
        first,
        now,
        path,
    ) by {
        assert(same_at(first, base, path));
        if is_target(t.entries, path) {
            let k = choose|k: int|
                0 <= k < t.entries.len() && #[trigger] t.entries[k].target == path;
            assert(same_at(base, now, t.entries[k].target));
        } else {
            assert(same_at(base, now, path));
        }
    }
}

proof fn lemma_failing_disturbs_nothing(
    look: spec_fn(int) -> Sight,
    job: InstallJob,
    first: Files,
    events: Seq<(InstallReply, Files)>,
)
    requires
        job_holds(job),
        faithful(look, job, first, events),
        restored(job, first, events),
    ensures
        is_failing(outcome(job, first, events).0) ==> stays(
            job.repository,
            first,
            outcome(job, first, events).1,
        ),
    decreases events.len(),
{
    if events.len() > 0 {
        let (m, before) = outcome(job, first, events.drop_last());
        let (reply, now) = events.last();
        lemma_failing_disturbs_nothing(look, job, first, events.drop_last());
        lemma_on_course(look, job, first, events.drop_last());
        if is_failing(after_install(m, reply)) {
            match m.phase {
                InstallPhaseModel::MakePipelineDir | InstallPhaseModel::MakeHooksDir
                | InstallPhaseModel::DropPipelineDir(_, _) | InstallPhaseModel::DropHooksDir(_) => {
                    lemma_directories_disturb_nothing(look, first, m, before, reply, now);
                },
                InstallPhaseModel::Committing(t) => {
                    let inner = reply->Transacted_0;
                    let base = choose|base: Files| #[trigger]
                        in_hand(look, job, first, base, t, before);
                    every_step_keeps_the_books(t, base, before, inner, now);
                    lemma_set_aside_step(job.repository, t, base, before, inner, now);
                    lemma_aborted(look, job, first, base, after(t, inner), now);
                },
                _ => {
                    assert(now == before);
                },
            }
        }
    }
}

/// An installation that fails leaves the installed hooks as they were, as long
/// as what it moved out of the way could be put back.
pub proof fn failing_changes_no_installed_hook(
    look: spec_fn(int) -> Sight,
    job: InstallJob,
    first: Files,
    events: Seq<(InstallReply, Files)>,
    former: Seq<HookFile>,
    latter: Seq<HookFile>,
    hook: Seq<char>,
)
    requires
        job_holds(job),
        faithful(look, job, first, events),
        restored(job, first, events),
        outcome(job, first, events).0.phase is Failed,
        surveyed(look, job.repository, first, former),
        surveyed(look, job.repository, outcome(job, first, events).1, latter),
    ensures
        installed(latter, hook) <==> installed(former, hook),
{
    lemma_failing_disturbs_nothing(look, job, first, events);
    assert forall|j: int| 0 <= j < latter.len() implies managed(#[trigger] latter[j]) == managed(
        former[j],
    ) by {
        let name = supported_hooks()[j];
        let shown = former[j];
        assert(supported_hooks().contains(name));
        assert(reserved(job.repository, hook_home(job.repository, name)));
    }
    if installed(former, hook) {
        let j = choose|j: int|
            0 <= j < former.len() && supported_hooks()[j] == hook && managed(#[trigger] former[j]);
        assert(managed(latter[j]));
    }
    if installed(latter, hook) {
        let j = choose|j: int|
            0 <= j < latter.len() && supported_hooks()[j] == hook && managed(#[trigger] latter[j]);
        assert(managed(former[j]));
    }
}

} // verus!
