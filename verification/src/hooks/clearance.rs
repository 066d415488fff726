//! What a removal leaves behind.

use crate::hooks::error::HookError;
use crate::hooks::install::{just_place, pipeline_place};
use crate::hooks::outcome::{
    hooks_have_paths_of_their_own, is_hook_place, lemma_hook_place, lemma_nothing_above, surveyed,
    Sight,
};
use crate::hooks::ownership::{
    all_readable, hook_home, installed, lists_installed, managed, readable, HookFile,
};
use crate::hooks::recovery::{same_at, Files};
use crate::hooks::removal::{
    after_removal, next_removal_step, removal_fits, removal_sound, removal_start, RemovalModel,
    RemovalPhaseModel, RemovalReply, RemovalStepModel,
};
use crate::hooks::repository::{pipeline_home, Repository};
use crate::hooks::{all_supported, supported, supported_hooks};
use crate::names::{ascending, lemma_less_irreflexive, NameSet};
use vstd::prelude::*;

verus! {

/// `file` shows what stands at a path.
pub open spec fn seen(
    look: spec_fn(int) -> Sight,
    files: Files,
    path: Seq<u8>,
    file: HookFile,
) -> bool {
    if files.contains_key(path) {
        file == look(files[path]).file
    } else {
        file.probe is Missing
    }
}

/// The reply tells the truth about a step of a removal, and the step changed
/// the files from `before` to `now`. `look` shows what stands at a path.
pub open spec fn removal_comes_true(
    look: spec_fn(int) -> Sight,
    m: RemovalModel,
    before: Files,
    reply: RemovalReply,
    now: Files,
) -> bool {
    &&& removal_fits(m, reply)
    &&& match (next_removal_step(m), reply) {
        (RemovalStepModel::Inspect(path), RemovalReply::Found(file)) => now == before && seen(
            look,
            before,
            path,
            file,
        ),
        (RemovalStepModel::Survey, RemovalReply::Surveyed(list)) => now == before && surveyed(
            look,
            m.repository,
            before,
            list@,
        ),
        (RemovalStepModel::Delete(path), RemovalReply::Done) => now == before.remove(path),
        (RemovalStepModel::DeleteIfPresent(path), RemovalReply::Done) => now == before.remove(path),
        (RemovalStepModel::RemoveDirectory(path), RemovalReply::Done) => now == before.remove(path),
        _ => now == before,
    }
}

/// Where a removal of hooks stands after some replies, with the files as they
/// are then.
pub open spec fn removal_outcome(
    repository: Repository,
    hooks: Seq<Seq<char>>,
    first: Files,
    events: Seq<(RemovalReply, Files)>,
) -> (RemovalModel, Files)
    decreases events.len(),
{
    if events.len() == 0 {
        (removal_start(repository, hooks), first)
    } else {
        let (m, files) = removal_outcome(repository, hooks, first, events.drop_last());
        (after_removal(m, events.last().0), events.last().1)
    }
}

/// All replies told the truth.
pub open spec fn removal_faithful(
    look: spec_fn(int) -> Sight,
    repository: Repository,
    hooks: Seq<Seq<char>>,
    first: Files,
    events: Seq<(RemovalReply, Files)>,
) -> bool
    decreases events.len(),
{
    events.len() == 0 || {
        let (m, files) = removal_outcome(repository, hooks, first, events.drop_last());
        &&& removal_faithful(look, repository, hooks, first, events.drop_last())
        &&& removal_comes_true(look, m, files, events.last().0, events.last().1)
    }
}

/// A hook of Pipeline's stands at a path.
spec fn owned(look: spec_fn(int) -> Sight, files: Files, path: Seq<u8>) -> bool {
    files.contains_key(path) && managed(look(files[path]).file)
}

/// Nothing of Pipeline's stands at a path any more; what was not its own stayed.
spec fn cleared(
    look: spec_fn(int) -> Sight,
    first: Files,
    now: Files,
    path: Seq<u8>,
) -> bool {
    !owned(look, now, path) && (!now.contains_key(path) || same_at(first, now, path))
}

/// So many hooks are dealt with.
spec fn dealt_with(m: RemovalModel) -> int {
    match m.phase {
        RemovalPhaseModel::Checking(_) => 0,
        RemovalPhaseModel::Inspecting(i) => i,
        RemovalPhaseModel::Deleting(i) => i,
        _ => m.hooks.len() as int,
    }
}

spec fn in_turn(
    look: spec_fn(int) -> Sight,
    m: RemovalModel,
    first: Files,
    now: Files,
) -> bool {
    let n = dealt_with(m);
    &&& removal_sound(m)
    &&& ascending(m.hooks)
    &&& all_supported(m.hooks)
    &&& m.phase is Failed || {
        &&& forall|hook: Seq<char>|
            supported(hook) && !m.hooks.take(n).contains(hook) ==> same_at(
                first,
                now,
                #[trigger] hook_home(m.repository, hook),
            )
        &&& forall|k: int|
            0 <= k < n ==> cleared(look, first, now, #[trigger] hook_home(m.repository, m.hooks[k]))
        &&& forall|hook: Seq<char>| #[trigger]
            m.removed.contains(hook) <==> m.hooks.take(n).contains(hook) && owned(
                look,
                first,
                hook_home(m.repository, hook),
            )
        &&& m.phase matches RemovalPhaseModel::Deleting(i) ==> owned(
            look,
            now,
            hook_home(m.repository, m.hooks[i]),
        )
    }
}

/// Hooks that come later in the list are other hooks.
proof fn lemma_later_hooks_differ(hooks: Seq<Seq<char>>, i: int)
    requires
        ascending(hooks),
        0 <= i < hooks.len(),
    ensures
        !hooks.take(i).contains(hooks[i]),
        forall|hook: Seq<char>| #[trigger]
            hooks.take(i + 1).contains(hook) <==> hooks.take(i).contains(hook) || hook == hooks[i],
{
    let shorter = hooks.take(i);
    let longer = hooks.take(i + 1);
    if shorter.contains(hooks[i]) {
        let k = choose|k: int| 0 <= k < shorter.len() && shorter[k] == hooks[i];
        assert(hooks[k] == shorter[k]);
        lemma_less_irreflexive(hooks[i]);
    }
    assert(longer =~= shorter.push(hooks[i]));
    assert forall|hook: Seq<char>| #[trigger]
        longer.contains(hook) <==> shorter.contains(hook) || hook == hooks[i] by {
        if shorter.contains(hook) {
            let k = choose|k: int| 0 <= k < shorter.len() && shorter[k] == hook;
            assert(longer[k] == hook);
        }
        if hook == hooks[i] {
            assert(longer[i] == hook);
        }
        if longer.contains(hook) && hook != hooks[i] {
            let k = choose|k: int| 0 <= k < longer.len() && longer[k] == hook;
            assert(shorter[k] == hook);
        }
    }
}

/// What is taken away is at no hook's path.
proof fn lemma_hooks_stay(
    look: spec_fn(int) -> Sight,
    repository: Repository,
    before: Files,
    path: Seq<u8>,
    hook: Seq<char>,
)
    requires
        !is_hook_place(repository, path),
        supported(hook),
    ensures
        same_at(before, before.remove(path), hook_home(repository, hook)),
        owned(look, before.remove(path), hook_home(repository, hook)) == owned(
            look,
            before,
            hook_home(repository, hook),
        ),
{
    assert(hook_home(repository, hook) != path);
}

proof fn lemma_removal_goes_on(
    look: spec_fn(int) -> Sight,
    m: RemovalModel,
    first: Files,
    before: Files,
    reply: RemovalReply,
    now: Files,
)
    requires
        in_turn(look, m, first, before),
        removal_comes_true(look, m, before, reply, now),
    ensures
        in_turn(look, after_removal(m, reply), first, now),
{
    let next = after_removal(m, reply);
    let repository = m.repository;
    match m.phase {
        RemovalPhaseModel::Checking(i) => {
            assert(m.hooks.take(0) =~= seq![]);
        },
        RemovalPhaseModel::Inspecting(i) => {
            let hook = m.hooks[i];
            lemma_later_hooks_differ(m.hooks, i);
            assert(supported(hook));
            assert(same_at(first, now, hook_home(repository, hook)));
            if !(next.phase is Failed) && !(next.phase is Deleting) {
                assert(dealt_with(next) == i + 1);
                assert(cleared(look, first, now, hook_home(repository, hook)));
            }
        },
        RemovalPhaseModel::Deleting(i) => {
            let gone = m.hooks[i];
            lemma_later_hooks_differ(m.hooks, i);
            assert(supported(gone));
            assert(same_at(first, before, hook_home(repository, gone)));
            if reply is Done {
                assert(dealt_with(next) == i + 1);
                lemma_deleted(look, m, first, before, now, i);
                assert(m.removed.push(gone).last() == gone);
                assert forall|hook: Seq<char>| #[trigger]
                    next.removed.contains(hook) <==> m.removed.contains(hook) || hook == gone by {
                    lemma_push_contains(m.removed, gone, hook);
                }
            }
        },
        RemovalPhaseModel::DroppingPipeline | RemovalPhaseModel::DroppingJust
        | RemovalPhaseModel::DroppingDirectory => {
            if reply is Done {
                let path = match next_removal_step(m) {
                    RemovalStepModel::DeleteIfPresent(path) => path,
                    RemovalStepModel::RemoveDirectory(path) => path,
                    _ => seq![],
                };
                lemma_no_hook_place(repository, path);
                assert forall|hook: Seq<char>|
                    supported(hook) && !next.hooks.take(dealt_with(next)).contains(
                        hook,
                    ) implies same_at(first, now, #[trigger] hook_home(repository, hook)) by {
                    lemma_hooks_stay(look, repository, before, path, hook);
                }
                assert forall|k: int| 0 <= k < dealt_with(next) implies cleared(
                    look,
                    first,
                    now,
                    #[trigger] hook_home(repository, next.hooks[k]),
                ) by {
                    assert(supported(m.hooks[k]));
                    lemma_hooks_stay(look, repository, before, path, m.hooks[k]);
                }
            }
        },
        _ => {},
    }
}

proof fn lemma_push_contains(list: Seq<Seq<char>>, last: Seq<char>, hook: Seq<char>)
    ensures
        list.push(last).contains(hook) <==> list.contains(hook) || hook == last,
{
    let grown = list.push(last);
    assert(grown[list.len() as int] == last);
    if list.contains(hook) {
        let k = choose|k: int| 0 <= k < list.len() && list[k] == hook;
        assert(grown[k] == hook);
    }
    if grown.contains(hook) && hook != last {
        let k = choose|k: int| 0 <= k < grown.len() && grown[k] == hook;
        assert(list[k] == hook);
    }
}

proof fn lemma_deleted(
    look: spec_fn(int) -> Sight,
    m: RemovalModel,
    first: Files,
    before: Files,
    now: Files,
    i: int,
)
    requires
        in_turn(look, m, first, before),
        m.phase == RemovalPhaseModel::Deleting(i),
        now == before.remove(hook_home(m.repository, m.hooks[i])),
    ensures
        forall|hook: Seq<char>|
            supported(hook) && !m.hooks.take(i + 1).contains(hook) ==> same_at(
                first,
                now,
                #[trigger] hook_home(m.repository, hook),
            ),
        forall|k: int|
            0 <= k < i + 1 ==> cleared(
                look,
                first,
                now,
                #[trigger] hook_home(m.repository, m.hooks[k]),
            ),
{
    let gone = m.hooks[i];
    lemma_later_hooks_differ(m.hooks, i);
    assert(supported(gone));
    assert forall|hook: Seq<char>|
        supported(hook) && !m.hooks.take(i + 1).contains(hook) implies same_at(
        first,
        now,
        #[trigger] hook_home(m.repository, hook),
    ) by {
        if hook_home(m.repository, hook) == hook_home(m.repository, gone) {
            hooks_have_paths_of_their_own(m.repository, hook, gone);
        }
        assert(!m.hooks.take(i).contains(hook));
    }
}

/// The executables and their directory are no hooks.
proof fn lemma_no_hook_place(repository: Repository, path: Seq<u8>)
    requires
        path == pipeline_place(repository) || path == just_place(repository) || path
            == pipeline_home(repository),
    ensures
        !is_hook_place(repository, path),
{
    if path == pipeline_home(repository) {
        lemma_nothing_above(repository, path);
    } else if is_hook_place(repository, path) {
        let hook = choose|hook: Seq<char>|
            supported(hook) && #[trigger] hook_home(repository, hook) == path;
        lemma_hook_place(repository, hook);
    }
}

proof fn lemma_removal_in_turn(
    look: spec_fn(int) -> Sight,
    repository: Repository,
    hooks: Seq<Seq<char>>,
    first: Files,
    events: Seq<(RemovalReply, Files)>,
)
    requires
        ascending(hooks),
        all_supported(hooks),
        removal_faithful(look, repository, hooks, first, events),
    ensures
        ({
            let (m, files) = removal_outcome(repository, hooks, first, events);
            in_turn(look, m, first, files) && m.repository == repository && m.hooks == hooks
        }),
    decreases events.len(),
{
    if events.len() == 0 {
        assert(hooks.take(0) =~= seq![]);
    } else {
        lemma_removal_in_turn(look, repository, hooks, first, events.drop_last());
        let (m, files) = removal_outcome(repository, hooks, first, events.drop_last());
        lemma_removal_goes_on(look, m, first, files, events.last().0, events.last().1);
    }
}

/// A removal that succeeds takes its hooks away from those that are installed
/// and leaves all others: what is listed after it is what was listed before it,
/// without the hooks that were asked for. It counts exactly those as removed
/// that were asked for and installed.
pub proof fn removing_takes_away_the_hooks_that_were_asked_for(
    look: spec_fn(int) -> Sight,
    repository: Repository,
    hooks: Seq<Seq<char>>,
    first: Files,
    events: Seq<(RemovalReply, Files)>,
    former: Seq<HookFile>,
    latter: Seq<HookFile>,
    before: NameSet,
    result: Result<NameSet, HookError>,
)
    requires
        ascending(hooks),
        all_supported(hooks),
        removal_faithful(look, repository, hooks, first, events),
        removal_outcome(repository, hooks, first, events).0.phase is Finished,
        surveyed(look, repository, first, former),
        surveyed(look, repository, removal_outcome(repository, hooks, first, events).1, latter),
        lists_installed(former, Ok(before)),
        lists_installed(latter, result),
    ensures
        result matches Ok(now) && forall|hook: Seq<char>| #[trigger]
            now@.contains(hook) <==> before@.contains(hook) && !hooks.contains(hook),
        forall|hook: Seq<char>| #[trigger]
            removal_outcome(repository, hooks, first, events).0.removed.contains(hook)
                <==> before@.contains(hook) && hooks.contains(hook),
{
    let (m, files) = removal_outcome(repository, hooks, first, events);
    lemma_removal_in_turn(look, repository, hooks, first, events);
    assert(hooks.take(hooks.len() as int) =~= hooks);
    assert forall|j: int| 0 <= j < latter.len() implies readable(#[trigger] latter[j]) by {
        let name = supported_hooks()[j];
        assert(supported_hooks().contains(name));
        assert(readable(former[j]));
        if hooks.contains(name) {
            let k = choose|k: int| 0 <= k < hooks.len() && hooks[k] == name;
            assert(cleared(look, first, files, hook_home(repository, hooks[k])));
        } else {
            assert(same_at(first, files, hook_home(repository, name)));
        }
    }
    assert(all_readable(latter, latter.len() as int));
    let now = result->Ok_0;
    assert forall|hook: Seq<char>|
        (now@.contains(hook) <==> before@.contains(hook) && !hooks.contains(hook)) && (
        m.removed.contains(hook) <==> before@.contains(hook) && hooks.contains(hook)) by {
        if hooks.contains(hook) {
            let k = choose|k: int| 0 <= k < hooks.len() && hooks[k] == hook;
            assert(supported(hooks[k]));
            assert(cleared(look, first, files, hook_home(repository, hooks[k])));
        }
        lemma_listed(look, repository, first, former, hook);
        lemma_listed(look, repository, files, latter, hook);
        assert(now@.contains(hook) <==> installed(latter, hook));
        assert(before@.contains(hook) <==> installed(former, hook));
    }
}

/// A supported hook is installed exactly if Pipeline's own stands at its path.
proof fn lemma_listed(
    look: spec_fn(int) -> Sight,
    repository: Repository,
    files: Files,
    list: Seq<HookFile>,
    hook: Seq<char>,
)
    requires
        surveyed(look, repository, files, list),
    ensures
        installed(list, hook) <==> supported(hook) && owned(
            look,
            files,
            hook_home(repository, hook),
        ),
{
    if installed(list, hook) {
        let i = choose|i: int|
            0 <= i < list.len() && supported_hooks()[i] == hook && managed(#[trigger] list[i]);
        assert(supported_hooks().contains(supported_hooks()[i]));
    }
    if supported(hook) && owned(look, files, hook_home(repository, hook)) {
        let i = choose|i: int| 0 <= i < supported_hooks().len() && supported_hooks()[i] == hook;
        assert(managed(list[i]));
    }
}

} // verus!
