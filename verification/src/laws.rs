//! What holds of every session, whatever the file system answers.
//!
//! A session is described by the events it was handed. [`before`] gives the state in which each of
//! them found it, so that its request tells what had been asked for by then.
use crate::age::{contents_view, last_used_age};
use crate::names::{entry_kind, is_poisoned, poisoned, starts_with_deletion_prefix, EntryKind};
use crate::recency::{is_fresh, recency_order};
use crate::selection::{
    directory_of, retention, selection, ttl_is_ignored, GitVersionInfo, Overrides, Warning,
    MAX_OTHER_DB_VERSIONS, TEMP_DIR,
};
use crate::session::{
    initial_state, initial_warnings, Event, MarkUsedError, OpenOutcome, RequestView, SessionState,
    Source, Stage,
};
use vstd::prelude::*;

verus! {

/// The state that `events` lead to from `start`.
pub open spec fn run(start: SessionState, events: Seq<Event>) -> SessionState
    decreases events.len(),
{
    if events.len() == 0 {
        start
    } else {
        run(start, events.drop_last()).next(events.last())
    }
}

/// The state in which the event at `k` finds the session.
#[verifier::opaque]
pub open spec fn before(start: SessionState, events: Seq<Event>, k: int) -> SessionState {
    run(start, events.take(k))
}

/// A session's past does not change as it goes on.
proof fn lemma_past_stays(start: SessionState, events: Seq<Event>)
    requires
        events.len() > 0,
    ensures
        forall|k: int|
            0 <= k < events.len() ==> #[trigger] before(start, events, k) == before(
                start,
                events.drop_last(),
                k,
            ),
        before(start, events, events.len() - 1) == run(start, events.drop_last()),
{
    reveal(before);
    assert forall|k: int| 0 <= k < events.len() implies #[trigger] before(start, events, k)
        == before(start, events.drop_last(), k) by {
        assert(events.take(k) =~= events.drop_last().take(k));
    }
    assert(events.take(events.len() - 1) =~= events.drop_last());
}

/// Every state of a session is valid, and the directory and the limits stay what they were at the
/// start.
pub proof fn law_sessions_stay_valid(
    info: GitVersionInfo,
    overrides: Overrides,
    is_ci: bool,
    events: Seq<Event>,
)
    ensures
        ({
            let now = run(initial_state(info, overrides, is_ci), events);
            &&& now.valid()
            &&& now.directory == directory_of(selection(info, overrides))
            &&& now.retention == retention(is_ci, overrides.version_ttl)
        }),
    decreases events.len(),
{
    if events.len() == 0 {
        crate::session::lemma_initial_state_is_valid(info, overrides, is_ci);
    } else {
        law_sessions_stay_valid(info, overrides, is_ci, events.drop_last());
        let last = run(initial_state(info, overrides, is_ci), events.drop_last());
        crate::session::lemma_next_is_valid(last, events.last());
    }
}

/// Whether `events` hold an entry `name` that is a directory.
pub open spec fn listed_directory(events: Seq<Event>, name: Seq<u8>) -> bool {
    exists|k: int| 0 <= k < events.len() && #[trigger] is_entry(events[k], name, Some(true))
}

/// Whether `event` reports the entry `name` of this type.
pub open spec fn is_entry(event: Event, name: Seq<u8>, is_dir: Option<bool>) -> bool {
    event matches Event::Entry { name: listed, is_dir: kind } && listed@ == name && kind == is_dir
}

/// Whether `events` hold the success of renaming `from` to its poisoned name.
pub open spec fn was_poisoned(start: SessionState, events: Seq<Event>, from: Seq<u8>) -> bool {
    exists|k: int|
        0 <= k < events.len() && #[trigger] events[k] == Event::Renamed(true) && before(
            start,
            events,
            k,
        ).request() == (RequestView::Rename { from, to: poisoned(from) })
}

/// What is known of the names that a session acts on.
spec fn names_are_safe(start: SessionState, events: Seq<Event>) -> bool {
    let now = run(start, events);
    &&& forall|i: int|
        0 <= i < now.others.len() ==> {
            &&& #[trigger] now.others[i] != now.version()
            &&& !is_poisoned(now.others[i])
            &&& listed_directory(events, now.others[i])
        }
    &&& now.stage == Stage::Sweeping ==> {
        &&& now.leftover != now.version()
        &&& is_poisoned(now.leftover)
        &&& listed_directory(events, now.leftover)
    }
    &&& now.stage == Stage::Removing ==> was_poisoned(start, events, now.ranked(now.evicted))
}

proof fn lemma_names_are_safe(
    info: GitVersionInfo,
    overrides: Overrides,
    is_ci: bool,
    events: Seq<Event>,
)
    ensures
        names_are_safe(initial_state(info, overrides, is_ci), events),
    decreases events.len(),
{
    let start = initial_state(info, overrides, is_ci);
    if events.len() > 0 {
        let rest = events.drop_last();
        let event = events.last();
        lemma_names_are_safe(info, overrides, is_ci, rest);
        law_sessions_stay_valid(info, overrides, is_ci, rest);
        lemma_past_stays(start, events);
        let then = run(start, rest);
        let now = run(start, events);
        assert forall|name: Seq<u8>| listed_directory(rest, name) implies #[trigger] listed_directory(
            events,
            name,
        ) by {
            let k = choose|k: int| 0 <= k < rest.len() && #[trigger] is_entry(rest[k], name, Some(true));
            assert(is_entry(events[k], name, Some(true)));
        }
        assert forall|name: Seq<u8>| was_poisoned(start, rest, name) implies #[trigger] was_poisoned(
            start,
            events,
            name,
        ) by {
            let k = choose|k: int|
                0 <= k < rest.len() && #[trigger] rest[k] == Event::Renamed(true) && before(
                    start,
                    rest,
                    k,
                ).request() == (RequestView::Rename { from: name, to: poisoned(name) });
            assert(events[k] == Event::Renamed(true));
        }
        assert(events[events.len() - 1] == event);
        if let Event::Entry { name, is_dir } = event {
            assert(is_entry(events[events.len() - 1], name@, is_dir));
        }
        assert forall|i: int| 0 <= i < now.others.len() implies {
            &&& #[trigger] now.others[i] != now.version()
            &&& !is_poisoned(now.others[i])
            &&& listed_directory(events, now.others[i])
        } by {
            if i < then.others.len() {
                assert(now.others[i] == then.others[i]);
            }
        }
    }
}

/// No request renames the entry that has the current version's name, and what is renamed is always
/// a listed directory that no earlier run poisoned.
pub proof fn law_only_other_databases_are_renamed(
    info: GitVersionInfo,
    overrides: Overrides,
    is_ci: bool,
    events: Seq<Event>,
)
    ensures
        ({
            let now = run(initial_state(info, overrides, is_ci), events);
            now.request() matches RequestView::Rename { from, to } ==> {
                &&& from != now.version()
                &&& !is_poisoned(from)
                &&& listed_directory(events, from)
                &&& to == poisoned(from)
            }
        }),
{
    lemma_names_are_safe(info, overrides, is_ci, events);
    law_sessions_stay_valid(info, overrides, is_ci, events);
    let now = run(initial_state(info, overrides, is_ci), events);
    crate::recency::law_recency_order_is_unique(now.ages);
}

/// A directory is removed only when it is poisoned: it is a listed directory whose removal an
/// earlier run began, or the session has renamed another database to the removed name.
pub proof fn law_only_poisoned_directories_are_removed(
    info: GitVersionInfo,
    overrides: Overrides,
    is_ci: bool,
    events: Seq<Event>,
)
    ensures
        ({
            let start = initial_state(info, overrides, is_ci);
            let now = run(start, events);
            now.request() matches RequestView::RemoveDir(name) ==> {
                &&& is_poisoned(name)
                &&& {
                    ||| name != now.version() && listed_directory(events, name)
                    ||| exists|from: Seq<u8>| #[trigger]
                        was_poisoned(start, events, from) && from != now.version() && name
                            == poisoned(from)
                }
            }
        }),
{
    lemma_names_are_safe(info, overrides, is_ci, events);
    law_sessions_stay_valid(info, overrides, is_ci, events);
    let start = initial_state(info, overrides, is_ci);
    let now = run(start, events);
    crate::recency::law_recency_order_is_unique(now.ages);
    if now.stage == Stage::Removing {
        let from = now.ranked(now.evicted);
        assert(was_poisoned(start, events, from));
        let name = poisoned(from);
        assert(crate::names::deletion_prefix() =~= name.subrange(
            0,
            crate::names::deletion_prefix().len() as int,
        ));
    }
}

/// The current version's database is retained, no matter how long ago it was last used: no request
/// renames or removes the entry that has its name. Left out is a session that has renamed another
/// database to just that name, which takes a current version that starts with the deletion prefix.
pub proof fn law_current_version_is_kept(
    info: GitVersionInfo,
    overrides: Overrides,
    is_ci: bool,
    events: Seq<Event>,
)
    requires
        forall|from: Seq<u8>| #[trigger]
            was_poisoned(initial_state(info, overrides, is_ci), events, from) ==> poisoned(from)
                != initial_state(info, overrides, is_ci).version(),
    ensures
        ({
            let now = run(initial_state(info, overrides, is_ci), events);
            &&& now.request() matches RequestView::Rename { from, to } ==> from != now.version()
            &&& now.request() matches RequestView::RemoveDir(name) ==> name != now.version()
        }),
{
    law_only_other_databases_are_renamed(info, overrides, is_ci, events);
    law_only_poisoned_directories_are_removed(info, overrides, is_ci, events);
    law_sessions_stay_valid(info, overrides, is_ci, events);
}

/// The age that `event` reports to a session that asked for one in this state.
pub open spec fn age_read(state: SessionState, event: Event) -> Option<Option<u128>> {
    match (state.request(), event) {
        (RequestView::ReadStamp(_), Event::StampRead { modified, now }) => match modified {
            Some(_) => Some(last_used_age(modified, None, now)),
            None => None,
        },
        (RequestView::ReadContents(_), Event::ContentsRead { files, now }) => Some(
            last_used_age(None, contents_view(files), now),
        ),
        _ => None,
    }
}

/// Whether a session in this state asks how old the directory `name` is.
pub open spec fn asks_age_of(state: SessionState, name: Seq<u8>) -> bool {
    state.request() == RequestView::ReadStamp(name) || state.request() == RequestView::ReadContents(
        name,
    )
}

/// Whether the event at `k` gives the age `age` to the database `name`, which was listed at `i`.
pub open spec fn dates_at(
    start: SessionState,
    events: Seq<Event>,
    i: int,
    name: Seq<u8>,
    age: Option<u128>,
    k: int,
) -> bool {
    let then = before(start, events, k);
    &&& 0 <= k < events.len()
    &&& then.stage is Dating
    &&& then.ages.len() == i
    &&& asks_age_of(then, name)
    &&& age_read(then, events[k]) == Some(age)
}

/// Whether the event at `k` gives the age `age` to the database `name`, which is ranked at `i`, when
/// it is looked at again.
pub open spec fn rechecks_at(
    start: SessionState,
    events: Seq<Event>,
    i: int,
    name: Seq<u8>,
    age: Option<u128>,
    k: int,
) -> bool {
    let then = before(start, events, k);
    &&& 0 <= k < events.len()
    &&& then.stage is Rechecking
    &&& then.retained == i
    &&& asks_age_of(then, name)
    &&& age_read(then, events[k]) == Some(age)
}

/// Whether the database `name`, ranked at `i`, turned out to have the age `age` when it was looked
/// at again.
pub open spec fn was_rechecked(
    start: SessionState,
    events: Seq<Event>,
    i: int,
    name: Seq<u8>,
    age: Option<u128>,
) -> bool {
    exists|k: int| #[trigger] rechecks_at(start, events, i, name, age, k)
}

/// Whether the database `name`, ranked at `i`, turned out, when it was looked at again, to have been
/// used within the time `ttl`, or not to have been.
pub open spec fn was_found(
    start: SessionState,
    events: Seq<Event>,
    i: int,
    name: Seq<u8>,
    ttl: u128,
    fresh: bool,
) -> bool {
    exists|age: Option<u128>|
        is_fresh(age, ttl) == fresh && #[trigger] was_rechecked(start, events, i, name, age)
}

/// Whether the event at `k` finds the session asking for the database ranked at `i` to be poisoned.
pub open spec fn evicts_at(start: SessionState, events: Seq<Event>, i: int, k: int) -> bool {
    let then = before(start, events, k);
    &&& 0 <= k < events.len()
    &&& then.stage is Renaming
    &&& then.evicted == i
}

/// Whether it was asked for that the database ranked at `i` be poisoned.
pub open spec fn was_evicted(start: SessionState, events: Seq<Event>, i: int) -> bool {
    exists|k: int| #[trigger] evicts_at(start, events, i, k)
}

/// Whether it is settled in this stage which databases are kept.
pub open spec fn is_settled(stage: Stage) -> bool {
    match stage {
        Stage::OpeningListing => false,
        Stage::Listing => false,
        Stage::Sweeping => false,
        Stage::Dating(_) => false,
        Stage::Rechecking(_) => false,
        _ => true,
    }
}

/// Whether the database `name`, listed at `i`, was read to have the age `age`.
pub open spec fn was_dated(
    start: SessionState,
    events: Seq<Event>,
    i: int,
    name: Seq<u8>,
    age: Option<u128>,
) -> bool {
    exists|k: int| #[trigger] dates_at(start, events, i, name, age, k)
}

proof fn lemma_dating_stays(
    start: SessionState,
    events: Seq<Event>,
    i: int,
    name: Seq<u8>,
    age: Option<u128>,
)
    requires
        events.len() > 0,
        was_dated(start, events.drop_last(), i, name, age),
    ensures
        was_dated(start, events, i, name, age),
{
    lemma_past_stays(start, events);
    let k = choose|k: int| #[trigger] dates_at(start, events.drop_last(), i, name, age, k);
    assert(before(start, events, k) == before(start, events.drop_last(), k));
    assert(dates_at(start, events, i, name, age, k));
}

proof fn lemma_finding_stays(
    start: SessionState,
    events: Seq<Event>,
    i: int,
    name: Seq<u8>,
    ttl: u128,
    fresh: bool,
)
    requires
        events.len() > 0,
        was_found(start, events.drop_last(), i, name, ttl, fresh),
    ensures
        was_found(start, events, i, name, ttl, fresh),
{
    lemma_past_stays(start, events);
    let rest = events.drop_last();
    let age = choose|age: Option<u128>|
        is_fresh(age, ttl) == fresh && #[trigger] was_rechecked(start, rest, i, name, age);
    let k = choose|k: int| #[trigger] rechecks_at(start, rest, i, name, age, k);
    assert(before(start, events, k) == before(start, rest, k));
    assert(rechecks_at(start, events, i, name, age, k));
    assert(was_rechecked(start, events, i, name, age));
}

proof fn lemma_eviction_stays(start: SessionState, events: Seq<Event>, i: int)
    requires
        events.len() > 0,
        was_evicted(start, events.drop_last(), i),
    ensures
        was_evicted(start, events, i),
{
    lemma_past_stays(start, events);
    let k = choose|k: int| #[trigger] evicts_at(start, events.drop_last(), i, k);
    assert(before(start, events, k) == before(start, events.drop_last(), k));
    assert(evicts_at(start, events, i, k));
}

/// How an event can change which databases are kept.
spec fn is_step_of_retention(then: SessionState, event: Event, now: SessionState) -> bool {
    let read = age_read(then, event);
    let ttl = then.retention.ttl;
    &&& now.retention == then.retention
    &&& then.stage is Rechecking || is_settled(then.stage) ==> {
        &&& now.others == then.others
        &&& now.order == then.order
    }
    &&& is_settled(then.stage) ==> is_settled(now.stage) && now.retained == then.retained
    &&& now.retained != then.retained ==> {
        &&& then.stage is Rechecking
        &&& read is Some
        &&& is_fresh(read->0, ttl)
        &&& now.retained == then.retained + 1
    }
    &&& is_settled(now.stage) && !is_settled(then.stage) ==> {
        ||| now.retained == then.retention.max_other_db_versions
        ||| now.retained == now.order.len()
        ||| then.stage is Rechecking && read is Some && !is_fresh(read->0, ttl) && now.retained
            == then.retained
    }
}

proof fn lemma_step_of_retention(then: SessionState, event: Event)
    requires
        then.valid(),
    ensures
        is_step_of_retention(then, event, then.next(event)),
{
    crate::session::lemma_next_is_valid(then, event);
    crate::recency::law_recency_order_is_unique(then.ages);
}

/// How an event can change which databases are evicted.
spec fn is_step_of_eviction(then: SessionState, now: SessionState) -> bool {
    let was_evicting = then.stage == Stage::Renaming || then.stage == Stage::Removing;
    &&& now.retained >= 0
    &&& now.evicted != then.evicted ==> {
        ||| now.evicted == now.retained
        ||| now.evicted == then.evicted + 1 && now.retained == then.retained && was_evicting
    }
    &&& now.retained != then.retained ==> now.evicted == now.retained || now.evicted == 0
    &&& now.stage == Stage::Removing ==> now.evicted == then.evicted && was_evicting
}

proof fn lemma_step_of_eviction(then: SessionState, event: Event)
    requires
        then.valid(),
    ensures
        is_step_of_eviction(then, then.next(event)),
{
    crate::session::lemma_next_is_valid(then, event);
}

/// The ages by which the other databases are ranked are those that were read of them.
pub proof fn law_ages_are_those_read(
    info: GitVersionInfo,
    overrides: Overrides,
    is_ci: bool,
    events: Seq<Event>,
)
    ensures
        ({
            let start = initial_state(info, overrides, is_ci);
            let now = run(start, events);
            forall|i: int|
                0 <= i < now.ages.len() ==> was_dated(
                    start,
                    events,
                    i,
                    now.others[i],
                    #[trigger] now.ages[i],
                )
        }),
    decreases events.len(),
{
    let start = initial_state(info, overrides, is_ci);
    if events.len() > 0 {
        let rest = events.drop_last();
        law_ages_are_those_read(info, overrides, is_ci, rest);
        law_sessions_stay_valid(info, overrides, is_ci, rest);
        lemma_past_stays(start, events);
        let then = run(start, rest);
        let now = run(start, events);
        assert forall|i: int| 0 <= i < now.ages.len() implies was_dated(
            start,
            events,
            i,
            now.others[i],
            #[trigger] now.ages[i],
        ) by {
            if i < then.ages.len() {
                assert(then.ages[i] == now.ages[i]);
                assert(then.others[i] == now.others[i]);
                lemma_dating_stays(start, events, i, then.others[i], then.ages[i]);
            } else {
                assert(dates_at(
                    start,
                    events,
                    i,
                    now.others[i],
                    now.ages[i],
                    events.len() - 1,
                ));
            }
        }
    }
}

/// What is known, in the state `now` that `events` led to, of which databases are kept.
spec fn retention_is_justified(
    start: SessionState,
    events: Seq<Event>,
    now: SessionState,
) -> bool {
    let ttl = now.retention.ttl;
    &&& forall|i: int|
        0 <= i < now.retained ==> was_found(
            start,
            events,
            i,
            #[trigger] now.ranked(i),
            ttl,
            true,
        )
    &&& is_settled(now.stage) ==> {
        ||| now.retained == now.retention.max_other_db_versions
        ||| now.retained == now.order.len()
        ||| was_found(start, events, now.retained, now.ranked(now.retained), ttl, false)
    }
}

proof fn lemma_retention_is_justified(
    info: GitVersionInfo,
    overrides: Overrides,
    is_ci: bool,
    events: Seq<Event>,
)
    ensures
        retention_is_justified(
            initial_state(info, overrides, is_ci),
            events,
            run(initial_state(info, overrides, is_ci), events),
        ),
    decreases events.len(),
{
    let start = initial_state(info, overrides, is_ci);
    if events.len() > 0 {
        let rest = events.drop_last();
        lemma_retention_is_justified(info, overrides, is_ci, rest);
        law_sessions_stay_valid(info, overrides, is_ci, rest);
        lemma_past_stays(start, events);
        lemma_step_of_retention(run(start, rest), events.last());
        lemma_retention_stays_justified(start, events, run(start, rest), run(start, events));
    } else {
        assert(!is_settled(start.stage) || start.retained == start.order.len());
    }
}

proof fn lemma_retention_stays_justified(
    start: SessionState,
    events: Seq<Event>,
    then: SessionState,
    now: SessionState,
)
    requires
        events.len() > 0,
        then == before(start, events, events.len() - 1),
        retention_is_justified(start, events.drop_last(), then),
        then.valid(),
        is_step_of_retention(then, events.last(), now),
    ensures
        retention_is_justified(start, events, now),
{
    let rest = events.drop_last();
    let ttl = now.retention.ttl;
    let read = age_read(then, events.last());
    if then.stage is Rechecking && read is Some {
        let name = then.ranked(then.retained);
        assert(rechecks_at(start, events, then.retained, name, read->0, events.len() - 1));
        assert(was_rechecked(start, events, then.retained, name, read->0));
        assert(was_found(start, events, then.retained, name, ttl, is_fresh(read->0, ttl)));
    }
    assert forall|i: int| 0 <= i < now.retained implies was_found(
        start,
        events,
        i,
        #[trigger] now.ranked(i),
        ttl,
        true,
    ) by {
        if i < then.retained {
            assert(then.ranked(i) == now.ranked(i));
            lemma_finding_stays(start, events, i, then.ranked(i), ttl, true);
        }
    }
    let name = then.ranked(then.retained);
    if was_found(start, rest, then.retained, name, ttl, false) {
        lemma_finding_stays(start, events, then.retained, name, ttl, false);
    }
}

/// Once it is settled which databases are kept, they are the first ones in the order of recency, no
/// more than the limit allows, and each was found to have been used within the time when it was
/// looked at again. The first one that is not kept was found not to have been, unless the limit or
/// the number of databases had been reached.
pub proof fn law_kept_databases_are_few_recent_and_fresh(
    info: GitVersionInfo,
    overrides: Overrides,
    is_ci: bool,
    events: Seq<Event>,
)
    requires
        is_settled(run(initial_state(info, overrides, is_ci), events).stage),
    ensures
        ({
            let start = initial_state(info, overrides, is_ci);
            let now = run(start, events);
            let limits = retention(is_ci, overrides.version_ttl);
            &&& now.ages.len() == now.others.len()
            &&& now.order == recency_order(now.ages)
            &&& now.retained <= limits.max_other_db_versions <= MAX_OTHER_DB_VERSIONS
            &&& is_ci ==> now.retained == 0
            &&& forall|i: int|
                0 <= i < now.retained ==> was_found(
                    start,
                    events,
                    i,
                    #[trigger] now.ranked(i),
                    limits.ttl,
                    true,
                )
            &&& {
                ||| now.retained == limits.max_other_db_versions
                ||| now.retained == now.order.len()
                ||| was_found(
                    start,
                    events,
                    now.retained,
                    now.ranked(now.retained),
                    limits.ttl,
                    false,
                )
            }
        }),
{
    law_sessions_stay_valid(info, overrides, is_ci, events);
    lemma_retention_is_justified(info, overrides, is_ci, events);
    crate::selection::law_retention_is_bounded(is_ci, overrides.version_ttl);
}

/// What is known, in the state `now` that `events` led to, of which databases were evicted.
spec fn evictions_are_exact(start: SessionState, events: Seq<Event>, now: SessionState) -> bool {
    &&& forall|i: int|
        now.retained <= i < now.evicted ==> #[trigger] was_evicted(start, events, i)
    &&& now.stage == Stage::Removing ==> was_evicted(start, events, now.evicted)
    &&& forall|i: int, k: int| #[trigger]
        evicts_at(start, events, i, k) ==> {
            let then = before(start, events, k);
            &&& is_settled(now.stage)
            &&& then.others == now.others
            &&& then.order == now.order
            &&& now.retained <= i < now.order.len()
        }
}

proof fn lemma_evictions_are_exact(
    info: GitVersionInfo,
    overrides: Overrides,
    is_ci: bool,
    events: Seq<Event>,
)
    ensures
        evictions_are_exact(
            initial_state(info, overrides, is_ci),
            events,
            run(initial_state(info, overrides, is_ci), events),
        ),
    decreases events.len(),
{
    let start = initial_state(info, overrides, is_ci);
    if events.len() > 0 {
        let rest = events.drop_last();
        lemma_evictions_are_exact(info, overrides, is_ci, rest);
        law_sessions_stay_valid(info, overrides, is_ci, rest);
        lemma_past_stays(start, events);
        let then = run(start, rest);
        lemma_step_of_retention(then, events.last());
        lemma_step_of_eviction(then, events.last());
        lemma_evictions_stay_exact(start, events, then, run(start, events));
    }
}

proof fn lemma_evictions_stay_exact(
    start: SessionState,
    events: Seq<Event>,
    then: SessionState,
    now: SessionState,
)
    requires
        events.len() > 0,
        then == before(start, events, events.len() - 1),
        then.valid(),
        evictions_are_exact(start, events.drop_last(), then),
        is_step_of_retention(then, events.last(), now),
        is_step_of_eviction(then, now),
    ensures
        evictions_are_exact(start, events, now),
{
    let rest = events.drop_last();
    lemma_past_stays(start, events);
    if then.stage is Renaming {
        assert(evicts_at(start, events, then.evicted, events.len() - 1));
        assert(was_evicted(start, events, then.evicted));
    }
    if then.stage is Removing {
        lemma_eviction_stays(start, events, then.evicted);
    }
    assert forall|i: int| now.retained <= i < now.evicted implies #[trigger] was_evicted(
        start,
        events,
        i,
    ) by {
        if then.retained <= i < then.evicted {
            lemma_eviction_stays(start, events, i);
        }
    }
    assert forall|i: int, k: int| #[trigger] evicts_at(start, events, i, k) implies {
        let at_k = before(start, events, k);
        &&& is_settled(now.stage)
        &&& at_k.others == now.others
        &&& at_k.order == now.order
        &&& now.retained <= i < now.order.len()
    } by {
        if k < rest.len() {
            assert(before(start, events, k) == before(start, rest, k));
            assert(evicts_at(start, rest, i, k));
        }
    }
}

/// Whether the cleanup is over in this stage.
pub open spec fn is_cleaned_up(stage: Stage) -> bool {
    stage == Stage::OpeningStamp || stage == Stage::TouchingStamp || stage == Stage::Done
}

/// When the cleanup is over, every other database that is not kept was asked to be poisoned, and
/// none that is kept ever was. What was asked for each was to rename it to its poisoned name.
pub proof fn law_exactly_the_unkept_databases_are_evicted(
    info: GitVersionInfo,
    overrides: Overrides,
    is_ci: bool,
    events: Seq<Event>,
)
    requires
        is_cleaned_up(run(initial_state(info, overrides, is_ci), events).stage),
    ensures
        ({
            let start = initial_state(info, overrides, is_ci);
            let now = run(start, events);
            &&& forall|i: int|
                0 <= i < now.order.len() ==> (#[trigger] was_evicted(start, events, i) <==> i
                    >= now.retained)
            &&& forall|i: int, k: int| #[trigger]
                evicts_at(start, events, i, k) ==> before(start, events, k).request() == (
                RequestView::Rename { from: now.ranked(i), to: poisoned(now.ranked(i)) })
            &&& forall|i: int|
                0 <= i < now.order.len() ==> #[trigger] now.ranked(i) == now.others[now.order[i]]
            &&& forall|k: int|
                0 <= k < events.len() && #[trigger] before(start, events, k).request() is Rename
                    ==> exists|i: int|
                    now.retained <= i < now.order.len() && #[trigger] evicts_at(start, events, i, k)
        }),
{
    law_sessions_stay_valid(info, overrides, is_ci, events);
    lemma_evictions_are_exact(info, overrides, is_ci, events);
    let start = initial_state(info, overrides, is_ci);
    let now = run(start, events);
    assert forall|i: int| 0 <= i < now.order.len() implies (#[trigger] was_evicted(start, events, i)
        <==> i >= now.retained) by {
        if was_evicted(start, events, i) {
            let k = choose|k: int| #[trigger] evicts_at(start, events, i, k);
        }
    }
    assert forall|k: int|
        0 <= k < events.len() && #[trigger] before(
            start,
            events,
            k,
        ).request() is Rename implies exists|i: int|
        now.retained <= i < now.order.len() && #[trigger] evicts_at(start, events, i, k) by {
        assert(evicts_at(start, events, before(start, events, k).evicted, k));
    }
}

/// A database that was renamed is removed next under its new name, and one that could not be renamed
/// is not removed at all. Once it is dealt with, what follows is the same either way, and it does
/// not depend on whether the removal succeeded.
pub proof fn law_renamed_database_is_removed_next(state: SessionState, removed: bool)
    ensures
        state.request() matches RequestView::Rename { from, to } ==> {
            let renamed = state.next(Event::Renamed(true));
            let kept = state.next(Event::Renamed(false));
            &&& renamed.request() == RequestView::RemoveDir(to)
            &&& renamed.next(Event::Removed(removed)) == kept
            &&& kept.request() is Rename || kept.request() is OpenStamp
            &&& kept.others == state.others
            &&& kept.order == state.order
            &&& kept.retained == state.retained
        },
{
}

proof fn lemma_past_goes_on(start: SessionState, events: Seq<Event>, k: int)
    requires
        0 <= k < events.len(),
    ensures
        before(start, events, k + 1) == before(start, events, k).next(events[k]),
        before(start, events, events.len() as int) == run(start, events),
{
    reveal(before);
    assert(events.take(k + 1).drop_last() =~= events.take(k));
    assert(events.take(events.len() as int) =~= events);
}

/// Whether the removal of the directory `name` is asked for once the first `after` events are over.
pub open spec fn asks_removal_after(
    start: SessionState,
    events: Seq<Event>,
    name: Seq<u8>,
    after: int,
) -> bool {
    exists|j: int|
        after <= j < events.len() && #[trigger] before(start, events, j).request()
            == RequestView::RemoveDir(name)
}

/// When the cleanup is over, the removal of every database that was renamed was asked for
/// afterwards, under its new name.
pub proof fn law_every_renamed_database_is_removed(
    start: SessionState,
    events: Seq<Event>,
    from: Seq<u8>,
    to: Seq<u8>,
    k: int,
)
    requires
        is_cleaned_up(run(start, events).stage),
        0 <= k < events.len(),
        events[k] == Event::Renamed(true),
        before(start, events, k).request() == (RequestView::Rename { from, to }),
    ensures
        asks_removal_after(start, events, to, k + 1),
{
    let then = before(start, events, k);
    lemma_past_goes_on(start, events, k);
    law_renamed_database_is_removed_next(then, true);
    law_nothing_is_removed_after_the_stamp(run(start, events), events[k]);
    assert(before(start, events, k + 1).request() == RequestView::RemoveDir(to));
}

/// Whether no database passes the time limit, either way, between the first look at it and the
/// second.
pub open spec fn freshness_is_steady(start: SessionState, events: Seq<Event>) -> bool {
    let now = run(start, events);
    forall|i: int, name: Seq<u8>, age: Option<u128>| #[trigger]
        was_rechecked(start, events, i, name, age) ==> is_fresh(age, now.retention.ttl) == is_fresh(
            now.ages[now.order[i]],
            now.retention.ttl,
        )
}

/// A database whose version isn't the current one is retained if and only if it is among the most
/// recently used ones, as many as the limit allows, and was used within the time. Left out are
/// sessions in which a database passes the time limit between the first look and the second.
pub proof fn law_retained_iff_recent_and_used_within_ttl(
    info: GitVersionInfo,
    overrides: Overrides,
    is_ci: bool,
    events: Seq<Event>,
)
    requires
        is_cleaned_up(run(initial_state(info, overrides, is_ci), events).stage),
        freshness_is_steady(initial_state(info, overrides, is_ci), events),
    ensures
        ({
            let start = initial_state(info, overrides, is_ci);
            let now = run(start, events);
            let limits = retention(is_ci, overrides.version_ttl);
            &&& now.order == recency_order(now.ages)
            &&& forall|i: int|
                0 <= i < now.order.len() ==> (!(#[trigger] was_evicted(start, events, i)) <==> i
                    < limits.max_other_db_versions && is_fresh(
                    now.ages[now.order[i]],
                    limits.ttl,
                ))
        }),
{
    let start = initial_state(info, overrides, is_ci);
    let now = run(start, events);
    let limits = retention(is_ci, overrides.version_ttl);
    law_sessions_stay_valid(info, overrides, is_ci, events);
    law_kept_databases_are_few_recent_and_fresh(info, overrides, is_ci, events);
    law_exactly_the_unkept_databases_are_evicted(info, overrides, is_ci, events);
    crate::selection::law_retention_is_bounded(is_ci, overrides.version_ttl);
    crate::recency::law_recency_order_is_unique(now.ages);
    assert forall|i: int| 0 <= i < now.order.len() implies (!(#[trigger] was_evicted(
        start,
        events,
        i,
    )) <==> i < limits.max_other_db_versions && is_fresh(now.ages[now.order[i]], limits.ttl)) by {
        if i < now.retained {
            let name = now.ranked(i);
            assert(was_found(start, events, i, name, limits.ttl, true));
            let age = choose|age: Option<u128>|
                is_fresh(age, limits.ttl) == true && #[trigger] was_rechecked(start, events, i, name, age);
        } else if i < limits.max_other_db_versions && is_fresh(now.ages[now.order[i]], limits.ttl) {
            let name = now.ranked(now.retained);
            assert(was_found(start, events, now.retained, name, limits.ttl, false));
            let age = choose|age: Option<u128>|
                is_fresh(age, limits.ttl) == false && #[trigger] was_rechecked(
                    start,
                    events,
                    now.retained,
                    name,
                    age,
                );
            crate::recency::law_fresh_entries_come_first(now.ages, limits.ttl, now.retained, i);
        }
    }
}

/// Whether no directory is listed twice.
pub open spec fn no_name_is_listed_twice(events: Seq<Event>) -> bool {
    forall|j: int, k: int, name: Seq<u8>|
        0 <= j < k < events.len() && #[trigger] is_entry(events[j], name, Some(true))
            ==> !(#[trigger] is_entry(events[k], name, Some(true)))
}

proof fn lemma_others_are_distinct(
    info: GitVersionInfo,
    overrides: Overrides,
    is_ci: bool,
    events: Seq<Event>,
)
    requires
        no_name_is_listed_twice(events),
    ensures
        run(initial_state(info, overrides, is_ci), events).others.no_duplicates(),
    decreases events.len(),
{
    let start = initial_state(info, overrides, is_ci);
    if events.len() > 0 {
        let rest = events.drop_last();
        assert(no_name_is_listed_twice(rest)) by {
            assert forall|j: int, k: int, name: Seq<u8>|
                0 <= j < k < rest.len() && #[trigger] is_entry(
                    rest[j],
                    name,
                    Some(true),
                ) implies !(#[trigger] is_entry(rest[k], name, Some(true))) by {
                assert(is_entry(events[j], name, Some(true)));
                assert(rest[k] == events[k]);
            }
        }
        lemma_others_are_distinct(info, overrides, is_ci, rest);
        lemma_names_are_safe(info, overrides, is_ci, rest);
        let then = run(start, rest);
        let now = run(start, events);
        if now.others.len() > then.others.len() {
            let name = now.others.last();
            assert(is_entry(events[events.len() - 1], name, Some(true)));
            assert(!then.others.contains(name)) by {
                if then.others.contains(name) {
                    assert(listed_directory(rest, name));
                    let j = choose|j: int|
                        0 <= j < rest.len() && #[trigger] is_entry(rest[j], name, Some(true));
                    assert(is_entry(events[j], name, Some(true)));
                }
            }
        }
    }
}

/// Whether the event at `k` tells that the directory `name` has the age `age`.
pub open spec fn reads_age_at(
    start: SessionState,
    events: Seq<Event>,
    name: Seq<u8>,
    age: Option<u128>,
    k: int,
) -> bool {
    let then = before(start, events, k);
    &&& 0 <= k < events.len()
    &&& asks_age_of(then, name)
    &&& age_read(then, events[k]) == Some(age)
}

/// Switching to another version and back finds the old database intact. While a session runs for
/// the other version, the database that was used most recently before, no longer than `gap` ago and
/// so within the time limit, is neither renamed nor removed, outside CI.
pub proof fn law_switching_back_finds_the_old_database(
    info: GitVersionInfo,
    overrides: Overrides,
    events: Seq<Event>,
    name: Seq<u8>,
    gap: u128,
)
    requires
        overrides.version is None,
        overrides.disable_versioning || !info.dirty || overrides.ignore_dirty,
        !is_poisoned(name),
        gap <= retention(false, overrides.version_ttl).ttl,
        no_name_is_listed_twice(events),
        forall|age: Option<u128>, k: int| #[trigger]
            reads_age_at(initial_state(info, overrides, false), events, name, age, k) ==> is_fresh(
                age,
                gap,
            ),
        forall|other: Seq<u8>, age: Option<u128>, k: int|
            other != name && #[trigger] reads_age_at(
                initial_state(info, overrides, false),
                events,
                other,
                age,
                k,
            ) ==> !is_fresh(age, gap),
    ensures
        ({
            let now = run(initial_state(info, overrides, false), events);
            &&& now.request() matches RequestView::Rename { from, to } ==> from != name
            &&& now.request() matches RequestView::RemoveDir(removed) ==> removed != name
            &&& !(now.request() is RemoveTemp)
        }),
{
    let start = initial_state(info, overrides, false);
    let now = run(start, events);
    let ttl = retention(false, overrides.version_ttl).ttl;
    law_sessions_stay_valid(info, overrides, false, events);
    law_only_poisoned_directories_are_removed(info, overrides, false, events);
    lemma_end_is_answered(start, events);
    if now.stage == Stage::Renaming && now.ranked(now.evicted) == name {
        let order = now.order;
        let mine = order[now.evicted];
        let first = order[0];
        crate::selection::law_retention_is_bounded(false, overrides.version_ttl);
        crate::recency::law_recency_order_is_unique(now.ages);
        law_ages_are_those_read(info, overrides, false, events);
        law_kept_databases_are_few_recent_and_fresh(info, overrides, false, events);
        lemma_others_are_distinct(info, overrides, false, events);
        assert(was_dated(start, events, mine, name, now.ages[mine]));
        let k = choose|k: int| #[trigger] dates_at(start, events, mine, name, now.ages[mine], k);
        assert(reads_age_at(start, events, name, now.ages[mine], k));
        if now.evicted > 0 {
            assert(first != mine);
            let other = now.others[first];
            assert(other != name);
            assert(was_dated(start, events, first, other, now.ages[first]));
            let k = choose|k: int| #[trigger]
                dates_at(start, events, first, other, now.ages[first], k);
            assert(reads_age_at(start, events, other, now.ages[first], k));
            assert(crate::recency::comes_before(now.ages, first, mine));
        } else {
            assert(was_found(start, events, 0, name, ttl, false));
            let age = choose|age: Option<u128>|
                is_fresh(age, ttl) == false && #[trigger] was_rechecked(start, events, 0, name, age);
            let k = choose|k: int| #[trigger] rechecks_at(start, events, 0, name, age, k);
            assert(reads_age_at(start, events, name, age, k));
        }
    }
}

/// Whether the event at `k` reports an entry `name` to a session that is going through the listing,
/// and the entry is of this kind.
pub open spec fn lists_at(
    start: SessionState,
    events: Seq<Event>,
    name: Seq<u8>,
    kind: EntryKind,
    k: int,
) -> bool {
    let then = before(start, events, k);
    &&& 0 <= k < events.len()
    &&& then.stage == Stage::Listing
    &&& events[k] matches Event::Entry { name: listed, is_dir } && listed@ == name && entry_kind(
        name,
        is_dir,
        then.version(),
    ) == kind
}

/// Every listed database with another version is among those that are ranked.
pub proof fn law_every_listed_database_is_considered(
    info: GitVersionInfo,
    overrides: Overrides,
    is_ci: bool,
    events: Seq<Event>,
)
    ensures
        ({
            let start = initial_state(info, overrides, is_ci);
            forall|name: Seq<u8>, k: int| #[trigger]
                lists_at(start, events, name, EntryKind::OtherDb, k) ==> run(
                    start,
                    events,
                ).others.contains(name)
        }),
    decreases events.len(),
{
    let start = initial_state(info, overrides, is_ci);
    if events.len() > 0 {
        let rest = events.drop_last();
        law_every_listed_database_is_considered(info, overrides, is_ci, rest);
        law_sessions_stay_valid(info, overrides, is_ci, rest);
        lemma_past_stays(start, events);
        let then = run(start, rest);
        let now = run(start, events);
        assert forall|name: Seq<u8>, k: int| #[trigger]
            lists_at(start, events, name, EntryKind::OtherDb, k) implies now.others.contains(
            name,
        ) by {
            if k < rest.len() {
                assert(before(start, events, k) == before(start, rest, k));
                assert(lists_at(start, rest, name, EntryKind::OtherDb, k));
                let i = choose|i: int| 0 <= i < then.others.len() && then.others[i] == name;
                assert(now.others[i] == name);
            } else {
                assert(now.others[then.others.len() as int] == name);
            }
        }
    }
}

/// The names of the directories that were listed so far, other than the current version's and
/// without the deletion prefix, in the order in which they were listed.
pub open spec fn databases_listed(start: SessionState, events: Seq<Event>) -> Seq<Seq<u8>>
    decreases events.len(),
{
    if events.len() == 0 {
        Seq::empty()
    } else {
        let earlier = databases_listed(start, events.drop_last());
        match events.last() {
            Event::Entry { name, is_dir } => if run(start, events.drop_last()).request() is NextEntry
                && is_dir == Some(true) && name@ != vstd::utf8::encode_utf8(start.directory)
                && !starts_with_deletion_prefix(name@) {
                earlier.push(name@)
            } else {
                earlier
            },
            _ => earlier,
        }
    }
}

/// The databases that are ranked are exactly those that were listed, in the same order: every
/// listed directory counts, unless it is the current version's or its name starts with the deletion
/// prefix.
pub proof fn law_exactly_the_listed_databases_are_considered(
    info: GitVersionInfo,
    overrides: Overrides,
    is_ci: bool,
    events: Seq<Event>,
)
    ensures
        ({
            let start = initial_state(info, overrides, is_ci);
            run(start, events).others == databases_listed(start, events)
        }),
    decreases events.len(),
{
    let start = initial_state(info, overrides, is_ci);
    if events.len() > 0 {
        let rest = events.drop_last();
        law_exactly_the_listed_databases_are_considered(info, overrides, is_ci, rest);
        law_sessions_stay_valid(info, overrides, is_ci, rest);
        if let Event::Entry { name, is_dir } = events.last() {
            crate::names::law_every_other_directory_counts(
                name@,
                is_dir,
                run(start, rest).version(),
            );
        }
    }
}

/// The listing is gone through entry by entry. A directory whose name is not the current version's
/// is removed at once where its name starts with the deletion prefix, and otherwise joins the other
/// databases. Anything else, also an entry that can't be read, is passed over. Where the listing
/// can't be opened there is nothing to clean up.
pub proof fn law_listing_is_gone_through(state: SessionState, event: Event)
    ensures
        state.request() is OpenListing ==> (event matches Event::ListingOpened(ok) ==> {
            let now = state.next(event);
            &&& now.request() is NextEntry <==> ok
            &&& now.request() is OpenStamp <==> !ok
            &&& now.others == state.others
        }),
        state.request() is NextEntry ==> (event matches Event::Entry { name, is_dir } ==> {
            let now = state.next(event);
            let counts = is_dir == Some(true) && name@ != vstd::utf8::encode_utf8(state.directory);
            let stale = starts_with_deletion_prefix(name@);
            &&& counts && stale ==> now.request() == RequestView::RemoveDir(name@) && now.others
                == state.others
            &&& counts && !stale ==> now.request() is NextEntry && now.others == state.others.push(
                name@,
            )
            &&& !counts ==> now == state
        }),
        state.request() is NextEntry && event is EntryUnreadable ==> state.next(event) == state,
{
    if let Event::Entry { name, is_dir } = event {
        crate::names::law_every_other_directory_counts(name@, is_dir, state.version());
    }
}

/// When the listing has ended, the ages of the databases it held are read, beginning with the first
/// one's. Where it held none, the selected directory is stamped at once.
pub proof fn law_ages_are_read_after_the_listing(state: SessionState)
    requires
        state.valid(),
        state.request() is NextEntry,
    ensures
        ({
            let now = state.next(Event::ListingEnded);
            &&& now.others == state.others
            &&& state.others.len() > 0 ==> now.request() == RequestView::ReadStamp(state.others[0])
            &&& state.others.len() == 0 ==> now.request() is OpenStamp
        }),
{
    crate::recency::law_recency_order_is_unique(state.ages);
}

/// The age of a database is read from its stamp. Its contents are looked at exactly when the stamp
/// can't be read, and they settle the matter.
pub proof fn law_contents_are_read_only_without_a_stamp(state: SessionState, event: Event)
    ensures
        state.request() matches RequestView::ReadStamp(name) ==> (event matches Event::StampRead {
            modified,
            now,
        } ==> {
            &&& modified is None ==> state.next(event).request() == RequestView::ReadContents(name)
            &&& modified is Some ==> !(state.next(event).request() is ReadContents)
        }),
        state.request() is ReadContents && event is ContentsRead ==> !(state.next(
            event,
        ).request() is ReadContents),
{
}

/// What is read of a database when it is looked at for the first time is its age, as time passed
/// since its stamp or else since its newest file, and unknown where nothing can be read. Its place
/// in the list of ages is that of its name in the listing.
pub proof fn law_ages_are_times_passed(state: SessionState, event: Event)
    requires
        state.stage is Dating,
        answers(state.request(), event),
        !(state.next(event).request() is ReadContents),
    ensures
        ({
            let ages = state.next(event).ages;
            &&& asks_age_of(state, state.others[state.ages.len() as int])
            &&& ages.len() == state.ages.len() + 1
            &&& ages.drop_last() == state.ages
            &&& is_age_told(ages.last(), event)
        }),
{
    lemma_age_is_told(state, event);
    assert(state.next(event).ages.drop_last() =~= state.ages);
}

/// Whether `age` is what `event` tells: the time passed since the stamp or since the newest of the
/// files, and unknown where no file can be read.
pub open spec fn is_age_told(age: Option<u128>, event: Event) -> bool {
    match event {
        Event::StampRead { modified, now } => modified is Some && crate::age::is_time_between(
            age,
            modified->0,
            now,
        ),
        Event::ContentsRead { files, now } => {
            &&& age is None <==> files is None || forall|i: int|
                0 <= i < files->0@.len() ==> #[trigger] files->0@[i] is None
            &&& files is Some ==> forall|i: int| #[trigger]
                crate::age::is_latest(files->0@, i) ==> crate::age::is_time_between(
                    age,
                    files->0@[i]->0,
                    now,
                )
        },
        _ => false,
    }
}

proof fn lemma_age_is_told(state: SessionState, event: Event)
    ensures
        age_read(state, event) matches Some(age) ==> is_age_told(age, event),
{
    if let Event::ContentsRead { files, now } = event {
        let view = contents_view(files);
        crate::age::law_age_is_unknown_only_without_timestamps(None, view, now);
        if let Some(seen) = view {
            assert forall|i: int| #[trigger] crate::age::is_latest(
                seen,
                i,
            ) implies crate::age::is_time_between(
                last_used_age(None, view, now),
                seen[i]->0,
                now,
            ) by {
                crate::age::law_newest_file_stands_in_for_the_stamp(seen, i, now);
            }
        }
    }
}

/// A database that is looked at again is kept exactly when no more time than the limit has passed
/// since it was last used, by what is read then. Otherwise neither it nor any after it is kept.
pub proof fn law_second_look_decides(state: SessionState, event: Event, age: Option<u128>)
    requires
        state.stage is Rechecking,
        answers(state.request(), event),
        !(state.next(event).request() is ReadContents),
        is_age_told(age, event),
    ensures
        ({
            let now = state.next(event);
            let within = age is Some && age->0 <= state.retention.ttl;
            &&& asks_age_of(state, state.others[state.order[state.retained]])
            &&& within ==> now.retained == state.retained + 1
            &&& !within ==> now.retained == state.retained && is_settled(now.stage)
            &&& now.others == state.others
            &&& now.order == state.order
        }),
{
    lemma_age_is_told(state, event);
    let read = age_read(state, event);
    if let Event::ContentsRead { files, now } = event {
        if let Some(seen) = contents_view(files) {
            crate::age::law_newest_is_the_latest(seen);
            if let Some(latest) = crate::age::newest(seen) {
                let i = choose|i: int| 0 <= i < seen.len() && seen[i] == Some(latest);
                assert(crate::age::is_latest(seen, i));
            }
        }
    }
    assert(read == Some(age));
}

/// How the selected directory is stamped: its file is touched exactly when it was opened, and what
/// came of that is told at the end.
pub proof fn law_stamp_is_touched_once_opened(state: SessionState, event: Event)
    ensures
        state.request() is OpenStamp ==> (event matches Event::StampOpened(opened) ==> {
            let now = state.next(event);
            match opened {
                OpenOutcome::Opened => now.request() is TouchStamp,
                OpenOutcome::NotFound => now.request() is Finish && now.marked == Some(
                    Ok::<(), MarkUsedError>(()),
                ),
                OpenOutcome::Failed => now.request() is Finish && now.marked == Some(
                    Err::<(), MarkUsedError>(MarkUsedError::Open),
                ),
            }
        }),
        state.request() is TouchStamp ==> (event matches Event::StampTouched(ok) ==> {
            let now = state.next(event);
            &&& now.request() is Finish
            &&& now.marked == Some(
                if ok {
                    Ok::<(), MarkUsedError>(())
                } else {
                    Err::<(), MarkUsedError>(MarkUsedError::SetModified)
                },
            )
        }),
{
}

/// An event changes what is told of the stamp only where it ends the session, and it never changes
/// which directory is used nor what the limits are.
pub proof fn law_outcome_is_told_at_the_end(state: SessionState, event: Event)
    ensures
        state.next(event).marked != state.marked ==> state.next(event).request() is Finish,
        state.next(event).directory == state.directory,
        state.next(event).retention == state.retention,
{
}

/// How the temporary directory is prepared: it is removed exactly when it exists, and created unless
/// that fails, which is the end.
pub proof fn law_temporary_directory_is_replaced(state: SessionState, event: Event)
    ensures
        state.request() is CheckTemp ==> (event matches Event::TempChecked(present) ==> {
            &&& state.next(event).request() is RemoveTemp <==> present
            &&& state.next(event).request() is CreateTemp <==> !present
        }),
        state.request() is RemoveTemp ==> (event matches Event::Removed(ok) ==> {
            &&& state.next(event).request() is CreateTemp <==> ok
            &&& state.next(event).request() is Fail <==> !ok
        }),
        state.request() is CreateTemp && event is TempCreated ==> state.next(
            event,
        ).request() is Finish,
{
}

/// What a session begins with follows from the overrides and the state of the repository alone. A
/// forced version is used at once. A dirty repository whose dirtiness is not ignored has the
/// temporary directory looked at, unless versioning is disabled. All else begins with the listing.
pub proof fn law_inputs_decide_how_a_session_begins(
    info: GitVersionInfo,
    overrides: Overrides,
    is_ci: bool,
)
    ensures
        ({
            let start = initial_state(info, overrides, is_ci);
            let free = overrides.version is None;
            let by_version = free && !overrides.disable_versioning;
            let temporary = by_version && info.dirty && !overrides.ignore_dirty;
            &&& start.request() is Finish <==> overrides.version is Some
            &&& start.request() is CheckTemp <==> temporary
            &&& start.request() is OpenListing <==> free && !temporary
            &&& overrides.version is Some ==> start.directory == overrides.version->0@
            &&& free && overrides.disable_versioning ==> start.directory == "unversioned"@
            &&& temporary ==> start.directory == "temp"@
            &&& by_version && !temporary ==> start.directory == info.describe@
            &&& start.version() == vstd::utf8::encode_utf8(start.directory)
            &&& start.retention == retention(is_ci, overrides.version_ttl)
            &&& start.marked is None
            &&& start.others.len() == 0
        }),
{
}

/// What the user is told at the start: at most one thing about the selection, and then, where a
/// version is selected outside CI, whether the override of the time is unusable.
pub proof fn law_inputs_decide_what_is_said(
    info: GitVersionInfo,
    overrides: Overrides,
    is_ci: bool,
)
    ensures
        ({
            let said = initial_warnings(info, overrides, is_ci);
            let free = overrides.version is None;
            let dirty = free && !overrides.disable_versioning && info.dirty;
            let temporary = dirty && !overrides.ignore_dirty;
            &&& said.contains(Warning::VersioningDisabled) <==> free && overrides.disable_versioning
            &&& said.contains(Warning::DirtyCacheEnabled) <==> dirty && overrides.ignore_dirty
            &&& said.contains(Warning::DirtyCacheDisabled) <==> temporary
            &&& said.contains(Warning::TtlIgnored) <==> free && !temporary && !is_ci
                && ttl_is_ignored(overrides.version_ttl)
            &&& said.contains(Warning::TtlIgnored) ==> said.last() == Warning::TtlIgnored
            &&& said.no_duplicates()
            &&& said.len() <= 2
        }),
{
    let said = initial_warnings(info, overrides, is_ci);
    if said.len() > 0 {
        assert(said.contains(said[0]));
    }
    if said.len() > 1 {
        assert(said.contains(said[1]));
    }
}

/// A partially deleted directory that is listed is removed at once, and the listing then goes on
/// whether or not that succeeded.
pub proof fn law_leftovers_are_swept(
    state: SessionState,
    name: Vec<u8>,
    is_dir: Option<bool>,
    removed: bool,
)
    requires
        state.request() is NextEntry,
        is_dir == Some(true),
        name@ != vstd::utf8::encode_utf8(state.directory),
        starts_with_deletion_prefix(name@),
    ensures
        ({
            let sweeping = state.next(Event::Entry { name, is_dir });
            &&& sweeping.request() == RequestView::RemoveDir(name@)
            &&& sweeping.next(Event::Removed(removed)) == (SessionState {
                leftover: name@,
                ..state
            })
        }),
{
    crate::names::law_every_other_directory_counts(name@, is_dir, state.version());
}

/// A version that the environment forces is used as it is: nothing is asked for, nothing is said.
pub proof fn law_forced_version_is_used_as_is(
    info: GitVersionInfo,
    overrides: Overrides,
    is_ci: bool,
    events: Seq<Event>,
)
    requires
        overrides.version is Some,
    ensures
        ({
            let now = run(initial_state(info, overrides, is_ci), events);
            &&& now.request() is Finish
            &&& now.directory == overrides.version->0@
        }),
        initial_warnings(info, overrides, is_ci) == Seq::<crate::selection::Warning>::empty(),
    decreases events.len(),
{
    if events.len() > 0 {
        law_forced_version_is_used_as_is(info, overrides, is_ci, events.drop_last());
    }
}

/// Whether `events` hold the answer `event` to the request `request`.
pub open spec fn was_answered(
    start: SessionState,
    events: Seq<Event>,
    request: RequestView,
    event: Event,
) -> bool {
    exists|k: int|
        0 <= k < events.len() && #[trigger] events[k] == event && before(
            start,
            events,
            k,
        ).request() == request
}

proof fn lemma_answers_stay(
    start: SessionState,
    events: Seq<Event>,
    request: RequestView,
    event: Event,
)
    requires
        events.len() > 0,
        was_answered(start, events.drop_last(), request, event) || (run(
            start,
            events.drop_last(),
        ).request() == request && events.last() == event),
    ensures
        was_answered(start, events, request, event),
{
    lemma_past_stays(start, events);
    let rest = events.drop_last();
    if was_answered(start, rest, request, event) {
        let k = choose|k: int|
            0 <= k < rest.len() && #[trigger] rest[k] == event && before(start, rest, k).request()
                == request;
        assert(before(start, events, k) == before(start, rest, k));
        assert(events[k] == event);
    } else {
        assert(events[events.len() - 1] == event);
    }
}

/// Whether `events` hold that the temporary directory did not exist or was removed.
pub open spec fn temp_is_cleared(start: SessionState, events: Seq<Event>) -> bool {
    ||| was_answered(start, events, RequestView::CheckTemp, Event::TempChecked(false))
    ||| was_answered(start, events, RequestView::RemoveTemp, Event::Removed(true))
}

/// Whether `events` hold that the temporary directory was created, or that this was tried.
pub open spec fn temp_is_created(start: SessionState, events: Seq<Event>) -> bool {
    ||| was_answered(start, events, RequestView::CreateTemp, Event::TempCreated(true))
    ||| was_answered(start, events, RequestView::CreateTemp, Event::TempCreated(false))
}

/// Whether `events` hold that stamping the selected directory came to this.
pub open spec fn stamp_came_to(
    start: SessionState,
    events: Seq<Event>,
    outcome: Result<(), MarkUsedError>,
) -> bool {
    match outcome {
        Ok(_) => {
            ||| was_answered(
                start,
                events,
                RequestView::OpenStamp,
                Event::StampOpened(OpenOutcome::NotFound),
            )
            ||| was_answered(start, events, RequestView::TouchStamp, Event::StampTouched(true))
        },
        Err(MarkUsedError::Open) => was_answered(
            start,
            events,
            RequestView::OpenStamp,
            Event::StampOpened(OpenOutcome::Failed),
        ),
        Err(MarkUsedError::SetModified) => was_answered(
            start,
            events,
            RequestView::TouchStamp,
            Event::StampTouched(false),
        ),
    }
}

/// Whether an event can have led from `then` to the last stages of a session in this way.
spec fn is_step_to_the_end(then: SessionState, event: Event, now: SessionState) -> bool {
    match now.stage {
        Stage::CheckingTemp => then.stage == Stage::CheckingTemp && now.marked == then.marked,
        Stage::RemovingTemp => now.marked == then.marked && {
            ||| then.stage == Stage::RemovingTemp
            ||| then.stage == Stage::CheckingTemp && event == Event::TempChecked(true)
        },
        Stage::CreatingTemp => now.marked == then.marked && {
            ||| then.stage == Stage::CreatingTemp
            ||| then.stage == Stage::CheckingTemp && event == Event::TempChecked(false)
            ||| then.stage == Stage::RemovingTemp && event == Event::Removed(true)
        },
        Stage::Failed => now.marked == then.marked && {
            ||| then.stage == Stage::Failed
            ||| then.stage == Stage::RemovingTemp && event == Event::Removed(false)
        },
        Stage::TouchingStamp => {
            ||| then.stage == Stage::TouchingStamp
            ||| then.stage == Stage::OpeningStamp && event == Event::StampOpened(
                OpenOutcome::Opened,
            )
        },
        Stage::Done => {
            ||| then.stage == Stage::Done && now.marked == then.marked
            ||| then.stage == Stage::CreatingTemp && now.marked == then.marked && (event
                == Event::TempCreated(true) || event == Event::TempCreated(false))
            ||| then.stage == Stage::OpeningStamp && event == Event::StampOpened(
                OpenOutcome::NotFound,
            ) && now.marked == Some(Ok::<(), MarkUsedError>(()))
            ||| then.stage == Stage::OpeningStamp && event == Event::StampOpened(
                OpenOutcome::Failed,
            ) && now.marked == Some(Err::<(), MarkUsedError>(MarkUsedError::Open))
            ||| then.stage == Stage::TouchingStamp && event == Event::StampTouched(true)
                && now.marked == Some(Ok::<(), MarkUsedError>(()))
            ||| then.stage == Stage::TouchingStamp && event == Event::StampTouched(false)
                && now.marked == Some(Err::<(), MarkUsedError>(MarkUsedError::SetModified))
        },
        _ => {
            &&& then.stage != Stage::CheckingTemp
            &&& then.stage != Stage::RemovingTemp
            &&& then.stage != Stage::CreatingTemp
            &&& then.stage != Stage::Done
            &&& then.stage != Stage::Failed
        },
    }
}

#[verifier::spinoff_prover]
#[verifier::rlimit(40)]
proof fn lemma_step_to_the_end(then: SessionState, event: Event)
    ensures
        is_step_to_the_end(then, event, then.next(event)),
{
    let now = then.next(event);
    if !answers(then.request(), event) {
        law_unexpected_events_change_nothing(then, event);
        assert(is_step_to_the_end(then, event, then));
    } else if is_settled(then.stage) {
        law_stamp_is_touched_once_opened(then, event);
        law_temporary_directory_is_replaced(then, event);
        assert(is_step_to_the_end(then, event, now));
    } else {
        assert(then.stage != Stage::Done && now.stage != Stage::Done);
    }
}

/// What is known, in the state `now` that `events` led to, of how it came to its last stages.
spec fn end_is_answered(start: SessionState, events: Seq<Event>, now: SessionState) -> bool {
    let is_temp = start.stage == Stage::CheckingTemp;
    &&& is_temp ==> now.marked is None
    &&& match now.stage {
        Stage::CheckingTemp => is_temp,
        Stage::RemovingTemp => is_temp && was_answered(
            start,
            events,
            RequestView::CheckTemp,
            Event::TempChecked(true),
        ),
        Stage::CreatingTemp => is_temp && temp_is_cleared(start, events),
        Stage::Failed => is_temp && was_answered(
            start,
            events,
            RequestView::RemoveTemp,
            Event::Removed(false),
        ),
        Stage::TouchingStamp => !is_temp && was_answered(
            start,
            events,
            RequestView::OpenStamp,
            Event::StampOpened(OpenOutcome::Opened),
        ),
        Stage::Done => if is_temp {
            temp_is_cleared(start, events) && temp_is_created(start, events)
        } else {
            now.marked is Some && stamp_came_to(start, events, now.marked->0)
        },
        _ => !is_temp,
    }
}

proof fn lemma_end_stays_answered(
    start: SessionState,
    events: Seq<Event>,
    then: SessionState,
    now: SessionState,
)
    requires
        events.len() > 0,
        then == run(start, events.drop_last()),
        end_is_answered(start, events.drop_last(), then),
        is_step_to_the_end(then, events.last(), now),
    ensures
        end_is_answered(start, events, now),
{
    let rest = events.drop_last();
    let event = events.last();
    assert forall|request: RequestView, reply: Event|
        was_answered(start, rest, request, reply) implies #[trigger] was_answered(
        start,
        events,
        request,
        reply,
    ) by {
        lemma_answers_stay(start, events, request, reply);
    }
    lemma_answers_stay(start, events, then.request(), event);
}

proof fn lemma_end_is_answered(start: SessionState, events: Seq<Event>)
    requires
        start.stage == Stage::CheckingTemp || start.stage == Stage::OpeningListing,
        start.marked is None,
    ensures
        end_is_answered(start, events, run(start, events)),
    decreases events.len(),
{
    if events.len() > 0 {
        let rest = events.drop_last();
        lemma_end_is_answered(start, rest);
        lemma_step_to_the_end(run(start, rest), events.last());
        lemma_end_stays_answered(start, events, run(start, rest), run(start, events));
    }
}

/// A session whose removal of the temporary directory failed has failed.
proof fn lemma_failed_removal_fails(start: SessionState, events: Seq<Event>)
    requires
        was_answered(start, events, RequestView::RemoveTemp, Event::Removed(false)),
    ensures
        run(start, events).stage == Stage::Failed,
    decreases events.len(),
{
    lemma_past_stays(start, events);
    let rest = events.drop_last();
    let k = choose|k: int|
        0 <= k < events.len() && #[trigger] events[k] == Event::Removed(false) && before(
            start,
            events,
            k,
        ).request() == RequestView::RemoveTemp;
    if k < rest.len() {
        assert(rest[k] == events[k]);
        assert(before(start, rest, k).request() == RequestView::RemoveTemp);
        lemma_failed_removal_fails(start, rest);
    }
}

/// In a dirty repository a temporary directory is created, with nothing left of what it held before:
/// the session finishes only after the directory did not exist or was removed, and after it was
/// asked to be created. It fails exactly when the directory could not be removed. Nothing else is
/// asked for meanwhile, so no version is evicted and nothing is stamped.
pub proof fn law_temporary_directory_is_created_empty(
    info: GitVersionInfo,
    overrides: Overrides,
    is_ci: bool,
    events: Seq<Event>,
)
    requires
        overrides.version is None,
        !overrides.disable_versioning,
        info.dirty,
        !overrides.ignore_dirty,
    ensures
        ({
            let start = initial_state(info, overrides, is_ci);
            let now = run(start, events);
            let removal_failed = was_answered(
                start,
                events,
                RequestView::RemoveTemp,
                Event::Removed(false),
            );
            &&& match now.request() {
                RequestView::CheckTemp => true,
                RequestView::RemoveTemp => was_answered(
                    start,
                    events,
                    RequestView::CheckTemp,
                    Event::TempChecked(true),
                ),
                RequestView::CreateTemp => temp_is_cleared(start, events),
                RequestView::Finish => temp_is_cleared(start, events) && temp_is_created(
                    start,
                    events,
                ),
                RequestView::Fail => true,
                _ => false,
            }
            &&& now.request() is Fail <==> removal_failed
            &&& now.directory == TEMP_DIR@
            &&& now.marked is None
        }),
{
    let start = initial_state(info, overrides, is_ci);
    lemma_end_is_answered(start, events);
    law_sessions_stay_valid(info, overrides, is_ci, events);
    if was_answered(start, events, RequestView::RemoveTemp, Event::Removed(false)) {
        lemma_failed_removal_fails(start, events);
    }
}

/// A session for a version never fails, never removes the selected directory as a whole, and
/// finishes only after it was tried to stamp that directory as used, of which it tells the outcome.
/// The stamp is touched only once its file was opened, so none is ever created.
pub proof fn law_selected_version_is_stamped(
    info: GitVersionInfo,
    overrides: Overrides,
    is_ci: bool,
    events: Seq<Event>,
)
    requires
        overrides.version is None,
        overrides.disable_versioning || !info.dirty || overrides.ignore_dirty,
    ensures
        ({
            let start = initial_state(info, overrides, is_ci);
            let now = run(start, events);
            &&& !(now.request() is Fail)
            &&& !(now.request() is CheckTemp)
            &&& !(now.request() is RemoveTemp)
            &&& !(now.request() is CreateTemp)
            &&& now.request() is TouchStamp ==> was_answered(
                start,
                events,
                RequestView::OpenStamp,
                Event::StampOpened(OpenOutcome::Opened),
            )
            &&& now.request() is Finish ==> now.marked is Some && stamp_came_to(
                start,
                events,
                now.marked->0,
            )
        }),
{
    lemma_end_is_answered(initial_state(info, overrides, is_ci), events);
}

/// The directory is stamped after the cleanup: once that is over, nothing is renamed or removed any
/// more.
pub proof fn law_nothing_is_removed_after_the_stamp(state: SessionState, event: Event)
    requires
        is_cleaned_up(state.stage),
    ensures
        is_cleaned_up(state.next(event).stage),
        !(state.request() is Rename),
        !(state.request() is RemoveDir),
        !(state.request() is RemoveTemp),
        !(state.request() is CreateTemp),
{
}

/// Whether `event` is of the kind that answers `request`.
pub open spec fn answers(request: RequestView, event: Event) -> bool {
    match request {
        RequestView::OpenListing => event is ListingOpened,
        RequestView::NextEntry => event is Entry || event is EntryUnreadable
            || event is ListingEnded,
        RequestView::RemoveDir(_) => event is Removed,
        RequestView::ReadStamp(_) => event is StampRead,
        RequestView::ReadContents(_) => event is ContentsRead,
        RequestView::Rename { .. } => event is Renamed,
        RequestView::OpenStamp => event is StampOpened,
        RequestView::TouchStamp => event is StampTouched,
        RequestView::CheckTemp => event is TempChecked,
        RequestView::RemoveTemp => event is Removed,
        RequestView::CreateTemp => event is TempCreated,
        RequestView::Finish => false,
        RequestView::Fail => false,
    }
}

/// An event that does not answer what was asked for changes nothing.
pub proof fn law_unexpected_events_change_nothing(state: SessionState, event: Event)
    requires
        !answers(state.request(), event),
    ensures
        state.next(event) == state,
{
}

/// A bound on the number of answers that a session still needs once the listing has ended.
pub open spec fn steps_left(state: SessionState) -> int {
    let total = state.others.len() as int;
    match state.stage {
        Stage::Dating(Source::Stamp) => 2 * (total - state.ages.len()) + 4 * total + 2,
        Stage::Dating(Source::Contents) => 2 * (total - state.ages.len()) + 4 * total + 1,
        Stage::Rechecking(Source::Stamp) => 4 * (total - state.retained) + 2,
        Stage::Rechecking(Source::Contents) => 4 * (total - state.retained) + 1,
        Stage::Renaming => 2 * (total - state.evicted) + 2,
        Stage::Removing => 2 * (total - state.evicted) + 1,
        Stage::OpeningStamp => 2,
        Stage::TouchingStamp => 1,
        Stage::CheckingTemp => 3,
        Stage::RemovingTemp => 2,
        Stage::CreatingTemp => 1,
        _ => 0,
    }
}

/// Every session ends: outside the listing, which ends when the directory has no more entries, each
/// answer brings a session nearer to its end, and it never goes back to the listing.
pub proof fn law_every_answer_makes_progress(state: SessionState, event: Event)
    requires
        state.valid(),
        answers(state.request(), event),
        state.stage != Stage::OpeningListing,
        state.stage != Stage::Listing,
        state.stage != Stage::Sweeping,
    ensures
        0 <= steps_left(state.next(event)) < steps_left(state),
        state.next(event).stage != Stage::OpeningListing,
        state.next(event).stage != Stage::Listing,
        state.next(event).stage != Stage::Sweeping,
{
    crate::session::lemma_next_is_valid(state, event);
    crate::recency::law_recency_order_is_unique(state.ages);
    crate::recency::law_recency_order_is_unique(state.next(event).ages);
}

} // verus!
