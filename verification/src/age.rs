//! How long ago a version directory was last used.
//!
//! Timestamps are nanoseconds since the Unix epoch, negative before it. Ages are nanoseconds.
use vstd::prelude::*;

verus! {

/// The file whose mtime records when a version directory was last used.
///
/// This is the persistence layer's own `CURRENT` file, reused as the last-used stamp. It's written
/// on every commit anyway, and we additionally touch it whenever the version is selected, so that
/// read-only sessions (and sessions that never persist anything) still count as "used".
///
/// Deliberately not the directory's own atime/mtime: atime is fragile (recursive scanning tools
/// like ripgrep bump it, and `noatime` mounts pin it to mtime), and the directory's mtime only
/// changes when entries are added or removed, not when the cache is read.
pub const LAST_USED_FILE: &'static str = "CURRENT";

/// The time from `modified` to `now`, or zero where `modified` lies in the future.
pub open spec fn age(now: i128, modified: i128) -> u128 {
    if now >= modified {
        (now - modified) as u128
    } else {
        0
    }
}

/// How long before `now` the time `modified` was.
///
/// A clock that jumped backwards can leave a timestamp in the future; that reads as age zero rather
/// than as an error, so a version is never evicted for looking too new.
pub fn age_of(now: i128, modified: i128) -> (elapsed: u128)
    ensures
        elapsed == age(now, modified),
        now >= modified ==> elapsed == now - modified,
        now <= modified ==> elapsed == 0,
{
    if now <= modified {
        0
    } else if modified >= 0 || now < 0 {
        (now - modified) as u128
    } else {
        // The two lie on different sides of the epoch, so their distance may exceed an `i128`.
        now as u128 + (-(modified + 1)) as u128 + 1
    }
}

/// The latest of the timestamps that could be read, or `None` where none could.
pub open spec fn newest(modified: Seq<Option<i128>>) -> Option<i128>
    decreases modified.len(),
{
    if modified.len() == 0 {
        None
    } else {
        match (newest(modified.drop_last()), modified.last()) {
            (Some(best), Some(last)) => Some(if last >= best { last } else { best }),
            (Some(best), None) => Some(best),
            (None, last) => last,
        }
    }
}

/// The newest timestamp is one of those that could be read, none of them is later, and there is one
/// as soon as any timestamp could be read.
pub proof fn law_newest_is_the_latest(modified: Seq<Option<i128>>)
    ensures
        newest(modified) is Some ==> modified.contains(newest(modified)),
        forall|i: int|
            0 <= i < modified.len() && #[trigger] modified[i] is Some ==> newest(modified) is Some
                && modified[i]->0 <= newest(modified)->0,
    decreases modified.len(),
{
    if modified.len() > 0 {
        let rest = modified.drop_last();
        law_newest_is_the_latest(rest);
        if newest(rest) is Some {
            let i = choose|i: int| 0 <= i < rest.len() && rest[i] == newest(rest);
            assert(modified[i] == newest(rest));
        }
        assert(modified[modified.len() - 1] == modified.last());
        assert forall|i: int| 0 <= i < modified.len() && #[trigger] modified[i] is Some implies newest(
            modified,
        ) is Some && modified[i]->0 <= newest(modified)->0 by {
            if i < modified.len() - 1 {
                assert(rest[i] == modified[i]);
            }
        }
    }
}

/// Finds the latest timestamp among those that could be read.
pub fn newest_of(modified: &Vec<Option<i128>>) -> (latest: Option<i128>)
    ensures
        latest == newest(modified@),
{
    let mut latest: Option<i128> = None;
    let mut i: usize = 0;
    while i < modified.len()
        invariant
            i <= modified.len(),
            latest == newest(modified@.take(i as int)),
        decreases modified.len() - i,
    {
        proof {
            assert(modified@.take(i + 1).drop_last() =~= modified@.take(i as int));
        }
        if let Some(last) = modified[i] {
            latest = match latest {
                Some(best) => Some(if last >= best { last } else { best }),
                None => Some(last),
            };
        }
        i = i + 1;
    }
    assert(modified@.take(i as int) =~= modified@);
    latest
}

/// How long ago a directory was last used, given the mtime of its [`LAST_USED_FILE`] and the mtimes
/// of the files directly inside it, each `None` where it could not be read.
pub open spec fn last_used_age(
    stamp: Option<i128>,
    contents: Option<Seq<Option<i128>>>,
    now: i128,
) -> Option<u128> {
    match stamp {
        Some(modified) => Some(age(now, modified)),
        None => match contents {
            Some(files) => match newest(files) {
                Some(modified) => Some(age(now, modified)),
                None => None,
            },
            None => None,
        },
    }
}

/// Whether `elapsed` is the number of nanoseconds from `from` to `now`, or zero where `from` is the
/// later one.
pub open spec fn is_time_between(elapsed: Option<u128>, from: i128, now: i128) -> bool {
    &&& elapsed is Some
    &&& now >= from ==> from + elapsed->0 == now
    &&& now < from ==> elapsed->0 == 0
}

/// Whether the timestamp at `i` could be read, and none that could be read is later.
pub open spec fn is_latest(modified: Seq<Option<i128>>, i: int) -> bool {
    &&& 0 <= i < modified.len()
    &&& modified[i] is Some
    &&& forall|j: int|
        0 <= j < modified.len() && #[trigger] modified[j] is Some ==> modified[j]->0
            <= modified[i]->0
}

/// Where the stamp can be read, the age is the time since then, whatever the directory holds: what
/// can be read of its contents makes no difference.
pub proof fn law_stamp_outranks_the_contents(
    stamp: Option<i128>,
    contents: Option<Seq<Option<i128>>>,
    now: i128,
)
    ensures
        stamp matches Some(modified) ==> is_time_between(
            last_used_age(stamp, contents, now),
            modified,
            now,
        ),
        stamp is Some ==> last_used_age(stamp, contents, now) == last_used_age(stamp, None, now),
{
}

/// Where the stamp can't be read, the age is the time since the newest file was modified, wherever
/// in the listing that file stands and whether or not the others can be read.
pub proof fn law_newest_file_stands_in_for_the_stamp(
    files: Seq<Option<i128>>,
    i: int,
    now: i128,
)
    requires
        is_latest(files, i),
    ensures
        is_time_between(last_used_age(None, Some(files), now), files[i]->0, now),
{
    law_newest_is_the_latest(files);
    let j = choose|j: int| 0 <= j < files.len() && files[j] == newest(files);
    assert(files[j] is Some);
}

/// The more time has passed, the longer ago a directory was used, and the later it was modified the
/// less long ago.
pub proof fn law_age_grows_with_the_time(
    stamp: Option<i128>,
    later_stamp: Option<i128>,
    contents: Option<Seq<Option<i128>>>,
    now: i128,
    later: i128,
)
    requires
        now <= later,
        stamp is Some && later_stamp is Some ==> stamp->0 <= later_stamp->0,
    ensures
        ({
            let age_now = last_used_age(stamp, contents, now);
            let age_later = last_used_age(stamp, contents, later);
            &&& age_now is Some <==> age_later is Some
            &&& age_now is Some ==> age_now->0 <= age_later->0 <= age_now->0 + (later - now)
            &&& stamp is Some && later_stamp is Some ==> last_used_age(
                later_stamp,
                contents,
                now,
            )->0 <= age_now->0
        }),
{
}

/// The timestamps of a directory's contents as the contracts see them.
pub open spec fn contents_view(contents: Option<Vec<Option<i128>>>) -> Option<Seq<Option<i128>>> {
    match contents {
        Some(files) => Some(files@),
        None => None,
    }
}

/// How long ago a version directory was last used.
///
/// Read from the mtime of [`LAST_USED_FILE`], falling back to the newest mtime of any file directly
/// inside the directory. The fallback covers directories written by a version of the persistence
/// layer that named its files differently, or where `CURRENT` can't be read: such a directory may
/// hold a perfectly usable cache, and treating "I can't tell how old this is" as "delete it now"
/// would throw away the cache on the very upgrade round trip this retention exists to support.
///
/// Returns `None` only when the directory has no readable timestamp at all, which means it doesn't
/// look like a database; callers treat that as maximally stale.
pub fn time_since_last_used(
    stamp: Option<i128>,
    contents: &Option<Vec<Option<i128>>>,
    now: i128,
) -> (elapsed: Option<u128>)
    ensures
        elapsed == last_used_age(stamp, contents_view(*contents), now),
        stamp matches Some(modified) ==> is_time_between(elapsed, modified, now),
        stamp is None && contents is Some ==> forall|i: int| #[trigger]
            is_latest(contents->0@, i) ==> is_time_between(elapsed, contents->0@[i]->0, now),
        elapsed is None <==> stamp is None && (contents is None || forall|i: int|
            0 <= i < contents->0@.len() ==> #[trigger] contents->0@[i] is None),
{
    proof {
        let view = contents_view(*contents);
        law_stamp_outranks_the_contents(stamp, view, now);
        law_age_is_unknown_only_without_timestamps(stamp, view, now);
        if let Some(files) = view {
            assert forall|i: int| stamp is None && #[trigger] is_latest(files, i) implies is_time_between(
                last_used_age(stamp, view, now),
                files[i]->0,
                now,
            ) by {
                law_newest_file_stands_in_for_the_stamp(files, i, now);
            }
        }
    }
    match stamp {
        Some(modified) => Some(age_of(now, modified)),
        None => match contents {
            Some(files) => match newest_of(files) {
                Some(modified) => Some(age_of(now, modified)),
                None => None,
            },
            None => None,
        },
    }
}

/// An age is unknown exactly when neither the stamp nor any file inside has a readable timestamp.
pub proof fn law_age_is_unknown_only_without_timestamps(
    stamp: Option<i128>,
    contents: Option<Seq<Option<i128>>>,
    now: i128,
)
    ensures
        last_used_age(stamp, contents, now) is None <==> stamp is None && (contents matches Some(files)
            ==> forall|i: int| 0 <= i < files.len() ==> #[trigger] files[i] is None),
{
    if let Some(files) = contents {
        law_newest_is_the_latest(files);
        if newest(files) is Some {
            let i = choose|i: int| 0 <= i < files.len() && files[i] == newest(files);
            assert(files[i] is Some);
        }
    }
}

} // verus!
