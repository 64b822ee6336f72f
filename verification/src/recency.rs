//! The order in which databases with other versions are considered for retention.
use crate::age::{last_used_age, newest};
use vstd::prelude::*;

verus! {

/// The longest time span, in nanoseconds: `u64::MAX` seconds and 999,999,999 nanoseconds.
pub const MAX_AGE: u128 = 18_446_744_073_709_551_615_999_999_999;

/// The age by which an entry is ordered. One that can't be determined counts as the longest.
pub open spec fn order_key(age: Option<u128>) -> u128 {
    match age {
        Some(elapsed) => elapsed,
        None => MAX_AGE,
    }
}

/// The age by which an entry is ordered.
pub fn order_key_of(age: Option<u128>) -> (key: u128)
    ensures
        key == order_key(age),
{
    match age {
        Some(elapsed) => elapsed,
        None => MAX_AGE,
    }
}

/// Whether the entry at position `a` comes before the one at position `b`: it was used more
/// recently, or both are equally old and it was listed first.
pub open spec fn comes_before(ages: Seq<Option<u128>>, a: int, b: int) -> bool {
    ||| order_key(ages[a]) < order_key(ages[b])
    ||| order_key(ages[a]) == order_key(ages[b]) && a < b
}

/// Whether `order` lists the positions of `ages`, most recently used first.
pub open spec fn is_recency_order(ages: Seq<Option<u128>>, order: Seq<int>) -> bool {
    &&& order.len() == ages.len()
    &&& forall|i: int| 0 <= i < order.len() ==> 0 <= #[trigger] order[i] < ages.len()
    &&& forall|i: int, j: int|
        0 <= i < j < order.len() ==> comes_before(ages, #[trigger] order[i], #[trigger] order[j])
}

/// `comes_before`, made reflexive.
pub open spec fn not_after(ages: Seq<Option<u128>>) -> spec_fn(int, int) -> bool {
    |a: int, b: int| a == b || comes_before(ages, a, b)
}

/// The positions of `ages` in listing order.
pub open spec fn positions(ages: Seq<Option<u128>>) -> Seq<int> {
    Seq::new(ages.len(), |i: int| i)
}

/// The positions of `ages`, most recently used first.
pub open spec fn recency_order(ages: Seq<Option<u128>>) -> Seq<int> {
    positions(ages).sort_by(not_after(ages))
}

proof fn lemma_not_after_is_total(ages: Seq<Option<u128>>)
    ensures
        vstd::relations::total_ordering(not_after(ages)),
{
}

/// A sequence without repetitions of as many positions as there are entries holds every position.
proof fn lemma_all_positions_occur(ages: Seq<Option<u128>>, order: Seq<int>)
    requires
        is_recency_order(ages, order),
    ensures
        order.no_duplicates(),
        forall|p: int| 0 <= p < ages.len() ==> #[trigger] order.contains(p),
        order.to_multiset() == positions(ages).to_multiset(),
{
    let n = ages.len() as int;
    assert forall|i: int, j: int|
        0 <= i < order.len() && 0 <= j < order.len() && i != j implies order[i] != order[j] by {
        if i < j {
            assert(comes_before(ages, order[i], order[j]));
        } else {
            assert(comes_before(ages, order[j], order[i]));
        }
    }
    order.unique_seq_to_set();
    let all = vstd::set_lib::set_int_range(0, n);
    vstd::set_lib::lemma_int_range(0, n);
    assert forall|p: int| order.to_set().contains(p) implies all.contains(p) by {
        let i = choose|i: int| 0 <= i < order.len() && order[i] == p;
        assert(0 <= order[i] < n);
    }
    vstd::set_lib::lemma_subset_equality(order.to_set(), all);
    assert forall|p: int| 0 <= p < n implies #[trigger] order.contains(p) by {
        assert(all.contains(p));
        assert(order.to_set().contains(p));
    }
    let listed = positions(ages);
    assert(listed.no_duplicates());
    order.lemma_multiset_has_no_duplicates();
    listed.lemma_multiset_has_no_duplicates();
    assert(order.to_multiset() =~= listed.to_multiset()) by {
        broadcast use vstd::seq_lib::group_to_multiset_ensures;

        assert forall|p: int| order.to_multiset().count(p) == listed.to_multiset().count(p) by {
            if listed.contains(p) {
                assert(order.contains(p));
                assert(order.to_multiset().contains(p));
                assert(listed.to_multiset().contains(p));
            } else {
                if order.contains(p) {
                    let i = choose|i: int| 0 <= i < order.len() && order[i] == p;
                    assert(0 <= order[i] < n);
                    assert(listed[p] == p);
                }
            }
        }
    }
}

/// There is exactly one order by recency, and it holds every position once: the entries that come
/// first are the most recently used ones, and equally old entries keep the order they were listed
/// in.
pub proof fn law_recency_order_is_unique(ages: Seq<Option<u128>>)
    ensures
        is_recency_order(ages, recency_order(ages)),
        recency_order(ages).no_duplicates(),
        forall|p: int| 0 <= p < ages.len() ==> #[trigger] recency_order(ages).contains(p),
        forall|order: Seq<int>| #[trigger]
            is_recency_order(ages, order) ==> order == recency_order(ages),
{
    let leq = not_after(ages);
    let listed = positions(ages);
    let sorted = recency_order(ages);
    lemma_not_after_is_total(ages);
    listed.lemma_sort_by_ensures(leq);
    listed.lemma_multiset_has_no_duplicates();
    assert(sorted.no_duplicates()) by {
        assert(sorted.to_multiset() == listed.to_multiset());
        sorted.lemma_multiset_has_no_duplicates_conv();
    }
    assert(sorted.len() == ages.len()) by {
        vstd::seq_lib::to_multiset_len(listed);
        vstd::seq_lib::to_multiset_len(sorted);
    }
    assert forall|i: int| 0 <= i < sorted.len() implies 0 <= #[trigger] sorted[i] < ages.len() by {
        assert(sorted.contains(sorted[i]));
        assert(listed.contains(sorted[i]));
    }
    assert forall|i: int, j: int| 0 <= i < j < sorted.len() implies comes_before(
        ages,
        #[trigger] sorted[i],
        #[trigger] sorted[j],
    ) by {
        assert(leq(sorted[i], sorted[j]));
        assert(sorted[i] != sorted[j]);
    }
    lemma_all_positions_occur(ages, sorted);
    assert forall|order: Seq<int>| #[trigger] is_recency_order(ages, order) implies order
        == sorted by {
        lemma_all_positions_occur(ages, order);
        assert(vstd::relations::sorted_by(order, leq));
        vstd::seq_lib::lemma_sorted_unique(order, sorted, leq);
    }
}

/// An entry whose age can't be determined comes after every entry whose age is known and shorter
/// than the longest time span, and so is evicted before it.
pub proof fn law_unknown_ages_come_last(ages: Seq<Option<u128>>, i: int, j: int)
    requires
        0 <= i < ages.len(),
        0 <= j < ages.len(),
        ages[recency_order(ages)[i]] is None,
        ages[recency_order(ages)[j]] matches Some(elapsed) && elapsed < MAX_AGE,
    ensures
        j < i,
{
    law_recency_order_is_unique(ages);
    let order = recency_order(ages);
    if i < j {
        assert(comes_before(ages, order[i], order[j]));
    }
}

/// The order goes by the ages themselves. Of two entries with known ages, the one that was used more
/// recently comes first. Of two that are equally old, or of which neither age is known, the one that
/// was listed first does. An unknown age counts as `u64::MAX` seconds and 999,999,999 nanoseconds.
pub proof fn law_younger_entries_come_first(ages: Seq<Option<u128>>, i: int, j: int)
    requires
        0 <= i < j < ages.len(),
    ensures
        ({
            let first = recency_order(ages)[i];
            let second = recency_order(ages)[j];
            let longest = u64::MAX * 1_000_000_000 + 999_999_999;
            match (ages[first], ages[second]) {
                (Some(a), Some(b)) => a < b || a == b && first < second,
                (Some(a), None) => a < longest || a == longest && first < second,
                (None, Some(b)) => longest < b || longest == b && first < second,
                (None, None) => first < second,
            }
        }),
{
    law_recency_order_is_unique(ages);
    assert(comes_before(ages, recency_order(ages)[i], recency_order(ages)[j]));
}

/// Every entry has exactly one place in the order.
pub proof fn law_every_entry_is_ranked_once(ages: Seq<Option<u128>>, p: int)
    requires
        0 <= p < ages.len(),
    ensures
        recency_order(ages).len() == ages.len(),
        exists|i: int| 0 <= i < ages.len() && recency_order(ages)[i] == p,
        forall|i: int, j: int|
            0 <= i < ages.len() && 0 <= j < ages.len() && recency_order(ages)[i] == p
                && recency_order(ages)[j] == p ==> i == j,
{
    law_recency_order_is_unique(ages);
    assert(recency_order(ages).contains(p));
}

/// Positions as the contracts see them.
pub open spec fn position_view(order: Seq<usize>) -> Seq<int> {
    Seq::new(order.len(), |i: int| order[i] as int)
}

/// Orders entries by their ages, most recently used first, so the ones that are kept are a prefix
/// of the result. Entries whose age can't be determined sort last and are therefore evicted first.
/// Equally old entries stay in the order they are in.
pub fn by_recency(ages: &Vec<Option<u128>>) -> (order: Vec<usize>)
    ensures
        is_recency_order(ages@, position_view(order@)),
        position_view(order@) == recency_order(ages@),
        order@.len() == ages@.len(),
        forall|i: int| 0 <= i < order@.len() ==> #[trigger] order@[i] == recency_order(ages@)[i],
{
    let mut order: Vec<usize> = Vec::new();
    let mut i: usize = 0;
    while i < ages.len()
        invariant
            i <= ages.len(),
            order.len() == i,
            forall|k: int| 0 <= k < i ==> #[trigger] order@[k] < i,
            forall|k: int, m: int|
                0 <= k < m < i ==> comes_before(
                    ages@,
                    #[trigger] order@[k] as int,
                    #[trigger] order@[m] as int,
                ),
        decreases ages.len() - i,
    {
        let key: u128 = order_key_of(ages[i]);
        let mut at: usize = i;
        while at > 0 && order_key_of(ages[order[at - 1]]) > key
            invariant
                at <= i < ages.len(),
                order.len() == i,
                key == order_key(ages@[i as int]),
                forall|k: int| 0 <= k < i ==> #[trigger] order@[k] < i,
                forall|k: int| at <= k < i ==> order_key(ages@[#[trigger] order@[k] as int]) > key,
            decreases at,
        {
            at = at - 1;
        }
        let ghost before = order@;
        order.insert(at, i);
        assert forall|k: int, m: int| 0 <= k < m < i + 1 implies comes_before(
            ages@,
            #[trigger] order@[k] as int,
            #[trigger] order@[m] as int,
        ) by {
            let from = |x: int| if x < at { x } else { x - 1 };
            if k != at {
                assert(order@[k] == before[from(k)]);
            }
            if m != at {
                assert(order@[m] == before[from(m)]);
            }
            if k != at && m != at {
                assert(comes_before(ages@, before[from(k)] as int, before[from(m)] as int));
            } else if m == at && k < at - 1 {
                assert(comes_before(ages@, before[k] as int, before[at - 1] as int));
            }
        }
        assert forall|k: int| 0 <= k < i + 1 implies #[trigger] order@[k] < i + 1 by {
            if k < at {
                assert(order@[k] == before[k]);
            } else if k > at {
                assert(order@[k] == before[k - 1]);
            }
        }
        i = i + 1;
    }
    proof {
        law_recency_order_is_unique(ages@);
    }
    order
}

/// Whether an entry of this age was used within the time `ttl`. One of unknown age was not.
pub open spec fn is_fresh(age: Option<u128>, ttl: u128) -> bool {
    age matches Some(elapsed) && elapsed <= ttl
}

/// Whether an entry of this age was used within the time `ttl`.
pub fn used_within(age: Option<u128>, ttl: u128) -> (fresh: bool)
    ensures
        fresh == is_fresh(age, ttl),
        age matches Some(elapsed) ==> fresh == (elapsed <= ttl),
        age is None ==> !fresh,
{
    match age {
        Some(elapsed) => elapsed <= ttl,
        None => false,
    }
}

/// An entry of known age was used within a time exactly when its age is no longer than that, so one
/// whose age is the limit itself still was. One of unknown age was used within no time at all.
pub proof fn law_limit_is_inclusive(elapsed: u128, ttl: u128)
    ensures
        is_fresh(Some(elapsed), ttl) <==> elapsed <= ttl,
        is_fresh(Some(ttl), ttl),
        !is_fresh(None, ttl),
{
}

/// A database whose timestamp lies in the future counts as just used: none ranks before it for being
/// younger, and it is within every time limit, so it is never evicted for looking too new.
pub proof fn law_future_timestamps_count_as_just_used(
    stamp: Option<i128>,
    contents: Option<Seq<Option<i128>>>,
    now: i128,
    ttl: u128,
)
    requires
        match stamp {
            Some(modified) => modified >= now,
            None => contents matches Some(files) && newest(files) matches Some(modified) && modified
                >= now,
        },
    ensures
        order_key(last_used_age(stamp, contents, now)) == 0,
        is_fresh(last_used_age(stamp, contents, now), ttl),
{
}

/// Whatever precedes an entry that was used within the time `ttl` was used within it as well.
pub proof fn law_fresh_entries_come_first(ages: Seq<Option<u128>>, ttl: u128, i: int, j: int)
    requires
        0 <= i <= j < ages.len(),
        ttl < MAX_AGE,
        is_fresh(ages[recency_order(ages)[j]], ttl),
    ensures
        is_fresh(ages[recency_order(ages)[i]], ttl),
{
    law_recency_order_is_unique(ages);
    let order = recency_order(ages);
    if i < j {
        assert(comes_before(ages, order[i], order[j]));
    }
}

} // verus!
