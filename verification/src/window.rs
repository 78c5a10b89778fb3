//! The sliding-window counter: for each day of a range, the number of
//! distinct authors active within the trailing window that ends on that day.

use crate::activity::{Activity, ActivityBucket};
use crate::assoc::lemma_next_member;
use crate::author_set::AuthorSet;
use crate::types::{EpochDay, MetricDataPoint};
use std::collections::VecDeque;
use vstd::hash_map::StringHashMap;
use vstd::prelude::*;

verus! {

/// The authors that `activity` holds for any of the `window` days that end
/// with `day`.
pub open spec fn window_authors(activity: Activity, day: int, window: int) -> Set<Seq<char>> {
    Set::new(
        |a: Seq<char>|
            exists|d: EpochDay|
                day - window < d <= day && #[trigger] activity.contains_key(d)
                    && activity[d].contains(a),
    )
}

/// The number of days from `start` to `end`, both included.
pub open spec fn days_in_range(start: EpochDay, end: EpochDay) -> nat {
    if start <= end {
        (end - start + 1) as nat
    } else {
        0
    }
}

/// `series` is the windowed series of `activity` over the days from `start`
/// to `end`: one point per day, in ascending order, each with the number of
/// distinct authors of the window that ends on its day.
pub open spec fn is_window_series(
    series: Seq<MetricDataPoint>,
    activity: Activity,
    start: EpochDay,
    end: EpochDay,
    window: int,
) -> bool {
    &&& series.len() == days_in_range(start, end)
    &&& forall|i: int|
        0 <= i < series.len() ==> (#[trigger] series[i]).epoch_day == start + i && series[i].count
            == window_authors(activity, start + i, window).len()
}

/// The windowed series is determined by the activity index, the range and the
/// window: two series for the same inputs are equal.
pub proof fn lemma_window_series_unique(
    first: Seq<MetricDataPoint>,
    second: Seq<MetricDataPoint>,
    activity: Activity,
    start: EpochDay,
    end: EpochDay,
    window: int,
)
    requires
        is_window_series(first, activity, start, end, window),
        is_window_series(second, activity, start, end, window),
    ensures
        first == second,
{
    assert(first =~= second);
}

/// How many sets of `sets` hold `a`.
spec fn hits(sets: Seq<Set<Seq<char>>>, a: Seq<char>) -> nat
    decreases sets.len(),
{
    if sets.len() == 0 {
        0
    } else {
        hits(sets.drop_last(), a) + if sets.last().contains(a) {
            1nat
        } else {
            0nat
        }
    }
}

/// The reference counts of `sets`: each author of some set, with the number
/// of sets that hold the author.
spec fn tally(sets: Seq<Set<Seq<char>>>) -> Map<Seq<char>, u64> {
    Map::new(|a: Seq<char>| hits(sets, a) > 0, |a: Seq<char>| hits(sets, a) as u64)
}

/// The count that `counts` holds for `a`; zero where it has none.
spec fn count_of(counts: Map<Seq<char>, u64>, a: Seq<char>) -> nat {
    if counts.contains_key(a) {
        counts[a] as nat
    } else {
        0
    }
}

/// `counts` with one reference more for each author of `authors`.
spec fn raised(counts: Map<Seq<char>, u64>, authors: Set<Seq<char>>) -> Map<Seq<char>, u64> {
    Map::new(
        |a: Seq<char>| counts.contains_key(a) || authors.contains(a),
        |a: Seq<char>|
            if authors.contains(a) {
                (count_of(counts, a) + 1) as u64
            } else {
                counts[a]
            },
    )
}

/// `counts` with one reference less for each author of `authors`; an author
/// whose count reaches zero leaves the map.
spec fn lowered(counts: Map<Seq<char>, u64>, authors: Set<Seq<char>>) -> Map<Seq<char>, u64> {
    Map::new(
        |a: Seq<char>| counts.contains_key(a) && !(authors.contains(a) && counts[a] <= 1),
        |a: Seq<char>|
            if authors.contains(a) {
                (counts[a] - 1) as u64
            } else {
                counts[a]
            },
    )
}

proof fn lemma_hits_bound(sets: Seq<Set<Seq<char>>>, a: Seq<char>)
    ensures
        hits(sets, a) <= sets.len(),
    decreases sets.len(),
{
    if sets.len() > 0 {
        lemma_hits_bound(sets.drop_last(), a);
    }
}

proof fn lemma_hits_positive(sets: Seq<Set<Seq<char>>>, a: Seq<char>)
    ensures
        hits(sets, a) > 0 <==> exists|j: int|
            0 <= j < sets.len() && (#[trigger] sets[j]).contains(a),
    decreases sets.len(),
{
    if sets.len() > 0 {
        let init = sets.drop_last();
        lemma_hits_positive(init, a);
        if hits(init, a) > 0 {
            let j = choose|j: int| 0 <= j < init.len() && (#[trigger] init[j]).contains(a);
            assert(sets[j].contains(a));
        }
        if sets.last().contains(a) {
            assert(sets[sets.len() - 1].contains(a));
        }
        if exists|j: int| 0 <= j < sets.len() && (#[trigger] sets[j]).contains(a) {
            let j = choose|j: int| 0 <= j < sets.len() && (#[trigger] sets[j]).contains(a);
            if j < init.len() {
                assert(init[j].contains(a));
            }
        }
    }
}

proof fn lemma_hits_front(sets: Seq<Set<Seq<char>>>, a: Seq<char>)
    requires
        sets.len() > 0,
    ensures
        hits(sets, a) == hits(sets.drop_first(), a) + if sets[0].contains(a) {
            1nat
        } else {
            0nat
        },
    decreases sets.len(),
{
    if sets.len() == 1 {
        assert(sets.drop_last() =~= Seq::<Set<Seq<char>>>::empty());
        assert(sets.drop_first() =~= Seq::<Set<Seq<char>>>::empty());
    } else {
        lemma_hits_front(sets.drop_last(), a);
        assert(sets.drop_last().drop_first() =~= sets.drop_first().drop_last());
    }
}

proof fn lemma_tally_push(sets: Seq<Set<Seq<char>>>, authors: Set<Seq<char>>)
    requires
        sets.len() < u64::MAX,
    ensures
        tally(sets.push(authors)) == raised(tally(sets), authors),
{
    let grown = sets.push(authors);
    assert(grown.drop_last() =~= sets);
    assert forall|a: Seq<char>| #[trigger]
        tally(grown).contains_key(a) <==> raised(tally(sets), authors).contains_key(a) by {}
    assert forall|a: Seq<char>| tally(grown).contains_key(a) implies #[trigger] tally(grown)[a]
        == raised(tally(sets), authors)[a] by {
        lemma_hits_bound(sets, a);
    }
    assert(tally(grown) =~= raised(tally(sets), authors));
}

proof fn lemma_tally_drop_first(sets: Seq<Set<Seq<char>>>)
    requires
        0 < sets.len() <= u64::MAX,
    ensures
        tally(sets.drop_first()) == lowered(tally(sets), sets[0]),
{
    let rest = sets.drop_first();
    assert forall|a: Seq<char>| #[trigger]
        tally(rest).contains_key(a) <==> lowered(tally(sets), sets[0]).contains_key(a) by {
        lemma_hits_front(sets, a);
        lemma_hits_bound(sets, a);
    }
    assert forall|a: Seq<char>| tally(rest).contains_key(a) implies #[trigger] tally(rest)[a]
        == lowered(tally(sets), sets[0])[a] by {
        lemma_hits_front(sets, a);
        lemma_hits_bound(sets, a);
    }
    assert(tally(rest) =~= lowered(tally(sets), sets[0]));
}

/// Adds one reference for each author of `authors`.
fn add_references(active: &mut StringHashMap<u64>, authors: &AuthorSet)
    requires
        forall|a: Seq<char>| old(active)@.contains_key(a) ==> old(active)@[a] < u64::MAX,
    ensures
        final(active)@ == raised(old(active)@, authors@),
{
    let n = authors.len();
    let ghost before = active@;
    let ghost members = authors.members();
    assert(active@ =~= raised(before, members.take(0).to_set()));
    let mut j: usize = 0;
    while j < n
        invariant
            j <= n,
            n == members.len(),
            members == authors.members(),
            members.no_duplicates(),
            authors@ == members.to_set(),
            forall|a: Seq<char>| before.contains_key(a) ==> before[a] < u64::MAX,
            active@ == raised(before, members.take(j as int).to_set()),
        decreases n - j,
    {
        let author = authors.member_at(j);
        let ghost next = members.take(j + 1).to_set();
        proof {
            lemma_next_member(members, j as int);
        }
        let count: u64 = match active.get(author.as_str()) {
            Some(held) => *held,
            None => 0,
        };
        active.insert(author.clone(), count + 1);
        assert(active@ =~= raised(before, next));
        j += 1;
    }
    assert(members.take(n as int) =~= members);
}

/// Takes one reference from each author of `authors`; an author whose count
/// reaches zero leaves the map.
fn remove_references(active: &mut StringHashMap<u64>, authors: &AuthorSet)
    requires
        forall|a: Seq<char>|
            authors@.contains(a) ==> old(active)@.contains_key(a) && old(active)@[a] >= 1,
    ensures
        final(active)@ == lowered(old(active)@, authors@),
{
    let n = authors.len();
    let ghost before = active@;
    let ghost members = authors.members();
    assert(active@ =~= lowered(before, members.take(0).to_set()));
    let mut j: usize = 0;
    while j < n
        invariant
            j <= n,
            n == members.len(),
            members == authors.members(),
            members.no_duplicates(),
            authors@ == members.to_set(),
            forall|a: Seq<char>| authors@.contains(a) ==> before.contains_key(a) && before[a] >= 1,
            active@ == lowered(before, members.take(j as int).to_set()),
        decreases n - j,
    {
        let author = authors.member_at(j);
        let ghost next = members.take(j + 1).to_set();
        proof {
            lemma_next_member(members, j as int);
            assert(members[j as int] == author@);
            assert(members.contains(author@));
        }
        let count: u64 = match active.get(author.as_str()) {
            Some(held) => *held,
            None => 1,
        };
        if count <= 1 {
            active.remove(author.as_str());
        } else {
            active.insert(author.clone(), count - 1);
        }
        assert(active@ =~= lowered(before, next));
        j += 1;
    }
    assert(members.take(n as int) =~= members);
}

/// The author sets of the days in the queue, oldest first.
spec fn sets_of(queue: Seq<(EpochDay, &AuthorSet)>) -> Seq<Set<Seq<char>>> {
    Seq::new(queue.len(), |j: int| queue[j].1@)
}

/// The queue holds, oldest first, exactly the entries of `activity` for the
/// days from `lo` up to but not including `upto`.
spec fn queue_holds(
    queue: Seq<(EpochDay, &AuthorSet)>,
    activity: Activity,
    lo: int,
    upto: int,
) -> bool {
    &&& forall|j: int|
        0 <= j < queue.len() ==> lo <= (#[trigger] queue[j]).0 < upto && activity.contains_key(
            queue[j].0,
        ) && queue[j].1@ == activity[queue[j].0]
    &&& forall|j: int, k: int|
        0 <= j < k < queue.len() ==> (#[trigger] queue[j]).0 < (#[trigger] queue[k]).0
    &&& forall|d: EpochDay|
        lo <= d < upto && #[trigger] activity.contains_key(d) ==> exists|j: int|
            0 <= j < queue.len() && (#[trigger] queue[j]).0 == d
}

proof fn lemma_queue_spread(
    queue: Seq<(EpochDay, &AuthorSet)>,
    activity: Activity,
    lo: int,
    upto: int,
    j: int,
)
    requires
        queue_holds(queue, activity, lo, upto),
        0 <= j < queue.len(),
    ensures
        queue[j].0 >= lo + j,
    decreases j,
{
    if j > 0 {
        lemma_queue_spread(queue, activity, lo, upto, j - 1);
        assert(queue[j - 1].0 < queue[j].0);
    }
}

/// A queue over the days from `lo` up to `upto` has at most one entry per day.
proof fn lemma_queue_len(queue: Seq<(EpochDay, &AuthorSet)>, activity: Activity, lo: int, upto: int)
    requires
        queue_holds(queue, activity, lo, upto),
        lo <= upto,
    ensures
        queue.len() <= upto - lo,
{
    if queue.len() > 0 {
        lemma_queue_spread(queue, activity, lo, upto, queue.len() - 1);
    }
}

/// Once the days that have left the window are evicted, the authors with a
/// reference are exactly the authors of the window.
proof fn lemma_window_covered(
    queue: Seq<(EpochDay, &AuthorSet)>,
    activity: Activity,
    lo: int,
    first: int,
    start: int,
    today: int,
    window: int,
)
    requires
        queue_holds(queue, activity, lo, today + 1),
        queue.len() == 0 || today - queue[0].0 < window,
        lo <= first || lo <= today - window + 1,
        first == if start >= window - 1 {
            start - (window - 1)
        } else {
            0
        },
        start <= today,
        window >= 1,
    ensures
        tally(sets_of(queue)).dom() == window_authors(activity, today, window),
{
    let sets = sets_of(queue);
    assert forall|a: Seq<char>|
        tally(sets).dom().contains(a) <==> window_authors(activity, today, window).contains(a) by {
        lemma_hits_positive(sets, a);
        if hits(sets, a) > 0 {
            let j = choose|j: int| 0 <= j < sets.len() && (#[trigger] sets[j]).contains(a);
            let d = queue[j].0;
            assert(queue[0].0 <= queue[j].0);
            assert(activity.contains_key(d) && activity[d].contains(a));
        }
        if window_authors(activity, today, window).contains(a) {
            let d = choose|d: EpochDay|
                today - window < d <= today && #[trigger] activity.contains_key(d)
                    && activity[d].contains(a);
            let j = choose|j: int| 0 <= j < queue.len() && (#[trigger] queue[j]).0 == d;
            assert(sets[j].contains(a));
        }
    }
    assert(tally(sets).dom() =~= window_authors(activity, today, window));
}

/// Counts, for each day from `start_day` to `end_day`, the distinct authors
/// that `bucket` holds for any of the `window_days` days ending with that
/// day. The days from `start_day` to `end_day` come in ascending order, one
/// point each, whether or not the index has an entry for them; an inverted
/// range gives an empty series.
///
/// A queue holds the entries of the days inside the window and a map counts,
/// for each author, the queued days that hold the author. A day enters the
/// queue when it is reached and leaves it when it has fallen out of the
/// window; the count of a day is the number of authors with a reference. The
/// `window_days - 1` days before `start_day` are run through first, without a
/// point, so that the window of `start_day` is complete.
pub fn sliding_window_counts(
    bucket: &ActivityBucket,
    start_day: EpochDay,
    end_day: EpochDay,
    window_days: u32,
) -> (series: Vec<MetricDataPoint>)
    requires
        window_days >= 1,
        forall|d: int|
            start_day <= d <= end_day ==> window_authors(bucket@, d, window_days as int).len()
                <= u32::MAX,
    ensures
        is_window_series(series@, bucket@, start_day, end_day, window_days as int),
{
    let mut series: Vec<MetricDataPoint> = Vec::new();
    if start_day > end_day {
        return series;
    }
    let warm_up: u32 = window_days - 1;
    let first: EpochDay = if start_day >= warm_up {
        start_day - warm_up
    } else {
        0
    };
    let mut queue: VecDeque<(EpochDay, &AuthorSet)> = VecDeque::new();
    let mut active: StringHashMap<u64> = StringHashMap::new();
    let ghost activity = bucket@;
    let ghost window = window_days as int;
    let ghost mut lo: int = first as int;
    let mut day: u64 = first as u64;
    assert(active@ =~= tally(sets_of(queue@)));
    while day <= end_day as u64
        invariant
            window_days >= 1,
            window == window_days,
            activity == bucket@,
            start_day <= end_day,
            first as int == if start_day >= window - 1 {
                start_day - (window - 1)
            } else {
                0
            },
            first <= day <= end_day + 1,
            first <= lo <= day,
            lo <= first || lo <= day - window,
            queue_holds(queue@, activity, lo, day as int),
            active@ == tally(sets_of(queue@)),
            series@.len() == if day > start_day {
                day - start_day
            } else {
                0
            },
            forall|i: int|
                0 <= i < series@.len() ==> (#[trigger] series@[i]).epoch_day == start_day + i
                    && series@[i].count == window_authors(activity, start_day + i, window).len(),
            forall|d: int|
                start_day <= d <= end_day ==> window_authors(activity, d, window).len()
                    <= u32::MAX,
        decreases end_day + 1 - day,
    {
        let today: EpochDay = day as EpochDay;
        let ghost queue_before = queue@;
        match bucket.authors_on(today) {
            Some(authors) => {
                proof {
                    lemma_queue_len(queue@, activity, lo, day as int);
                    lemma_tally_push(sets_of(queue@), authors@);
                    assert forall|a: Seq<char>| active@.contains_key(a) implies active@[a]
                        < u64::MAX by {
                        lemma_hits_bound(sets_of(queue@), a);
                    }
                }
                add_references(&mut active, authors);
                queue.push_back((today, authors));
                proof {
                    assert(sets_of(queue@) =~= sets_of(queue_before).push(authors@));
                    assert forall|d: EpochDay|
                        lo <= d < day + 1 && #[trigger] activity.contains_key(d) implies exists|
                        j: int,
                    |
                        0 <= j < queue@.len() && (#[trigger] queue@[j]).0 == d by {
                        if d == today {
                            assert(queue@[queue@.len() - 1].0 == d);
                        } else {
                            let j = choose|j: int|
                                0 <= j < queue_before.len() && (#[trigger] queue_before[j]).0 == d;
                            assert(queue@[j].0 == d);
                        }
                    }
                    assert(queue_holds(queue@, activity, lo, day + 1));
                }
            },
            None => {
                assert(queue_holds(queue@, activity, lo, day + 1));
            },
        }
        while queue.len() > 0 && today - queue[0].0 >= window_days
            invariant
                window_days >= 1,
                window == window_days,
                today == day,
                first <= lo <= day + 1,
                lo <= first || lo <= today - window + 1,
                queue_holds(queue@, activity, lo, day + 1),
                active@ == tally(sets_of(queue@)),
            decreases queue.len(),
        {
            let ghost queue_then = queue@;
            proof {
                lemma_queue_len(queue@, activity, lo, day + 1);
                lemma_tally_drop_first(sets_of(queue@));
            }
            match queue.pop_front() {
                Some((gone, leaving)) => {
                    proof {
                        assert(sets_of(queue_then)[0] == leaving@);
                        assert forall|a: Seq<char>|
                            leaving@.contains(a) implies active@.contains_key(a) && active@[a]
                            >= 1 by {
                            lemma_hits_positive(sets_of(queue_then), a);
                            lemma_hits_bound(sets_of(queue_then), a);
                            assert(sets_of(queue_then)[0].contains(a));
                        }
                    }
                    remove_references(&mut active, leaving);
                    proof {
                        assert(sets_of(queue@) =~= sets_of(queue_then).drop_first());
                        let ghost lo_then = lo;
                        lo = gone + 1;
                        assert forall|j: int| 0 <= j < queue@.len() implies lo <= (
                        #[trigger] queue@[j]).0 < day + 1 && activity.contains_key(queue@[j].0)
                            && queue@[j].1@ == activity[queue@[j].0] by {
                            assert(queue@[j] == queue_then[j + 1]);
                            assert(queue_then[0].0 < queue_then[j + 1].0);
                        }
                        assert forall|j: int, k: int| 0 <= j < k < queue@.len() implies (
                        #[trigger] queue@[j]).0 < (#[trigger] queue@[k]).0 by {
                            assert(queue@[j] == queue_then[j + 1]);
                            assert(queue@[k] == queue_then[k + 1]);
                        }
                        assert forall|d: EpochDay|
                            lo <= d < day + 1 && #[trigger] activity.contains_key(
                                d,
                            ) implies exists|j: int|
                            0 <= j < queue@.len() && (#[trigger] queue@[j]).0 == d by {
                            assert(lo_then <= d);
                            let j = choose|j: int|
                                0 <= j < queue_then.len() && (#[trigger] queue_then[j]).0 == d;
                            assert(j > 0);
                            assert(queue@[j - 1] == queue_then[j]);
                        }
                    }
                },
                None => {},
            }
        }
        if today >= start_day {
            proof {
                lemma_window_covered(
                    queue@,
                    activity,
                    lo,
                    first as int,
                    start_day as int,
                    today as int,
                    window,
                );
                assert(active@.dom() == window_authors(activity, today as int, window));
            }
            let count = active.len();
            series.push(MetricDataPoint { epoch_day: today, count: count as u32 });
        }
        day += 1;
    }
    series
}

} // verus!
