//! The activity index: for each epoch day, the eligible authors with at least
//! one event on that day.

use crate::author_set::AuthorSet;
use crate::relay_client::NostrEvent;
use crate::types::{checked_epoch_day, epoch_day_of, EpochDay};
use std::collections::HashMap;
use vstd::hash_set::StringHashSet;
use vstd::prelude::*;

verus! {

broadcast use vstd::std_specs::hash::group_hash_axioms;

/// An activity index as a mathematical map: the set of active authors of each
/// day that has any.
pub type Activity = Map<EpochDay, Set<Seq<char>>>;

/// The epoch day on which `event` was created.
pub open spec fn day_of(event: NostrEvent) -> int {
    epoch_day_of(event.created_at as int)
}

/// `event` was created on `day` by an author of `eligible`.
pub open spec fn counts_on(event: NostrEvent, eligible: Set<Seq<char>>, day: int) -> bool {
    eligible.contains(event.pubkey@) && day_of(event) == day
}

/// The authors of `eligible` with at least one event of `events` on `day`.
pub open spec fn active_on(events: Seq<NostrEvent>, eligible: Set<Seq<char>>, day: int) -> Set<
    Seq<char>,
> {
    Set::new(
        |a: Seq<char>|
            exists|i: int|
                0 <= i < events.len() && counts_on(#[trigger] events[i], eligible, day)
                    && events[i].pubkey@ == a,
    )
}

/// The activity index of `events` under `eligible`: each day on which some
/// eligible author has an event, with the set of those authors.
pub open spec fn activity_of(events: Seq<NostrEvent>, eligible: Set<Seq<char>>) -> Activity {
    Map::new(
        |d: EpochDay|
            exists|i: int|
                0 <= i < events.len() && counts_on(#[trigger] events[i], eligible, d as int),
        |d: EpochDay| active_on(events, eligible, d as int),
    )
}

/// The authors that `activity` holds for `day`; none where it has no entry.
pub open spec fn authors_on(activity: Activity, day: EpochDay) -> Set<Seq<char>> {
    if activity.contains_key(day) {
        activity[day]
    } else {
        Set::empty()
    }
}

/// `activity` after `author` was seen on `day`.
pub open spec fn recorded(activity: Activity, day: EpochDay, author: Seq<char>) -> Activity {
    activity.insert(day, authors_on(activity, day).insert(author))
}

/// Taking one more event into account records its author on its day, if the
/// author is eligible and the day within range, and changes nothing else.
pub proof fn lemma_activity_step(events: Seq<NostrEvent>, eligible: Set<Seq<char>>, i: int)
    requires
        0 <= i < events.len(),
    ensures
        activity_of(events.take(i + 1), eligible) == if eligible.contains(events[i].pubkey@)
            && day_of(events[i]) <= u32::MAX {
            recorded(
                activity_of(events.take(i), eligible),
                day_of(events[i]) as EpochDay,
                events[i].pubkey@,
            )
        } else {
            activity_of(events.take(i), eligible)
        },
{
    let short = events.take(i);
    let long = events.take(i + 1);
    let e = events[i];
    let counted = eligible.contains(e.pubkey@) && day_of(e) <= u32::MAX;
    let target = if counted {
        recorded(activity_of(short, eligible), day_of(e) as EpochDay, e.pubkey@)
    } else {
        activity_of(short, eligible)
    };
    assert(long[i] == e);
    assert forall|j: int| 0 <= j < i implies #[trigger] long[j] == short[j] by {}
    assert forall|d: EpochDay|
        activity_of(long, eligible).contains_key(d) <==> target.contains_key(d) by {
        if activity_of(long, eligible).contains_key(d) {
            let j = choose|j: int|
                0 <= j < long.len() && counts_on(#[trigger] long[j], eligible, d as int);
            if j < i {
                assert(counts_on(short[j], eligible, d as int));
            }
        }
        if activity_of(short, eligible).contains_key(d) {
            let j = choose|j: int|
                0 <= j < short.len() && counts_on(#[trigger] short[j], eligible, d as int);
            assert(counts_on(long[j], eligible, d as int));
        }
        if counted && d == day_of(e) {
            assert(counts_on(long[i], eligible, d as int));
        }
    }
    assert forall|d: EpochDay| activity_of(long, eligible).contains_key(d) implies activity_of(
        long,
        eligible,
    )[d] =~= #[trigger] target[d] by {
        let old_set = authors_on(activity_of(short, eligible), d);
        assert forall|a: Seq<char>|
            active_on(long, eligible, d as int).contains(a) <==> target[d].contains(a) by {
            if active_on(long, eligible, d as int).contains(a) {
                let j = choose|j: int|
                    0 <= j < long.len() && counts_on(#[trigger] long[j], eligible, d as int)
                        && long[j].pubkey@ == a;
                if j < i {
                    assert(counts_on(short[j], eligible, d as int) && short[j].pubkey@ == a);
                    assert(active_on(short, eligible, d as int).contains(a));
                }
            }
            if old_set.contains(a) {
                let j = choose|j: int|
                    0 <= j < short.len() && counts_on(#[trigger] short[j], eligible, d as int)
                        && short[j].pubkey@ == a;
                assert(counts_on(long[j], eligible, d as int) && long[j].pubkey@ == a);
            }
            if counted && d == day_of(e) && a == e.pubkey@ {
                assert(counts_on(long[i], eligible, d as int) && long[i].pubkey@ == a);
            }
        }
    }
    assert(activity_of(long, eligible) =~= target);
}

/// The activity index in memory.
pub struct ActivityBucket {
    days: HashMap<EpochDay, AuthorSet>,
}

impl View for ActivityBucket {
    type V = Activity;

    closed spec fn view(&self) -> Activity {
        Map::new(|d: EpochDay| self.days@.contains_key(d), |d: EpochDay| self.days@[d]@)
    }
}

impl ActivityBucket {
    /// An index without entries.
    pub fn new() -> (bucket: Self)
        ensures
            bucket@ == Activity::empty(),
    {
        let bucket = ActivityBucket { days: HashMap::new() };
        assert(bucket@ =~= Activity::empty());
        bucket
    }

    /// Notes that `author` was active on `day`.
    pub fn record(&mut self, day: EpochDay, author: String)
        ensures
            final(self)@ == recorded(old(self)@, day, author@),
    {
        let mut authors = match self.days.remove(&day) {
            Some(known) => known,
            None => AuthorSet::new(),
        };
        authors.insert(author);
        self.days.insert(day, authors);
        assert(self@ =~= recorded(old(self)@, day, author@));
    }

    /// The authors active on `day`, if there are any.
    pub fn authors_on(&self, day: EpochDay) -> (authors: Option<&AuthorSet>)
        ensures
            match authors {
                Some(set) => self@.contains_key(day) && set@ == self@[day],
                None => !self@.contains_key(day),
            },
    {
        self.days.get(&day)
    }

    /// Builds the activity index of `events`: an event counts where its
    /// author is in `eligible`; several events of one author on one day make
    /// one membership.
    pub fn build(events: &Vec<NostrEvent>, eligible: &StringHashSet) -> (bucket: Self)
        ensures
            bucket@ == activity_of(events@, eligible@),
    {
        let mut bucket = ActivityBucket::new();
        assert(bucket@ =~= activity_of(events@.take(0), eligible@));
        let mut i: usize = 0;
        while i < events.len()
            invariant
                i <= events.len(),
                bucket@ == activity_of(events@.take(i as int), eligible@),
            decreases events.len() - i,
        {
            let event = &events[i];
            proof {
                lemma_activity_step(events@, eligible@, i as int);
            }
            if eligible.contains(event.get_pubkey()) {
                match checked_epoch_day(event.get_created_at()) {
                    Some(day) => {
                        bucket.record(day, event.get_pubkey().to_owned());
                    },
                    None => {},
                }
            }
            i += 1;
        }
        assert(events@.take(events.len() as int) =~= events@);
        bucket
    }
}

} // verus!
