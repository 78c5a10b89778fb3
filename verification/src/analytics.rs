//! The metrics engine: windowed counts of distinct active authors, for the
//! speakers of any of a set of languages or for each language by itself.

use crate::activity::{activity_of, counts_on, day_of, ActivityBucket};
use crate::author_set::ids_of;
use crate::error::AnalyticsError;
use crate::index::{profiles_of, speakers_of, users_with_language, Profiles};
use crate::profile::UserLanguages;
use crate::ranking::Scores;
use crate::relay_client::NostrEvent;
use crate::str_map::StrMap;
use crate::types::{
    checked_epoch_day, epoch_day_of, EpochDay, MetricDataPoint, Timestamp, SECONDS_PER_DAY,
};
use crate::window::{days_in_range, sliding_window_counts, window_authors};
use vstd::hash_set::StringHashSet;
use vstd::prelude::*;
use vstd::seq_lib::seq_to_set_is_finite;
use vstd::set_lib::lemma_len_subset;
use vstd::string::StringExecFns;

verus! {

/// The profile `scores` holds at least one of the languages `targets`.
pub open spec fn speaks_any(scores: Scores, targets: Seq<Seq<char>>) -> bool {
    exists|j: int| 0 <= j < targets.len() && scores.contains_key(#[trigger] targets[j])
}

/// The authors whose profile holds at least one of the languages `targets`,
/// with whatever confidence.
pub open spec fn speakers_of_any(profiles: Profiles, targets: Seq<Seq<char>>) -> Set<Seq<char>> {
    Set::new(|a: Seq<char>| profiles.contains_key(a) && speaks_any(profiles[a], targets))
}

/// The authors of `eligible` with at least one event of `events` within the
/// `window` days that end with `day`.
pub open spec fn active_in_window(
    events: Seq<NostrEvent>,
    eligible: Set<Seq<char>>,
    day: int,
    window: int,
) -> Set<Seq<char>> {
    Set::new(
        |a: Seq<char>|
            exists|i: int|
                0 <= i < events.len() && eligible.contains(a) && (#[trigger] events[i]).pubkey@
                    == a && day - window < day_of(events[i]) <= day,
    )
}

/// `series` is the metric series of `events` under `eligible` over the days
/// from `start` to `end`: one point per day, in ascending order, each with
/// the number of distinct eligible authors active within the `window` days
/// that end with its day.
pub open spec fn is_metric_series(
    series: Seq<MetricDataPoint>,
    events: Seq<NostrEvent>,
    eligible: Set<Seq<char>>,
    start: EpochDay,
    end: EpochDay,
    window: int,
) -> bool {
    &&& series.len() == days_in_range(start, end)
    &&& forall|i: int|
        0 <= i < series.len() ==> (#[trigger] series[i]).epoch_day == start + i && series[i].count
            == active_in_window(events, eligible, start + i, window).len()
}

/// Why a request for metrics is refused, if it is: the window must have at
/// least one day, the day of `since` must not come after the day of `until`,
/// and the day of `until` must be an epoch day. Two timestamps of one day
/// make the range of that day, whichever of them is the later.
pub open spec fn rejection(since: Timestamp, until: Timestamp, window_days: u16) -> Option<
    Seq<char>,
> {
    if window_days == 0 {
        Some("window_days must be at least 1"@)
    } else if epoch_day_of(since as int) > epoch_day_of(until as int) {
        Some("the day of since must not be later than the day of until"@)
    } else if epoch_day_of(until as int) > u32::MAX {
        Some("until lies beyond the last epoch day"@)
    } else {
        None
    }
}

/// The window of a day over the activity index of `events` holds the
/// eligible authors with an event within that window.
pub proof fn lemma_window_of_activity(
    events: Seq<NostrEvent>,
    eligible: Set<Seq<char>>,
    day: EpochDay,
    window: int,
)
    ensures
        window_authors(activity_of(events, eligible), day as int, window) == active_in_window(
            events,
            eligible,
            day as int,
            window,
        ),
{
    let activity = activity_of(events, eligible);
    assert forall|a: Seq<char>|
        window_authors(activity, day as int, window).contains(a) <==> active_in_window(
            events,
            eligible,
            day as int,
            window,
        ).contains(a) by {
        if window_authors(activity, day as int, window).contains(a) {
            let d = choose|d: EpochDay|
                day - window < d <= day && #[trigger] activity.contains_key(d)
                    && activity[d].contains(a);
            let i = choose|i: int|
                0 <= i < events.len() && counts_on(#[trigger] events[i], eligible, d as int)
                    && events[i].pubkey@ == a;
            assert(events[i].pubkey@ == a && day - window < day_of(events[i]) <= day);
        }
        if active_in_window(events, eligible, day as int, window).contains(a) {
            let i = choose|i: int|
                0 <= i < events.len() && eligible.contains(a) && (#[trigger] events[i]).pubkey@
                    == a && day - window < day_of(events[i]) <= day;
            let d = day_of(events[i]) as EpochDay;
            assert(counts_on(events[i], eligible, d as int));
            assert(activity.contains_key(d));
            assert(activity[d].contains(a));
        }
    }
    assert(window_authors(activity, day as int, window) =~= active_in_window(
        events,
        eligible,
        day as int,
        window,
    ));
}

/// No window holds more authors than there are events.
pub proof fn lemma_active_bounded(
    events: Seq<NostrEvent>,
    eligible: Set<Seq<char>>,
    day: int,
    window: int,
)
    ensures
        active_in_window(events, eligible, day, window).finite(),
        active_in_window(events, eligible, day, window).len() <= events.len(),
{
    let authors = Seq::new(events.len(), |i: int| events[i].pubkey@);
    let active = active_in_window(events, eligible, day, window);
    seq_to_set_is_finite(authors);
    authors.lemma_cardinality_of_set();
    assert forall|a: Seq<char>| active.contains(a) implies authors.to_set().contains(a) by {
        let i = choose|i: int|
            0 <= i < events.len() && eligible.contains(a) && (#[trigger] events[i]).pubkey@ == a
                && day - window < day_of(events[i]) <= day;
        assert(authors[i] == a);
    }
    lemma_len_subset(active, authors.to_set());
}

/// The metric series is determined by the events, the eligible authors, the
/// range and the window: two series for the same inputs are equal.
pub proof fn lemma_metric_series_unique(
    first: Seq<MetricDataPoint>,
    second: Seq<MetricDataPoint>,
    events: Seq<NostrEvent>,
    eligible: Set<Seq<char>>,
    start: EpochDay,
    end: EpochDay,
    window: int,
)
    requires
        is_metric_series(first, events, eligible, start, end, window),
        is_metric_series(second, events, eligible, start, end, window),
    ensures
        first == second,
{
    assert(first =~= second);
}

/// The authors of `user_languages` whose profile holds at least one of
/// `targets`; each such author once, however many of the languages match.
pub fn users_with_any_language(
    user_languages: &StrMap<UserLanguages>,
    targets: &Vec<String>,
) -> (users: StringHashSet)
    ensures
        users@ == speakers_of_any(profiles_of(user_languages@), ids_of(targets@)),
{
    let ghost profiles = profiles_of(user_languages@);
    let ghost keys = user_languages.keys();
    let ghost wanted = ids_of(targets@);
    let n = user_languages.len();
    let mut users = StringHashSet::new();
    let mut i: usize = 0;
    while i < n
        invariant
            i <= n,
            n == keys.len(),
            keys == user_languages.keys(),
            profiles == profiles_of(user_languages@),
            wanted == ids_of(targets@),
            forall|a: Seq<char>|
                users@.contains(a) <==> exists|k: int|
                    0 <= k < i && #[trigger] keys[k] == a && speaks_any(profiles[a], wanted),
        decreases n - i,
    {
        let profile = user_languages.value_at(i);
        let ghost before = users@;
        let mut speaks = false;
        let mut j: usize = 0;
        while j < targets.len() && !speaks
            invariant
                j <= targets.len(),
                wanted == ids_of(targets@),
                speaks ==> speaks_any(profile@, wanted),
                !speaks ==> forall|k: int|
                    0 <= k < j ==> !profile@.contains_key(#[trigger] wanted[k]),
            decreases targets.len() - j + if speaks { 0int } else { 1int },
        {
            if profile.has_language(targets[j].as_str()) {
                assert(profile@.contains_key(wanted[j as int]));
                speaks = true;
            } else {
                j += 1;
            }
        }
        if speaks {
            users.insert(user_languages.key_at(i).clone());
        }
        proof {
            let key = keys[i as int];
            assert(speaks <==> speaks_any(profiles[key], wanted));
            assert forall|a: Seq<char>|
                users@.contains(a) <==> exists|k: int|
                    0 <= k < i + 1 && #[trigger] keys[k] == a && speaks_any(
                        profiles[a],
                        wanted,
                    ) by {
                if before.contains(a) {
                    let k = choose|k: int|
                        0 <= k < i && #[trigger] keys[k] == a && speaks_any(profiles[a], wanted);
                    assert(0 <= k < i + 1 && keys[k] == a);
                }
                if a == key && speaks {
                    assert(keys[i as int] == a);
                }
                if exists|k: int|
                    0 <= k < i + 1 && #[trigger] keys[k] == a && speaks_any(profiles[a], wanted) {
                    let k = choose|k: int|
                        0 <= k < i + 1 && #[trigger] keys[k] == a && speaks_any(
                            profiles[a],
                            wanted,
                        );
                    if k < i {
                        assert(before.contains(a));
                    }
                }
            }
        }
        i += 1;
    }
    proof {
        assert forall|a: Seq<char>|
            users@.contains(a) <==> speakers_of_any(profiles, wanted).contains(a) by {
            if users@.contains(a) {
                let k = choose|k: int|
                    0 <= k < n && #[trigger] keys[k] == a && speaks_any(profiles[a], wanted);
                assert(keys.contains(a));
            }
            if speakers_of_any(profiles, wanted).contains(a) {
                assert(keys.contains(a));
                let k = choose|k: int| 0 <= k < keys.len() && keys[k] == a;
                assert(keys[k] == a);
            }
        }
        assert(users@ =~= speakers_of_any(profiles, wanted));
    }
    users
}

/// Counts, for each day from `start_day` to `end_day`, the distinct authors
/// of `eligible` with an event within the `window_days` days that end with
/// that day.
pub fn windowed_active_counts(
    events: &Vec<NostrEvent>,
    eligible: &StringHashSet,
    start_day: EpochDay,
    end_day: EpochDay,
    window_days: u32,
) -> (series: Vec<MetricDataPoint>)
    requires
        window_days >= 1,
        events.len() <= u32::MAX,
    ensures
        is_metric_series(series@, events@, eligible@, start_day, end_day, window_days as int),
{
    let bucket = ActivityBucket::build(events, eligible);
    proof {
        assert forall|d: int| start_day <= d <= end_day implies window_authors(
            bucket@,
            d,
            window_days as int,
        ).len() <= u32::MAX by {
            lemma_window_of_activity(events@, eligible@, d as EpochDay, window_days as int);
            lemma_active_bounded(events@, eligible@, d, window_days as int);
        }
    }
    let series = sliding_window_counts(&bucket, start_day, end_day, window_days);
    proof {
        assert forall|i: int| 0 <= i < series@.len() implies (#[trigger] series@[i]).count
            == active_in_window(events@, eligible@, start_day + i, window_days as int).len() by {
            lemma_window_of_activity(
                events@,
                eligible@,
                (start_day + i) as EpochDay,
                window_days as int,
            );
        }
    }
    series
}

/// Turns the bounds of a request into epoch days, or says why the request is
/// refused.
pub fn check_request(since: Timestamp, until: Timestamp, window_days: u16) -> (checked: Result<
    (EpochDay, EpochDay),
    AnalyticsError,
>)
    ensures
        match checked {
            Ok((start_day, end_day)) => rejection(since, until, window_days) is None && start_day
                == epoch_day_of(since as int) && end_day == epoch_day_of(until as int),
            Err(error) => error is InvalidParameter && rejection(since, until, window_days)
                == Some(error.detail()),
        },
{
    if window_days == 0 {
        return Err(
            AnalyticsError::InvalidParameter(String::from_str("window_days must be at least 1")),
        );
    }
    let first: u64 = since / SECONDS_PER_DAY;
    let last: u64 = until / SECONDS_PER_DAY;
    if first > last {
        return Err(
            AnalyticsError::InvalidParameter(
                String::from_str("the day of since must not be later than the day of until"),
            ),
        );
    }
    match (checked_epoch_day(since), checked_epoch_day(until)) {
        (Some(start_day), Some(end_day)) => Ok((start_day, end_day)),
        _ => Err(
            AnalyticsError::InvalidParameter(
                String::from_str("until lies beyond the last epoch day"),
            ),
        ),
    }
}

/// Compute metrics from events and language index: for each day from the day
/// of `since` to the day of `until`, the number of distinct authors active
/// within the trailing window of `window_days` days, counting the authors
/// whose profile holds at least one of `target_languages`.
pub fn compute_metrics_from_events(
    events: &Vec<NostrEvent>,
    user_languages: &StrMap<UserLanguages>,
    target_languages: Vec<String>,
    since: Timestamp,
    until: Timestamp,
    window_days: u16,
) -> (result: Result<Vec<MetricDataPoint>, AnalyticsError>)
    requires
        events.len() <= u32::MAX,
    ensures
        match result {
            Ok(series) => rejection(since, until, window_days) is None && is_metric_series(
                series@,
                events@,
                speakers_of_any(profiles_of(user_languages@), ids_of(target_languages@)),
                epoch_day_of(since as int) as EpochDay,
                epoch_day_of(until as int) as EpochDay,
                window_days as int,
            ),
            Err(error) => error is InvalidParameter && rejection(since, until, window_days)
                == Some(error.detail()),
        },
{
    match check_request(since, until, window_days) {
        Err(error) => Err(error),
        Ok((start_day, end_day)) => {
            let eligible = users_with_any_language(user_languages, &target_languages);
            Ok(windowed_active_counts(events, &eligible, start_day, end_day, window_days as u32))
        },
    }
}

/// Compute metrics from events and language index, separated by language:
/// for each of `target_languages` the series of the authors whose profile
/// holds that language. An author who holds several of the languages counts
/// in the series of each.
pub fn compute_metrics_by_language(
    events: &Vec<NostrEvent>,
    user_languages: &StrMap<UserLanguages>,
    target_languages: Vec<String>,
    since: Timestamp,
    until: Timestamp,
    window_days: u16,
) -> (result: Result<StrMap<Vec<MetricDataPoint>>, AnalyticsError>)
    requires
        events.len() <= u32::MAX,
    ensures
        match result {
            Ok(by_lang) => {
                &&& rejection(since, until, window_days) is None
                &&& forall|lang: Seq<char>|
                    by_lang@.contains_key(lang) <==> ids_of(target_languages@).contains(lang)
                &&& forall|lang: Seq<char>| #[trigger]
                    by_lang@.contains_key(lang) ==> is_metric_series(
                        by_lang@[lang]@,
                        events@,
                        speakers_of(profiles_of(user_languages@), lang),
                        epoch_day_of(since as int) as EpochDay,
                        epoch_day_of(until as int) as EpochDay,
                        window_days as int,
                    )
            },
            Err(error) => error is InvalidParameter && rejection(since, until, window_days)
                == Some(error.detail()),
        },
{
    match check_request(since, until, window_days) {
        Err(error) => Err(error),
        Ok((start_day, end_day)) => {
            let ghost wanted = ids_of(target_languages@);
            let ghost profiles = profiles_of(user_languages@);
            let mut by_lang: StrMap<Vec<MetricDataPoint>> = StrMap::new();
            let mut j: usize = 0;
            while j < target_languages.len()
                invariant
                    j <= target_languages.len(),
                    events.len() <= u32::MAX,
                    window_days >= 1,
                    wanted == ids_of(target_languages@),
                    profiles == profiles_of(user_languages@),
                    forall|lang: Seq<char>|
                        by_lang@.contains_key(lang) <==> exists|k: int|
                            0 <= k < j && #[trigger] wanted[k] == lang,
                    forall|lang: Seq<char>| #[trigger]
                        by_lang@.contains_key(lang) ==> is_metric_series(
                            by_lang@[lang]@,
                            events@,
                            speakers_of(profiles, lang),
                            start_day,
                            end_day,
                            window_days as int,
                        ),
                decreases target_languages.len() - j,
            {
                let lang = &target_languages[j];
                let ghost before = by_lang@;
                let eligible = users_with_language(user_languages, lang.as_str());
                let series = windowed_active_counts(
                    events,
                    &eligible,
                    start_day,
                    end_day,
                    window_days as u32,
                );
                by_lang.insert(lang.clone(), series);
                proof {
                    assert(wanted[j as int] == lang@);
                    assert forall|code: Seq<char>|
                        by_lang@.contains_key(code) <==> exists|k: int|
                            0 <= k < j + 1 && #[trigger] wanted[k] == code by {
                        if before.contains_key(code) {
                            let k = choose|k: int| 0 <= k < j && #[trigger] wanted[k] == code;
                            assert(0 <= k < j + 1 && wanted[k] == code);
                        }
                        if exists|k: int| 0 <= k < j + 1 && #[trigger] wanted[k] == code {
                            let k = choose|k: int| 0 <= k < j + 1 && #[trigger] wanted[k] == code;
                            if k < j {
                                assert(before.contains_key(code));
                            }
                        }
                    }
                }
                j += 1;
            }
            proof {
                assert forall|lang: Seq<char>|
                    by_lang@.contains_key(lang) <==> wanted.contains(lang) by {
                    if by_lang@.contains_key(lang) {
                        let k = choose|k: int|
                            0 <= k < target_languages.len() && #[trigger] wanted[k] == lang;
                        assert(wanted[k] == lang);
                    }
                    if wanted.contains(lang) {
                        let k = choose|k: int| 0 <= k < wanted.len() && wanted[k] == lang;
                        assert(wanted[k] == lang);
                    }
                }
            }
            Ok(by_lang)
        },
    }
}

} // verus!
