use nostr_analytics::{
    check_request, compute_metrics_by_language, compute_metrics_from_events,
    sliding_window_counts, users_with_any_language, windowed_active_counts, ActivityBucket,
    AnalyticsError, MetricDataPoint, NostrEvent, StrMap, StringHashSet, UserLanguages,
};

const DAY: u64 = 86400;

fn event(pubkey: &str, created_at: u64) -> NostrEvent {
    NostrEvent {
        id: String::new(),
        pubkey: pubkey.to_string(),
        created_at,
        kind: 1,
        tags: Vec::new(),
        content: "hello".to_string(),
        sig: String::new(),
    }
}

fn on_day(pubkey: &str, day: u64) -> NostrEvent {
    event(pubkey, day * DAY + 17)
}

fn profiles(entries: &[(&str, &[(&str, f64)])]) -> StrMap<UserLanguages> {
    let mut map = StrMap::new();
    for (author, langs) in entries {
        let mut profile = UserLanguages::new();
        for (lang, confidence) in langs.iter() {
            profile.add_language(lang.to_string(), confidence.to_bits(), 255);
        }
        map.insert(author.to_string(), profile);
    }
    map
}

fn everyone(events: &[NostrEvent]) -> StringHashSet {
    let mut set = StringHashSet::new();
    for e in events {
        set.insert(e.pubkey.clone());
    }
    set
}

fn counts(series: &[MetricDataPoint]) -> Vec<(u32, u32)> {
    series.iter().map(|p| (p.epoch_day, p.count)).collect()
}

fn brute_force(
    events: &[NostrEvent],
    eligible: &[&str],
    start: u32,
    end: u32,
    window: u32,
) -> Vec<(u32, u32)> {
    let mut out = Vec::new();
    let mut day = start as i64;
    while day <= end as i64 {
        let mut seen: Vec<&str> = Vec::new();
        for e in events {
            let d = (e.created_at / DAY) as i64;
            if d > day - window as i64
                && d <= day
                && eligible.contains(&e.pubkey.as_str())
                && !seen.contains(&e.pubkey.as_str())
            {
                seen.push(e.pubkey.as_str());
            }
        }
        out.push((day as u32, seen.len() as u32));
        day += 1;
    }
    out
}

#[test]
fn window_of_two_days_with_reappearing_author() {
    let events = vec![on_day("A", 100), on_day("B", 101), on_day("A", 102)];
    let langs = profiles(&[("A", &[("en", 0.9)]), ("B", &[("en", 0.9)])]);
    let series = compute_metrics_from_events(
        &events,
        &langs,
        vec!["en".to_string()],
        100 * DAY,
        102 * DAY,
        2,
    )
    .unwrap();
    assert_eq!(counts(&series), vec![(100, 1), (101, 2), (102, 2)]);
}

#[test]
fn window_of_one_day_counts_each_day_alone() {
    let events = vec![on_day("A", 100), on_day("B", 101), on_day("A", 102)];
    let series = windowed_active_counts(&events, &everyone(&events), 100, 103, 1);
    assert_eq!(counts(&series), vec![(100, 1), (101, 1), (102, 1), (103, 0)]);
}

#[test]
fn aggregate_counts_each_author_once_and_languages_apart() {
    let events = vec![on_day("X", 50), on_day("Y", 50)];
    let langs = profiles(&[("X", &[("en", 0.9)]), ("Y", &[("ja", 0.8)])]);
    let targets = vec!["en".to_string(), "ja".to_string()];
    let series =
        compute_metrics_from_events(&events, &langs, targets.clone(), 50 * DAY, 50 * DAY, 1)
            .unwrap();
    assert_eq!(counts(&series), vec![(50, 2)]);

    let by_lang = compute_metrics_by_language(&events, &langs, targets, 50 * DAY, 50 * DAY, 1)
        .ok()
        .unwrap();
    assert_eq!(by_lang.len(), 2);
    assert_eq!(counts(by_lang.get("en").unwrap()), vec![(50, 1)]);
    assert_eq!(counts(by_lang.get("ja").unwrap()), vec![(50, 1)]);
    assert!(by_lang.get("fr").is_none());
}

#[test]
fn author_with_two_target_languages_counts_once_in_aggregate_and_in_each_language() {
    let events = vec![on_day("X", 7), on_day("X", 7), on_day("Z", 7)];
    let langs = profiles(&[("X", &[("en", 0.9), ("ja", 0.4)]), ("Z", &[("fr", 0.9)])]);
    let targets = vec!["en".to_string(), "ja".to_string()];
    let series =
        compute_metrics_from_events(&events, &langs, targets.clone(), 7 * DAY, 7 * DAY, 1).unwrap();
    assert_eq!(counts(&series), vec![(7, 1)]);
    let by_lang =
        compute_metrics_by_language(&events, &langs, targets, 7 * DAY, 7 * DAY, 1).ok().unwrap();
    assert_eq!(counts(by_lang.get("en").unwrap()), vec![(7, 1)]);
    assert_eq!(counts(by_lang.get("ja").unwrap()), vec![(7, 1)]);
}

#[test]
fn repeated_target_language_gives_one_series() {
    let events = vec![on_day("X", 3)];
    let langs = profiles(&[("X", &[("en", 0.9)])]);
    let targets = vec!["en".to_string(), "en".to_string()];
    let by_lang =
        compute_metrics_by_language(&events, &langs, targets, 3 * DAY, 4 * DAY, 7).ok().unwrap();
    assert_eq!(by_lang.len(), 1);
    assert_eq!(counts(by_lang.get("en").unwrap()), vec![(3, 1), (4, 1)]);
}

#[test]
fn eligible_users_are_those_with_any_target_language() {
    let langs = profiles(&[
        ("a", &[("en", 0.9)]),
        ("b", &[("ja", 0.8), ("en", 0.1)]),
        ("c", &[("fr", 1.0)]),
        ("d", &[]),
    ]);
    let users = users_with_any_language(&langs, &vec!["en".to_string(), "ja".to_string()]);
    assert_eq!(users.len(), 2);
    assert!(users.contains("a"));
    assert!(users.contains("b"));
    assert!(!users.contains("c"));
    assert!(!users.contains("d"));
    assert_eq!(users_with_any_language(&langs, &Vec::new()).len(), 0);
}

#[test]
fn ineligible_authors_contribute_nothing() {
    let events = vec![on_day("A", 10), on_day("B", 10), on_day("C", 11)];
    let langs = profiles(&[("A", &[("en", 0.9)]), ("B", &[("de", 0.9)])]);
    let series =
        compute_metrics_from_events(&events, &langs, vec!["en".to_string()], 10 * DAY, 11 * DAY, 7)
            .unwrap();
    assert_eq!(counts(&series), vec![(10, 1), (11, 1)]);
}

#[test]
fn days_without_events_still_give_a_point() {
    let events = vec![on_day("A", 10)];
    let series = windowed_active_counts(&events, &everyone(&events), 8, 13, 2);
    assert_eq!(counts(&series), vec![(8, 0), (9, 0), (10, 1), (11, 1), (12, 0), (13, 0)]);
}

#[test]
fn several_events_of_one_author_on_one_day_count_once() {
    let events = vec![
        event("A", 10 * DAY),
        event("A", 10 * DAY + 1),
        event("A", 11 * DAY - 1),
        event("B", 10 * DAY + 5),
    ];
    let series = windowed_active_counts(&events, &everyone(&events), 10, 10, 1);
    assert_eq!(counts(&series), vec![(10, 2)]);
}

#[test]
fn window_longer_than_the_range_keeps_everything() {
    let events = vec![on_day("A", 1), on_day("B", 2), on_day("C", 3), on_day("A", 4)];
    let series = windowed_active_counts(&events, &everyone(&events), 1, 5, 365);
    assert_eq!(counts(&series), vec![(1, 1), (2, 2), (3, 3), (4, 3), (5, 3)]);
}

#[test]
fn events_before_the_range_count_while_inside_the_window() {
    let events = vec![on_day("A", 8), on_day("B", 9), on_day("C", 3)];
    let series = windowed_active_counts(&events, &everyone(&events), 10, 12, 3);
    assert_eq!(counts(&series), vec![(10, 2), (11, 1), (12, 0)]);
}

#[test]
fn events_after_the_range_do_not_count() {
    let events = vec![on_day("A", 20), on_day("B", 5)];
    let series = windowed_active_counts(&events, &everyone(&events), 5, 6, 30);
    assert_eq!(counts(&series), vec![(5, 1), (6, 1)]);
}

#[test]
fn inverted_day_range_gives_an_empty_series() {
    let events = vec![on_day("A", 10)];
    let bucket = ActivityBucket::build(&events, &everyone(&events));
    assert!(sliding_window_counts(&bucket, 11, 10, 1).is_empty());
    assert!(windowed_active_counts(&events, &everyone(&events), 4000, 0, 7).is_empty());
}

#[test]
fn activity_bucket_holds_distinct_authors_per_day() {
    let events = vec![on_day("A", 10), on_day("A", 10), on_day("B", 10), on_day("A", 12)];
    let mut eligible = StringHashSet::new();
    eligible.insert("A".to_string());
    eligible.insert("B".to_string());
    let bucket = ActivityBucket::build(&events, &eligible);
    let day10 = bucket.authors_on(10).unwrap();
    assert_eq!(day10.len(), 2);
    assert!(day10.contains("A") && day10.contains("B"));
    assert!(bucket.authors_on(11).is_none());
    assert_eq!(bucket.authors_on(12).unwrap().len(), 1);
}

#[test]
fn events_beyond_the_last_epoch_day_are_passed_over() {
    let events = vec![event("A", u64::MAX), event("B", (u32::MAX as u64 + 1) * DAY), on_day("C", 5)];
    let series = windowed_active_counts(&events, &everyone(&events), 5, 5, 1);
    assert_eq!(counts(&series), vec![(5, 1)]);
}

#[test]
fn range_may_end_on_the_last_epoch_day() {
    let last = u32::MAX as u64;
    let events = vec![on_day("A", last), on_day("B", last - 1), on_day("C", last - 3)];
    let series = windowed_active_counts(&events, &everyone(&events), u32::MAX - 1, u32::MAX, 2);
    assert_eq!(counts(&series), vec![(u32::MAX - 1, 1), (u32::MAX, 2)]);
    let langs = profiles(&[("A", &[("en", 0.9)])]);
    let series = compute_metrics_from_events(
        &events,
        &langs,
        vec!["en".to_string()],
        last * DAY,
        last * DAY + DAY - 1,
        u16::MAX,
    )
    .unwrap();
    assert_eq!(counts(&series), vec![(u32::MAX, 1)]);
}

#[test]
fn counts_agree_with_a_full_rescan() {
    let names = ["a", "b", "c", "d", "e", "f", "g"];
    let mut state: u64 = 0x2545_f491_4f6c_dd1d;
    let mut next = move |bound: u64| {
        state ^= state << 13;
        state ^= state >> 7;
        state ^= state << 17;
        state % bound
    };
    for round in 0..60 {
        let n = next(40) as usize;
        let mut events = Vec::new();
        for _ in 0..n {
            let who = names[next(names.len() as u64) as usize];
            events.push(event(who, next(30) * DAY + next(DAY)));
        }
        let eligible: Vec<&str> = names.iter().copied().filter(|_| next(4) != 0).collect();
        let mut set = StringHashSet::new();
        for name in &eligible {
            set.insert(name.to_string());
        }
        let start = next(30) as u32;
        let end = start + next(12) as u32;
        let window = 1 + next(if round % 2 == 0 { 5 } else { 40 }) as u32;
        let expected = brute_force(&events, &eligible, start, end, window);
        let series = windowed_active_counts(&events, &set, start, end, window);
        assert_eq!(counts(&series), expected);
        let bucket = ActivityBucket::build(&events, &set);
        assert_eq!(counts(&sliding_window_counts(&bucket, start, end, window)), expected);
    }
}

#[test]
fn counting_twice_gives_the_same_series() {
    let events = vec![on_day("A", 1), on_day("B", 2), on_day("A", 5), on_day("C", 5)];
    let eligible = everyone(&events);
    let bucket = ActivityBucket::build(&events, &eligible);
    let first = sliding_window_counts(&bucket, 0, 8, 3);
    let second = sliding_window_counts(&bucket, 0, 8, 3);
    assert_eq!(first, second);
    assert_eq!(
        counts(&first),
        vec![(0, 0), (1, 1), (2, 2), (3, 2), (4, 1), (5, 2), (6, 2), (7, 2), (8, 0)]
    );
    let langs = profiles(&[("A", &[("en", 0.9)]), ("C", &[("en", 0.2)])]);
    let again = |_: u8| {
        compute_metrics_from_events(&events, &langs, vec!["en".to_string()], 0, 8 * DAY, 3).unwrap()
    };
    assert_eq!(again(0), again(1));
}

#[test]
fn zero_window_is_refused() {
    let error =
        compute_metrics_from_events(&Vec::new(), &StrMap::new(), Vec::new(), 0, DAY, 0).unwrap_err();
    assert!(matches!(error, AnalyticsError::InvalidParameter(_)));
    assert_eq!(error.to_string(), "Invalid parameter: window_days must be at least 1");
    let error =
        compute_metrics_by_language(&Vec::new(), &StrMap::new(), Vec::new(), 0, DAY, 0).err().unwrap();
    assert_eq!(error.to_string(), "Invalid parameter: window_days must be at least 1");
}

#[test]
fn inverted_range_is_refused() {
    let series =
        compute_metrics_from_events(&Vec::new(), &StrMap::new(), Vec::new(), 10, 9, 1).unwrap();
    assert_eq!(counts(&series), vec![(0, 0)]);
    let error = compute_metrics_by_language(&Vec::new(), &StrMap::new(), Vec::new(), DAY, 0, 7)
        .err()
        .unwrap();
    assert!(matches!(error, AnalyticsError::InvalidParameter(_)));
    assert_eq!(
        error.to_string(),
        "Invalid parameter: the day of since must not be later than the day of until"
    );
    let error = compute_metrics_from_events(&Vec::new(), &StrMap::new(), Vec::new(), 2 * DAY, DAY, 1)
        .unwrap_err();
    assert!(matches!(error, AnalyticsError::InvalidParameter(_)));
    assert!(check_request(2 * DAY, 2 * DAY - 1, 1).is_err());
}

#[test]
fn timestamps_of_one_day_make_the_range_of_that_day() {
    let events = vec![event("A", DAY), event("B", DAY + 5), event("C", 2 * DAY)];
    let langs = profiles(&[("A", &[("en", 0.9)]), ("B", &[("ja", 0.9)]), ("C", &[("en", 0.9)])]);
    let targets = vec!["en".to_string(), "ja".to_string()];
    let series =
        compute_metrics_from_events(&events, &langs, targets.clone(), DAY + 1, DAY, 1).unwrap();
    assert_eq!(counts(&series), vec![(1, 2)]);
    let by_lang = compute_metrics_by_language(&events, &langs, targets, 2 * DAY - 1, DAY, 1)
        .ok()
        .unwrap();
    assert_eq!(by_lang.len(), 2);
    assert_eq!(counts(by_lang.get("en").unwrap()), vec![(1, 1)]);
    assert_eq!(counts(by_lang.get("ja").unwrap()), vec![(1, 1)]);
    assert_eq!(check_request(DAY + 1, DAY, 1).unwrap(), (1, 1));
    assert_eq!(check_request(0, 0, 1).unwrap(), (0, 0));
}

#[test]
fn range_beyond_the_last_epoch_day_is_refused() {
    let beyond = (u32::MAX as u64 + 1) * DAY;
    let error = compute_metrics_from_events(&Vec::new(), &StrMap::new(), Vec::new(), 0, beyond, 1)
        .unwrap_err();
    assert_eq!(error.to_string(), "Invalid parameter: until lies beyond the last epoch day");
    assert!(check_request(0, beyond - 1, 1).is_ok());
    assert!(check_request(beyond, u64::MAX, 1).is_err());
}

#[test]
fn request_bounds_become_epoch_days() {
    assert_eq!(check_request(100 * DAY, 102 * DAY + 5, 2).unwrap(), (100, 102));
    assert_eq!(check_request(5, 5, 1).unwrap(), (0, 0));
    let series = compute_metrics_from_events(
        &vec![event("A", 3 * DAY + 100)],
        &profiles(&[("A", &[("en", 0.5)])]),
        vec!["en".to_string()],
        3 * DAY + 50_000,
        3 * DAY + 60_000,
        1,
    )
    .unwrap();
    assert_eq!(counts(&series), vec![(3, 1)]);
}
