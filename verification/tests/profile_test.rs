use nostr_analytics::{
    build_language_index, count_speakers, process_events_for_language_index, AnalyticsError,
    AuthorSet, LanguageIndexOutput, LanguageScores, NostrEvent, StrMap, UserLanguages,
};

fn conf(value: f64) -> u64 {
    value.to_bits()
}

fn event(pubkey: &str, content: &str) -> NostrEvent {
    NostrEvent {
        id: String::new(),
        pubkey: pubkey.to_string(),
        created_at: 1704067200,
        kind: 1,
        tags: Vec::new(),
        content: content.to_string(),
        sig: String::new(),
    }
}

fn detection(lang: &str, confidence: f64) -> Option<(String, u64)> {
    Some((lang.to_string(), conf(confidence)))
}

fn entries(scores: &LanguageScores) -> Vec<(String, f64)> {
    (0..scores.len())
        .map(|i| (scores.code_at(i).clone(), f64::from_bits(scores.confidence_at(i))))
        .collect()
}

fn pairs(list: &[(&str, f64)]) -> Vec<(String, f64)> {
    list.iter().map(|(l, c)| (l.to_string(), *c)).collect()
}

fn profile_of(output: &LanguageIndexOutput, author: &str) -> Vec<(String, f64)> {
    entries(&output.user_languages.get(author).unwrap().languages)
}

#[test]
fn ten_languages_with_a_cap_of_three_keep_the_three_best() {
    let mut user_langs = UserLanguages::new();
    for i in 0..10 {
        user_langs.add_language(format!("lang{}", i), conf(0.5 + i as f64 * 0.05), 3);
        assert!(user_langs.languages.len() <= 3);
    }
    assert_eq!(
        entries(&user_langs.languages),
        pairs(&[("lang9", 0.5 + 9.0 * 0.05), ("lang8", 0.5 + 8.0 * 0.05), ("lang7", 0.5 + 7.0 * 0.05)])
    );
    assert!(!user_langs.has_language("lang6"));
}

#[test]
fn a_weaker_language_does_not_enter_a_full_profile() {
    let mut user_langs = UserLanguages::new();
    user_langs.add_language("en".to_string(), conf(0.9), 2);
    user_langs.add_language("ja".to_string(), conf(0.8), 2);
    user_langs.add_language("fr".to_string(), conf(0.1), 2);
    assert_eq!(entries(&user_langs.languages), pairs(&[("en", 0.9), ("ja", 0.8)]));
}

#[test]
fn a_known_language_keeps_the_larger_confidence() {
    let mut user_langs = UserLanguages::new();
    user_langs.add_language("en".to_string(), conf(0.6), 5);
    user_langs.add_language("en".to_string(), conf(0.9), 5);
    user_langs.add_language("en".to_string(), conf(0.7), 5);
    assert_eq!(entries(&user_langs.languages), pairs(&[("en", 0.9)]));
    assert_eq!(user_langs.languages.get("en"), Some(conf(0.9)));
    assert_eq!(user_langs.languages.get("ja"), None);
}

#[test]
fn a_raised_confidence_moves_the_language_up() {
    let mut user_langs = UserLanguages::new();
    user_langs.add_language("en".to_string(), conf(0.5), 5);
    user_langs.add_language("ja".to_string(), conf(0.7), 5);
    user_langs.add_language("fr".to_string(), conf(0.6), 5);
    assert_eq!(entries(&user_langs.languages), pairs(&[("ja", 0.7), ("fr", 0.6), ("en", 0.5)]));
    user_langs.add_language("en".to_string(), conf(0.65), 5);
    assert_eq!(entries(&user_langs.languages), pairs(&[("ja", 0.7), ("en", 0.65), ("fr", 0.6)]));
}

#[test]
fn equal_confidences_rank_by_language_code() {
    for order in [["de", "en", "fr"], ["fr", "en", "de"], ["en", "fr", "de"]] {
        let mut user_langs = UserLanguages::new();
        for lang in order {
            user_langs.add_language(lang.to_string(), conf(0.5), 2);
        }
        assert_eq!(entries(&user_langs.languages), pairs(&[("de", 0.5), ("en", 0.5)]));
    }
}

#[test]
fn language_codes_are_ordered_by_code_point() {
    let mut scores = LanguageScores::new();
    for lang in ["b", "ab", "a", "", "é", "B", "aa", "z"] {
        scores.record(lang.to_string(), conf(0.5));
    }
    let codes: Vec<String> = entries(&scores).into_iter().map(|(code, _)| code).collect();
    assert_eq!(codes, vec!["", "B", "a", "aa", "ab", "b", "z", "é"]);
}

#[test]
fn a_cap_of_zero_keeps_nothing() {
    let mut user_langs = UserLanguages::new();
    user_langs.add_language("en".to_string(), conf(1.0), 0);
    assert_eq!(user_langs.languages.len(), 0);
    assert!(user_langs.languages.is_empty());
    assert!(!user_langs.has_language("en"));
}

#[test]
fn a_smaller_cap_cuts_an_older_profile_down() {
    let mut user_langs = UserLanguages::new();
    for (lang, c) in [("a", 0.1), ("b", 0.4), ("c", 0.3), ("d", 0.2)] {
        user_langs.add_language(lang.to_string(), conf(c), 10);
    }
    assert_eq!(user_langs.languages.len(), 4);
    user_langs.add_language("e".to_string(), conf(0.25), 2);
    assert_eq!(entries(&user_langs.languages), pairs(&[("b", 0.4), ("c", 0.3)]));
}

#[test]
fn truncate_and_record_by_themselves() {
    let mut scores = LanguageScores::new();
    scores.record("x".to_string(), conf(0.2));
    scores.record("y".to_string(), conf(0.9));
    scores.record("x".to_string(), conf(0.1));
    assert_eq!(entries(&scores), pairs(&[("y", 0.9), ("x", 0.2)]));
    assert!(scores.contains_key("x"));
    scores.truncate(5);
    assert_eq!(scores.len(), 2);
    scores.truncate(1);
    assert_eq!(entries(&scores), pairs(&[("y", 0.9)]));
    assert!(!scores.contains_key("x"));
}

#[test]
fn a_detection_at_the_threshold_counts() {
    let events = vec![event("a", "x"), event("b", "x"), event("c", "x")];
    let detections =
        vec![detection("en", 0.5), detection("en", 0.4999999999999999), detection("en", 0.5000000000000001)];
    let output = build_language_index(&events, &detections, conf(0.5), 5);
    assert_eq!(output.result.events_processed, 3);
    assert_eq!(output.result.events_with_language, 2);
    assert_eq!(output.result.users, 2);
    assert!(output.user_languages.contains_key("a"));
    assert!(!output.user_languages.contains_key("b"));
    assert!(output.user_languages.contains_key("c"));
    assert_eq!(profile_of(&output, "a"), pairs(&[("en", 0.5)]));
}

#[test]
fn thresholds_at_the_ends_of_the_scale() {
    let events = vec![event("a", "x"), event("b", "x")];
    let detections = vec![detection("en", 0.0), detection("ja", 1.0)];
    assert_eq!(build_language_index(&events, &detections, conf(0.0), 5).result.users, 2);
    assert_eq!(build_language_index(&events, &detections, conf(1.0), 5).result.users, 1);
    assert_eq!(build_language_index(&events, &detections, u64::MAX, 5).result.users, 0);
}

#[test]
fn index_counts_users_languages_and_events() {
    let events = vec![
        event("alice", "one"),
        event("bob", "two"),
        event("alice", "three"),
        event("carol", ""),
        event("dave", "four"),
        event("bob", "five"),
        event("erin", "six"),
    ];
    let detections = vec![
        detection("en", 0.9),
        detection("en", 0.8),
        detection("ja", 0.7),
        detection("en", 0.99),
        None,
        detection("de", 0.2),
        detection("ja", 0.6),
    ];
    let output = build_language_index(&events, &detections, conf(0.5), 5);
    assert_eq!(output.result.events_processed, 7);
    assert_eq!(output.result.events_with_language, 4);
    assert_eq!(output.result.users, 3);
    assert_eq!(output.user_languages.len(), 3);
    assert_eq!(profile_of(&output, "alice"), pairs(&[("en", 0.9), ("ja", 0.7)]));
    assert_eq!(profile_of(&output, "bob"), pairs(&[("en", 0.8)]));
    assert_eq!(profile_of(&output, "erin"), pairs(&[("ja", 0.6)]));
    assert!(output.user_languages.get("carol").is_none());
    assert!(output.user_languages.get("dave").is_none());
    let mut by_lang = output.result.by_lang();
    by_lang.sort();
    assert_eq!(by_lang, vec![("en".to_string(), 2), ("ja".to_string(), 2)]);
    assert_eq!(output.result.by_lang.get("en"), Some(&2));
    assert_eq!(output.result.by_lang.get("de"), None);
}

#[test]
fn statistics_count_languages_after_truncation() {
    let events = vec![event("a", "1"), event("a", "2"), event("b", "3")];
    let detections = vec![detection("en", 0.6), detection("ja", 0.9), detection("en", 0.7)];
    let output = build_language_index(&events, &detections, conf(0.5), 1);
    assert_eq!(profile_of(&output, "a"), pairs(&[("ja", 0.9)]));
    let mut by_lang = output.result.by_lang();
    by_lang.sort();
    assert_eq!(by_lang, vec![("en".to_string(), 1), ("ja".to_string(), 1)]);
}

#[test]
fn an_author_with_an_empty_profile_is_still_a_user() {
    let events = vec![event("a", "1")];
    let output = build_language_index(&events, &vec![detection("en", 0.6)], conf(0.5), 0);
    assert_eq!(output.result.users, 1);
    assert_eq!(output.result.events_with_language, 1);
    assert_eq!(profile_of(&output, "a"), pairs(&[]));
    assert_eq!(output.result.by_lang().len(), 0);
}

#[test]
fn an_event_without_content_is_passed_over() {
    let events = vec![event("a", ""), event("b", " ")];
    let detections = vec![detection("en", 0.9), detection("en", 0.9)];
    let output = build_language_index(&events, &detections, conf(0.5), 5);
    assert_eq!(output.result.events_processed, 2);
    assert_eq!(output.result.events_with_language, 1);
    assert!(!output.user_languages.contains_key("a"));
    assert!(output.user_languages.contains_key("b"));
}

#[test]
fn profiles_hold_the_maximum_whatever_the_order() {
    let base = [
        ("en", 0.6),
        ("ja", 0.9),
        ("en", 0.95),
        ("de", 0.7),
        ("fr", 0.7),
        ("ja", 0.55),
        ("de", 0.8),
    ];
    let mut order: Vec<usize> = (0..base.len()).collect();
    let mut state: u64 = 99;
    for _ in 0..200 {
        for i in (1..order.len()).rev() {
            state = state.wrapping_mul(6364136223846793005).wrapping_add(1442695040888963407);
            order.swap(i, (state >> 33) as usize % (i + 1));
        }
        let events: Vec<NostrEvent> = order.iter().map(|_| event("a", "x")).collect();
        let detections: Vec<_> = order.iter().map(|&i| detection(base[i].0, base[i].1)).collect();
        let output = build_language_index(&events, &detections, conf(0.5), 3);
        assert_eq!(profile_of(&output, "a"), pairs(&[("en", 0.95), ("ja", 0.9), ("de", 0.8)]));
        let output = build_language_index(&events, &detections, conf(0.5), 4);
        assert_eq!(
            profile_of(&output, "a"),
            pairs(&[("en", 0.95), ("ja", 0.9), ("de", 0.8), ("fr", 0.7)])
        );
    }
}

#[test]
fn events_are_classified_and_profiled() {
    let events = vec![
        event("alice", "Hello, this is a test message in English."),
        event("bob", "こんにちは、これは日本語のテストメッセージです。"),
        event("alice", "There is no reason not to learn another language, is there?"),
        event("carol", ""),
        event("dave", "1234567890"),
    ];
    let output = process_events_for_language_index(&events, conf(0.5), 5);
    assert_eq!(output.result.events_processed, 5);
    assert_eq!(output.result.events_with_language, 3);
    assert_eq!(output.result.users, 2);
    assert!(output.user_languages.get("alice").unwrap().has_language("en"));
    assert!(output.user_languages.get("bob").unwrap().has_language("ja"));
    assert_eq!(output.result.by_lang.get("en"), Some(&1));
    assert_eq!(output.result.by_lang.get("ja"), Some(&1));
    let nothing = process_events_for_language_index(&events, u64::MAX, 5);
    assert_eq!(nothing.result.users, 0);
    assert_eq!(nothing.result.events_with_language, 0);
}

#[test]
fn speakers_are_counted_per_language() {
    let mut map: StrMap<UserLanguages> = StrMap::new();
    for (author, langs) in [("a", vec!["en", "ja"]), ("b", vec!["en"]), ("c", vec![])] {
        let mut profile = UserLanguages::new();
        for lang in langs {
            profile.add_language(lang.to_string(), conf(0.5), 5);
        }
        map.insert(author.to_string(), profile);
    }
    let counts = count_speakers(&map);
    assert_eq!(counts.len(), 2);
    assert_eq!(counts.get("en"), Some(&2));
    assert_eq!(counts.get("ja"), Some(&1));
}

#[test]
fn str_map_keeps_keys_in_order_of_insertion() {
    let mut map: StrMap<u32> = StrMap::new();
    assert!(map.is_empty());
    assert_eq!(map.insert("b".to_string(), 1), None);
    assert_eq!(map.insert("a".to_string(), 2), None);
    assert_eq!(map.insert("b".to_string(), 3), Some(1));
    assert_eq!(map.len(), 2);
    assert_eq!(map.key_at(0), "b");
    assert_eq!(map.key_at(1), "a");
    assert_eq!(*map.value_at(0), 3);
    assert_eq!(map.position("a"), Some(1));
    assert_eq!(map.position("c"), None);
    assert_eq!(map.replace_at(1, 7), 2);
    assert_eq!(map.get("a"), Some(&7));
    assert!(map.contains_key("b") && !map.contains_key("c"));
}

#[test]
fn author_set_holds_each_author_once() {
    let mut set = AuthorSet::new();
    assert!(set.is_empty());
    assert!(set.insert("x".to_string()));
    assert!(set.insert("y".to_string()));
    assert!(!set.insert("x".to_string()));
    assert_eq!(set.len(), 2);
    assert_eq!(set.member_at(0), "x");
    assert_eq!(set.member_at(1), "y");
    assert!(set.contains("y") && !set.contains("z"));
}

#[test]
fn errors_are_put_in_words() {
    let text = |e: AnalyticsError| e.to_string();
    assert_eq!(text(AnalyticsError::RelayConnection("x".into())), "Relay connection error: x");
    assert_eq!(text(AnalyticsError::EventParsing("x".into())), "Event parsing error: x");
    assert_eq!(text(AnalyticsError::LanguageDetection("x".into())), "Language detection error: x");
    assert_eq!(text(AnalyticsError::Serialization("x".into())), "Serialization error: x");
    assert_eq!(text(AnalyticsError::InvalidParameter("x".into())), "Invalid parameter: x");
    assert_eq!(text(AnalyticsError::Computation("".into())), "Computation error: ");
    assert_eq!(text(AnalyticsError::NostrSdk("x y".into())), "Nostr SDK error: x y");
}

#[test]
fn truncation_keeps_the_best_of_random_profiles() {
    let mut state: u64 = 0x9e37_79b9_7f4a_7c15;
    let mut next = move |bound: u64| {
        state = state.wrapping_mul(6364136223846793005).wrapping_add(1442695040888963407);
        (state >> 33) % bound
    };
    for _ in 0..300 {
        let cap = next(6) as u8;
        let steps = next(25) as usize;
        let mut best: Vec<(String, f64)> = Vec::new();
        let mut user_langs = UserLanguages::new();
        for _ in 0..steps {
            let lang = format!("l{}", next(9));
            let confidence = next(5) as f64 / 4.0;
            user_langs.add_language(lang.clone(), conf(confidence), cap);
            match best.iter_mut().find(|(code, _)| *code == lang) {
                Some(entry) => entry.1 = entry.1.max(confidence),
                None => best.push((lang, confidence)),
            }
            assert!(user_langs.languages.len() <= cap as usize);
        }
        let mut ranked: Vec<(String, f64)> = Vec::new();
        for entry in best {
            let place = ranked
                .iter()
                .position(|other| entry.1 > other.1 || (entry.1 == other.1 && entry.0 < other.0))
                .unwrap_or(ranked.len());
            ranked.insert(place, entry);
        }
        ranked.truncate(cap as usize);
        assert_eq!(entries(&user_langs.languages), ranked);
    }
}

#[test]
fn activity_is_recorded_by_day() {
    let mut bucket = nostr_analytics::ActivityBucket::new();
    assert!(bucket.authors_on(3).is_none());
    bucket.record(3, "a".to_string());
    bucket.record(3, "b".to_string());
    bucket.record(3, "a".to_string());
    bucket.record(u32::MAX, "a".to_string());
    assert_eq!(bucket.authors_on(3).unwrap().len(), 2);
    assert_eq!(bucket.authors_on(u32::MAX).unwrap().len(), 1);
    assert!(bucket.authors_on(4).is_none());
}

#[test]
fn confidence_bit_patterns_order_as_the_values() {
    let mut values = vec![0.0f64, f64::MIN_POSITIVE, 1e-300, 0.1, 0.25, 0.5, 0.75, 1.0];
    let mut state: u64 = 7;
    for _ in 0..2000 {
        state = state.wrapping_mul(6364136223846793005).wrapping_add(1442695040888963407);
        values.push((state >> 11) as f64 / (1u64 << 53) as f64);
    }
    for a in &values {
        assert!(*a >= 0.0 && *a <= 1.0);
        assert!(conf(*a) <= nostr_analytics::CONFIDENCE_ONE);
        for b in values.iter().take(60) {
            assert_eq!(a >= b, conf(*a) >= conf(*b));
            assert_eq!(a == b, conf(*a) == conf(*b));
        }
    }
}

#[test]
fn the_index_does_not_depend_on_the_order_of_the_batch() {
    let base = [
        ("alice", "en", 0.6),
        ("bob", "ja", 0.9),
        ("alice", "en", 0.95),
        ("carol", "de", 0.7),
        ("alice", "fr", 0.7),
        ("bob", "ja", 0.55),
        ("carol", "de", 0.3),
        ("dave", "en", 0.2),
        ("bob", "en", 0.7),
    ];
    let index_of = |order: &[usize]| {
        let events: Vec<NostrEvent> = order.iter().map(|&i| event(base[i].0, "x")).collect();
        let detections: Vec<_> = order.iter().map(|&i| detection(base[i].1, base[i].2)).collect();
        let output = build_language_index(&events, &detections, conf(0.5), 2);
        let mut profiles: Vec<(String, Vec<(String, f64)>)> = (0..output.user_languages.len())
            .map(|i| {
                let author = output.user_languages.key_at(i).clone();
                let profile = entries(&output.user_languages.value_at(i).languages);
                (author, profile)
            })
            .collect();
        profiles.sort_by_key(|profile| profile.0.clone());
        let mut by_lang = output.result.by_lang();
        by_lang.sort();
        let result = &output.result;
        (profiles, by_lang, result.users, result.events_processed, result.events_with_language)
    };
    let mut order: Vec<usize> = (0..base.len()).collect();
    let expected = index_of(&order);
    assert_eq!(expected.2, 3);
    assert_eq!(expected.3, 9);
    assert_eq!(expected.4, 7);
    assert_eq!(
        expected.1,
        vec![
            ("de".to_string(), 1),
            ("en".to_string(), 2),
            ("fr".to_string(), 1),
            ("ja".to_string(), 1)
        ]
    );
    let mut state: u64 = 12345;
    for _ in 0..200 {
        for i in (1..order.len()).rev() {
            state = state.wrapping_mul(6364136223846793005).wrapping_add(1442695040888963407);
            order.swap(i, (state >> 33) as usize % (i + 1));
        }
        assert_eq!(index_of(&order), expected);
    }
}
