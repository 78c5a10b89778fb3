//! The language profile builder: from the events of a batch and the
//! detections made for them to the profile of each author and the
//! statistics of the index.

use crate::index::{profiles_of, LanguageIndexResult, Profiles};
use crate::language::{classifier_output, detect_language, detection_for, Reading};
use crate::language_stats::{count_speakers, language_counts};
use crate::profile::UserLanguages;
use crate::ranking::{top_languages, with_detection, Scores};
use crate::relay_client::NostrEvent;
use crate::str_map::StrMap;
use crate::types::{Confidence, LanguageCode};
use vstd::prelude::*;

verus! {

/// A detection as the builder takes it: the code of the language and the
/// confidence, or nothing.
pub type Detected = Option<(Seq<char>, Confidence)>;

/// The detection that a result of the library's detection holds.
pub open spec fn detected_in(reading: Reading) -> Detected {
    match reading {
        Reading::Language(code, confidence) => Some((code, confidence)),
        _ => None,
    }
}

/// The detection that the library makes for the content of `event`.
pub open spec fn detection_of(event: NostrEvent) -> Detected {
    detected_in(detection_for(event.content@, classifier_output(event.content@)))
}

/// The detections that the library makes for `events`, one for each.
pub open spec fn detections_of(events: Seq<NostrEvent>) -> Seq<Detected> {
    Seq::new(events.len(), |i: int| detection_of(events[i]))
}

/// The detection that a value handed to the builder stands for.
pub open spec fn detected_view(detection: Option<(LanguageCode, Confidence)>) -> Detected {
    match detection {
        Some((code, confidence)) => Some((code@, confidence)),
        None => None,
    }
}

/// The detections that a vector handed to the builder stands for.
pub open spec fn detections_view(detections: Seq<Option<(LanguageCode, Confidence)>>) -> Seq<
    Detected,
> {
    Seq::new(detections.len(), |i: int| detected_view(detections[i]))
}

/// `event` with its `detection` counts for the profile of its author: its
/// content is not empty, a language was detected, and the confidence is at
/// least `threshold`.
pub open spec fn qualifies(event: NostrEvent, detection: Detected, threshold: Confidence) -> bool {
    event.content@.len() > 0 && detection is Some && confidence_in(detection) >= threshold
}

/// The language code of a detection; the empty code where there is none.
pub open spec fn code_in(detection: Detected) -> Seq<char> {
    match detection {
        Some((code, _)) => code,
        None => Seq::empty(),
    }
}

/// The confidence of a detection; zero where there is none.
pub open spec fn confidence_in(detection: Detected) -> Confidence {
    match detection {
        Some((_, confidence)) => confidence,
        None => 0,
    }
}

/// The profile that `profiles` holds for `author`; empty where it has none.
pub open spec fn profile_of(profiles: Profiles, author: Seq<char>) -> Scores {
    if profiles.contains_key(author) {
        profiles[author]
    } else {
        Scores::empty()
    }
}

/// The profiles after the events `events` with the detections `detections`
/// were taken in, in order: each qualifying detection is recorded in the
/// profile of the event's author, which is then cut down to its `cap` best
/// languages.
pub open spec fn profiles_after(
    events: Seq<NostrEvent>,
    detections: Seq<Detected>,
    threshold: Confidence,
    cap: nat,
) -> Profiles
    decreases events.len(),
{
    if events.len() == 0 || detections.len() != events.len() {
        Profiles::empty()
    } else {
        let before = profiles_after(events.drop_last(), detections.drop_last(), threshold, cap);
        if qualifies(events.last(), detections.last(), threshold) {
            let author = events.last().pubkey@;
            before.insert(
                author,
                top_languages(
                    with_detection(
                        profile_of(before, author),
                        code_in(detections.last()),
                        confidence_in(detections.last()),
                    ),
                    cap,
                ),
            )
        } else {
            before
        }
    }
}

/// The number of events of `events` that qualify.
pub open spec fn qualifying_count(
    events: Seq<NostrEvent>,
    detections: Seq<Detected>,
    threshold: Confidence,
) -> nat
    decreases events.len(),
{
    if events.len() == 0 || detections.len() != events.len() {
        0
    } else {
        qualifying_count(events.drop_last(), detections.drop_last(), threshold) + if qualifies(
            events.last(),
            detections.last(),
            threshold,
        ) {
            1nat
        } else {
            0nat
        }
    }
}

/// No more events qualify than there are.
pub proof fn lemma_qualifying_count_bound(
    events: Seq<NostrEvent>,
    detections: Seq<Detected>,
    threshold: Confidence,
)
    ensures
        qualifying_count(events, detections, threshold) <= events.len(),
    decreases events.len(),
{
    if events.len() > 0 && detections.len() == events.len() {
        lemma_qualifying_count_bound(events.drop_last(), detections.drop_last(), threshold);
    }
}

/// The profiles of `events` under the detections `detections`: the part of
/// the index that is built event by event.
pub fn build_profiles(
    events: &Vec<NostrEvent>,
    detections: &Vec<Option<(LanguageCode, Confidence)>>,
    conf_thresh: Confidence,
    max_langs_per_user: u8,
) -> (built: (StrMap<UserLanguages>, u32))
    requires
        detections.len() == events.len(),
        events.len() <= u32::MAX,
    ensures
        profiles_of(built.0@) == profiles_after(
            events@,
            detections_view(detections@),
            conf_thresh,
            max_langs_per_user as nat,
        ),
        built.1 == qualifying_count(events@, detections_view(detections@), conf_thresh),
        built.0.keys().len() <= events.len(),
{
    let ghost found = detections_view(detections@);
    let ghost cap = max_langs_per_user as nat;
    let mut user_languages: StrMap<UserLanguages> = StrMap::new();
    let mut events_with_language: u32 = 0;
    let mut i: usize = 0;
    assert(profiles_of(user_languages@) =~= profiles_after(
        events@.take(0),
        found.take(0),
        conf_thresh,
        cap,
    ));
    while i < events.len()
        invariant
            i <= events.len(),
            detections.len() == events.len(),
            events.len() <= u32::MAX,
            found == detections_view(detections@),
            cap == max_langs_per_user as nat,
            user_languages.keys().len() <= i,
            profiles_of(user_languages@) == profiles_after(
                events@.take(i as int),
                found.take(i as int),
                conf_thresh,
                cap,
            ),
            events_with_language == qualifying_count(
                events@.take(i as int),
                found.take(i as int),
                conf_thresh,
            ),
        decreases events.len() - i,
    {
        let event = &events[i];
        let ghost before = profiles_of(user_languages@);
        proof {
            assert(events@.take(i + 1).drop_last() =~= events@.take(i as int));
            assert(found.take(i + 1).drop_last() =~= found.take(i as int));
            assert(events@.take(i + 1).last() == events@[i as int]);
            assert(found.take(i + 1).last() == detected_view(detections@[i as int]));
            lemma_qualifying_count_bound(events@.take(i as int), found.take(i as int), conf_thresh);
        }
        if !event.get_content().is_empty() {
            match &detections[i] {
                Some((lang, confidence)) => {
                    if *confidence >= conf_thresh {
                        let author = event.get_pubkey();
                        match user_languages.position(author) {
                            Some(place) => {
                                let mut profile = user_languages.replace_at(
                                    place,
                                    UserLanguages::new(),
                                );
                                profile.add_language(
                                    lang.clone(),
                                    *confidence,
                                    max_langs_per_user,
                                );
                                user_languages.replace_at(place, profile);
                            },
                            None => {
                                let mut profile = UserLanguages::new();
                                profile.add_language(
                                    lang.clone(),
                                    *confidence,
                                    max_langs_per_user,
                                );
                                user_languages.insert(author.to_owned(), profile);
                            },
                        }
                        events_with_language += 1;
                        proof {
                            let fresh = top_languages(
                                with_detection(profile_of(before, author@), lang@, *confidence),
                                cap,
                            );
                            assert(profiles_of(user_languages@) =~= before.insert(author@, fresh));
                        }
                    }
                },
                None => {},
            }
        }
        i += 1;
    }
    proof {
        assert(events@.take(events.len() as int) =~= events@);
        assert(found.take(events.len() as int) =~= found);
    }
    (user_languages, events_with_language)
}

/// What the builder hands out: the statistics of the index, and the profile
/// of each author.
pub struct LanguageIndexOutput {
    pub result: LanguageIndexResult,
    pub user_languages: StrMap<UserLanguages>,
}

/// `output` is the language index of `events` under the detections
/// `detections`, the confidence threshold `threshold` and the cap `cap` on
/// the languages of one author.
pub open spec fn is_language_index(
    output: LanguageIndexOutput,
    events: Seq<NostrEvent>,
    detections: Seq<Detected>,
    threshold: Confidence,
    cap: nat,
) -> bool {
    let profiles = profiles_after(events, detections, threshold, cap);
    &&& profiles_of(output.user_languages@) == profiles
    &&& output.result.users == profiles.len()
    &&& output.result.by_lang@ == language_counts(profiles)
    &&& output.result.events_processed == events.len()
    &&& output.result.events_with_language == qualifying_count(events, detections, threshold)
}

/// Builds the language index of `events` from the detections made for them,
/// `detections[i]` being the detection for `events[i]`. An event counts where
/// its content is not empty and its detection has a confidence of at least
/// `conf_thresh`; each profile keeps at most `max_langs_per_user` languages.
pub fn build_language_index(
    events: &Vec<NostrEvent>,
    detections: &Vec<Option<(LanguageCode, Confidence)>>,
    conf_thresh: Confidence,
    max_langs_per_user: u8,
) -> (output: LanguageIndexOutput)
    requires
        detections.len() == events.len(),
        events.len() <= u32::MAX,
    ensures
        is_language_index(
            output,
            events@,
            detections_view(detections@),
            conf_thresh,
            max_langs_per_user as nat,
        ),
{
    let (user_languages, events_with_language) = build_profiles(
        events,
        detections,
        conf_thresh,
        max_langs_per_user,
    );
    let users = user_languages.len();
    let by_lang = count_speakers(&user_languages);
    assert(profiles_of(user_languages@).dom() =~= user_languages@.dom());
    LanguageIndexOutput {
        result: LanguageIndexResult {
            users: users as u32,
            by_lang,
            events_processed: events.len() as u32,
            events_with_language,
        },
        user_languages,
    }
}

/// Process events for language index building: detects the language of each
/// event with content, and builds the index from the detections. A detection
/// that fails is passed over and the batch goes on.
pub fn process_events_for_language_index(
    events: &Vec<NostrEvent>,
    conf_thresh: Confidence,
    max_langs_per_user: u8,
) -> (output: LanguageIndexOutput)
    requires
        events.len() <= u32::MAX,
    ensures
        is_language_index(
            output,
            events@,
            detections_of(events@),
            conf_thresh,
            max_langs_per_user as nat,
        ),
{
    let mut detections: Vec<Option<(LanguageCode, Confidence)>> = Vec::new();
    let mut i: usize = 0;
    while i < events.len()
        invariant
            i <= events.len(),
            detections.len() == i,
            forall|k: int|
                0 <= k < i ==> detected_view(#[trigger] detections@[k]) == detection_of(
                    events@[k],
                ),
        decreases events.len() - i,
    {
        let content = events[i].get_content();
        let detection = if content.is_empty() {
            None
        } else {
            match detect_language(content) {
                Ok(found) => found,
                Err(_) => None,
            }
        };
        detections.push(detection);
        i += 1;
    }
    assert(detections_view(detections@) =~= detections_of(events@));
    build_language_index(events, &detections, conf_thresh, max_langs_per_user)
}

} // verus!
