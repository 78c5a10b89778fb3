//! What holds of the profiles that the builder makes: who has one, what it
//! keeps, and that the order of the events does not matter.

use crate::index::profiles_of;
use crate::profile_builder::{
    code_in, confidence_in, detections_of, is_language_index, profile_of, profiles_after,
    qualifies, qualifying_count, Detected, LanguageIndexOutput,
};
use crate::ranking::{
    lemma_top_languages_size, lemma_truncation_commutes, lemma_with_detection_finite,
    top_languages, with_detection, Scores,
};
use crate::relay_client::NostrEvent;
use crate::types::Confidence;
use vstd::prelude::*;
use vstd::relations::injective_on;
use vstd::set_lib::{lemma_int_range, lemma_map_size, lemma_subset_equality, set_int_range};

verus! {

/// An author has a profile exactly where one of the author's events
/// qualifies.
pub proof fn lemma_profiled_authors(
    events: Seq<NostrEvent>,
    detections: Seq<Detected>,
    threshold: Confidence,
    cap: nat,
    author: Seq<char>,
)
    requires
        detections.len() == events.len(),
    ensures
        profiles_after(events, detections, threshold, cap).contains_key(author) <==> exists|
            i: int,
        |
            0 <= i < events.len() && qualifies(#[trigger] events[i], detections[i], threshold)
                && events[i].pubkey@ == author,
    decreases events.len(),
{
    if events.len() > 0 {
        let short_e = events.drop_last();
        let short_d = detections.drop_last();
        let last = events.len() - 1;
        lemma_profiled_authors(short_e, short_d, threshold, cap, author);
        if profiles_after(short_e, short_d, threshold, cap).contains_key(author) {
            let i = choose|i: int|
                0 <= i < short_e.len() && qualifies(#[trigger] short_e[i], short_d[i], threshold)
                    && short_e[i].pubkey@ == author;
            assert(qualifies(events[i], detections[i], threshold) && events[i].pubkey@ == author);
        }
        if exists|i: int|
            0 <= i < events.len() && qualifies(#[trigger] events[i], detections[i], threshold)
                && events[i].pubkey@ == author {
            let i = choose|i: int|
                0 <= i < events.len() && qualifies(#[trigger] events[i], detections[i], threshold)
                    && events[i].pubkey@ == author;
            if i < last {
                assert(qualifies(short_e[i], short_d[i], threshold) && short_e[i].pubkey@
                    == author);
            }
        }
    }
}

/// The best confidence of each language among the qualifying detections for
/// the events of `author`, with nothing dropped.
pub open spec fn best_scores(
    events: Seq<NostrEvent>,
    detections: Seq<Detected>,
    threshold: Confidence,
    author: Seq<char>,
) -> Scores
    decreases events.len(),
{
    if events.len() == 0 || detections.len() != events.len() {
        Scores::empty()
    } else {
        let before = best_scores(events.drop_last(), detections.drop_last(), threshold, author);
        if qualifies(events.last(), detections.last(), threshold) && events.last().pubkey@
            == author {
            with_detection(before, code_in(detections.last()), confidence_in(detections.last()))
        } else {
            before
        }
    }
}

/// The event at `i` is one of `author` with a qualifying detection of `lang`.
pub open spec fn detects(
    events: Seq<NostrEvent>,
    detections: Seq<Detected>,
    threshold: Confidence,
    author: Seq<char>,
    lang: Seq<char>,
    i: int,
) -> bool {
    &&& 0 <= i < events.len()
    &&& qualifies(events[i], detections[i], threshold)
    &&& events[i].pubkey@ == author
    &&& code_in(detections[i]) == lang
}

/// `confidence` is the maximum confidence among the qualifying detections of
/// `lang` for the events of `author`: one of them has it and none exceeds it.
pub open spec fn is_maximum_confidence(
    events: Seq<NostrEvent>,
    detections: Seq<Detected>,
    threshold: Confidence,
    author: Seq<char>,
    lang: Seq<char>,
    confidence: Confidence,
) -> bool {
    &&& exists|i: int| #[trigger]
        detects(events, detections, threshold, author, lang, i) && confidence_in(detections[i])
            == confidence
    &&& forall|i: int| #[trigger]
        detects(events, detections, threshold, author, lang, i) ==> confidence_in(detections[i])
            <= confidence
}

/// The best scores of an author are finitely many; they hold a language
/// exactly where some qualifying detection does, with the maximum of the
/// confidences detected for it.
pub proof fn lemma_best_scores_hold_maximum(
    events: Seq<NostrEvent>,
    detections: Seq<Detected>,
    threshold: Confidence,
    author: Seq<char>,
)
    requires
        detections.len() == events.len(),
    ensures
        best_scores(events, detections, threshold, author).dom().finite(),
        forall|lang: Seq<char>| #[trigger]
            best_scores(events, detections, threshold, author).contains_key(lang) <==> exists|
                i: int,
            | #[trigger] detects(events, detections, threshold, author, lang, i),
        forall|lang: Seq<char>| #[trigger]
            best_scores(events, detections, threshold, author).contains_key(lang)
                ==> is_maximum_confidence(
                events,
                detections,
                threshold,
                author,
                lang,
                best_scores(events, detections, threshold, author)[lang],
            ),
    decreases events.len(),
{
    let best = best_scores(events, detections, threshold, author);
    if events.len() == 0 {
        assert(best.dom() =~= Set::<Seq<char>>::empty());
    } else {
        let short_e = events.drop_last();
        let short_d = detections.drop_last();
        let before = best_scores(short_e, short_d, threshold, author);
        let last = events.len() - 1;
        lemma_best_scores_hold_maximum(short_e, short_d, threshold, author);
        lemma_with_detection_finite(
            before,
            code_in(detections.last()),
            confidence_in(detections.last()),
        );
        assert forall|lang: Seq<char>, i: int| #[trigger]
            detects(events, detections, threshold, author, lang, i) <==> (i < last && detects(
                short_e,
                short_d,
                threshold,
                author,
                lang,
                i,
            )) || (i == last && detects(events, detections, threshold, author, lang, last)) by {
            if 0 <= i < last {
                assert(short_e[i] == events[i] && short_d[i] == detections[i]);
            }
        }
        assert forall|lang: Seq<char>| #[trigger]
            best.contains_key(lang) <==> exists|i: int| #[trigger]
                detects(events, detections, threshold, author, lang, i) by {
            if before.contains_key(lang) {
                let i = choose|i: int| #[trigger]
                    detects(short_e, short_d, threshold, author, lang, i);
                assert(detects(events, detections, threshold, author, lang, i));
            }
            if detects(events, detections, threshold, author, lang, last) {
                assert(best.contains_key(lang));
            }
            if exists|i: int| #[trigger] detects(events, detections, threshold, author, lang, i) {
                let i = choose|i: int| #[trigger]
                    detects(events, detections, threshold, author, lang, i);
                if i < last {
                    assert(detects(short_e, short_d, threshold, author, lang, i));
                }
            }
        }
        assert forall|lang: Seq<char>| #[trigger]
            best.contains_key(lang) implies is_maximum_confidence(
            events,
            detections,
            threshold,
            author,
            lang,
            best[lang],
        ) by {
            let here = detects(events, detections, threshold, author, lang, last);
            if before.contains_key(lang) {
                let i = choose|i: int| #[trigger]
                    detects(short_e, short_d, threshold, author, lang, i) && confidence_in(
                        short_d[i],
                    ) == before[lang];
                assert(detects(events, detections, threshold, author, lang, i));
                assert(confidence_in(detections[i]) == before[lang]);
                if here && confidence_in(detections[last]) > before[lang] {
                    assert(best[lang] == confidence_in(detections[last]));
                } else {
                    assert(best[lang] == before[lang]);
                }
                assert forall|k: int| #[trigger]
                    detects(events, detections, threshold, author, lang, k) implies confidence_in(
                    detections[k],
                ) <= best[lang] by {
                    if k < last {
                        assert(detects(short_e, short_d, threshold, author, lang, k));
                    }
                }
            } else {
                assert(here);
                assert(best[lang] == confidence_in(detections[last]));
                assert forall|k: int| #[trigger]
                    detects(events, detections, threshold, author, lang, k) implies confidence_in(
                    detections[k],
                ) <= best[lang] by {
                    if k < last {
                        assert(detects(short_e, short_d, threshold, author, lang, k));
                    }
                }
            }
        }
    }
}

/// The profile of an author is the cut of the author's best scores: the
/// languages that are kept are the `cap` best-ranked of all that were
/// detected, each with its best confidence, in whatever order the events
/// came.
pub proof fn lemma_profile_is_top_of_best(
    events: Seq<NostrEvent>,
    detections: Seq<Detected>,
    threshold: Confidence,
    cap: nat,
    author: Seq<char>,
)
    requires
        detections.len() == events.len(),
    ensures
        profile_of(profiles_after(events, detections, threshold, cap), author) == top_languages(
            best_scores(events, detections, threshold, author),
            cap,
        ),
    decreases events.len(),
{
    let best = best_scores(events, detections, threshold, author);
    lemma_best_scores_hold_maximum(events, detections, threshold, author);
    if events.len() == 0 {
        assert(top_languages(best, cap) =~= Scores::empty());
    } else {
        let short_e = events.drop_last();
        let short_d = detections.drop_last();
        let before = best_scores(short_e, short_d, threshold, author);
        lemma_profile_is_top_of_best(short_e, short_d, threshold, cap, author);
        lemma_best_scores_hold_maximum(short_e, short_d, threshold, author);
        if qualifies(events.last(), detections.last(), threshold) && events.last().pubkey@
            == author {
            lemma_truncation_commutes(
                before,
                cap,
                code_in(detections.last()),
                confidence_in(detections.last()),
            );
        }
    }
}

/// The confidence that a profile holds for a language is the maximum
/// confidence among the qualifying detections of that language for the
/// author, in whatever order the events came.
pub proof fn lemma_profile_holds_maximum(
    events: Seq<NostrEvent>,
    detections: Seq<Detected>,
    threshold: Confidence,
    cap: nat,
    author: Seq<char>,
    lang: Seq<char>,
)
    requires
        detections.len() == events.len(),
        profiles_after(events, detections, threshold, cap).contains_key(author),
        profiles_after(events, detections, threshold, cap)[author].contains_key(lang),
    ensures
        is_maximum_confidence(
            events,
            detections,
            threshold,
            author,
            lang,
            profiles_after(events, detections, threshold, cap)[author][lang],
        ),
{
    lemma_profile_is_top_of_best(events, detections, threshold, cap, author);
    lemma_best_scores_hold_maximum(events, detections, threshold, author);
    lemma_top_languages_size(best_scores(events, detections, threshold, author), cap);
}

/// A detection whose confidence is exactly the threshold qualifies: the
/// bound is inclusive.
pub proof fn lemma_threshold_is_inclusive(event: NostrEvent, detection: Detected)
    requires
        event.content@.len() > 0,
        detection is Some,
    ensures
        qualifies(event, detection, confidence_in(detection)),
{
}

/// Some event of `author` has a qualifying detection of `lang` with
/// `confidence`.
pub open spec fn detected_with(
    events: Seq<NostrEvent>,
    detections: Seq<Detected>,
    threshold: Confidence,
    author: Seq<char>,
    lang: Seq<char>,
    confidence: Confidence,
) -> bool {
    exists|i: int| #[trigger]
        detects(events, detections, threshold, author, lang, i) && confidence_in(detections[i])
            == confidence
}

/// The profile of an author depends on the qualifying detections for the
/// author's events only as a set: two batches with the same detections for
/// the author, in whatever order and however often, give the same profile.
pub proof fn lemma_profile_order_independent(
    events: Seq<NostrEvent>,
    detections: Seq<Detected>,
    other_events: Seq<NostrEvent>,
    other_detections: Seq<Detected>,
    threshold: Confidence,
    cap: nat,
    author: Seq<char>,
)
    requires
        detections.len() == events.len(),
        other_detections.len() == other_events.len(),
        forall|lang: Seq<char>, confidence: Confidence| #[trigger]
            detected_with(events, detections, threshold, author, lang, confidence)
                <==> detected_with(
                other_events,
                other_detections,
                threshold,
                author,
                lang,
                confidence,
            ),
    ensures
        profile_of(profiles_after(events, detections, threshold, cap), author) == profile_of(
            profiles_after(other_events, other_detections, threshold, cap),
            author,
        ),
{
    let best = best_scores(events, detections, threshold, author);
    let other = best_scores(other_events, other_detections, threshold, author);
    lemma_best_scores_hold_maximum(events, detections, threshold, author);
    lemma_best_scores_hold_maximum(other_events, other_detections, threshold, author);
    assert forall|lang: Seq<char>| best.contains_key(lang) implies other.contains_key(lang)
        && other[lang] >= best[lang] by {
        assert(is_maximum_confidence(events, detections, threshold, author, lang, best[lang]));
        assert(detected_with(events, detections, threshold, author, lang, best[lang]));
        assert(detected_with(other_events, other_detections, threshold, author, lang, best[lang]));
        let j = choose|j: int| #[trigger]
            detects(other_events, other_detections, threshold, author, lang, j) && confidence_in(
                other_detections[j],
            ) == best[lang];
        assert(other.contains_key(lang));
        assert(is_maximum_confidence(
            other_events,
            other_detections,
            threshold,
            author,
            lang,
            other[lang],
        ));
    }
    assert forall|lang: Seq<char>| other.contains_key(lang) implies best.contains_key(lang)
        && best[lang] >= other[lang] by {
        assert(is_maximum_confidence(
            other_events,
            other_detections,
            threshold,
            author,
            lang,
            other[lang],
        ));
        assert(detected_with(other_events, other_detections, threshold, author, lang, other[lang]));
        assert(detected_with(events, detections, threshold, author, lang, other[lang]));
        let i = choose|i: int| #[trigger]
            detects(events, detections, threshold, author, lang, i) && confidence_in(
                detections[i],
            ) == other[lang];
        assert(best.contains_key(lang));
        assert(is_maximum_confidence(events, detections, threshold, author, lang, best[lang]));
    }
    assert(best =~= other);
    lemma_profile_is_top_of_best(events, detections, threshold, cap, author);
    lemma_profile_is_top_of_best(other_events, other_detections, threshold, cap, author);
}

/// `order` lists the numbers below `n`, each once.
pub open spec fn is_reordering(order: Seq<int>, n: nat) -> bool {
    &&& order.len() == n
    &&& order.no_duplicates()
    &&& forall|j: int| 0 <= j < n ==> 0 <= #[trigger] order[j] < n
}

/// `other` holds the items of `batch` in the order `order`: its item at `j`
/// is the item of `batch` at `order[j]`.
pub open spec fn is_reordered<T>(batch: Seq<T>, other: Seq<T>, order: Seq<int>) -> bool {
    &&& is_reordering(order, batch.len())
    &&& other.len() == batch.len()
    &&& forall|j: int| 0 <= j < other.len() ==> #[trigger] other[j] == batch[order[j]]
}

/// A reordering reaches every place.
pub proof fn lemma_reordering_is_onto(order: Seq<int>, n: nat, i: int)
    requires
        is_reordering(order, n),
        0 <= i < n,
    ensures
        exists|j: int| 0 <= j < n && #[trigger] order[j] == i,
{
    let places = set_int_range(0, n as int);
    lemma_int_range(0, n as int);
    order.unique_seq_to_set();
    vstd::seq_lib::seq_to_set_is_finite(order);
    assert forall|k: int| order.to_set().contains(k) implies places.contains(k) by {
        let j = choose|j: int| 0 <= j < order.len() && order[j] == k;
        assert(0 <= order[j] < n);
    }
    lemma_subset_equality(order.to_set(), places);
    assert(places.contains(i));
    assert(order.contains(i));
    let j = choose|j: int| 0 <= j < order.len() && order[j] == i;
    assert(0 <= j < n && order[j] == i);
}

/// The places of the events that qualify.
pub open spec fn qualifying_places(
    events: Seq<NostrEvent>,
    detections: Seq<Detected>,
    threshold: Confidence,
) -> Set<int> {
    Set::new(|i: int| 0 <= i < events.len() && qualifies(events[i], detections[i], threshold))
}

/// The number of qualifying events is the number of their places.
pub proof fn lemma_qualifying_count_is_cardinality(
    events: Seq<NostrEvent>,
    detections: Seq<Detected>,
    threshold: Confidence,
)
    requires
        detections.len() == events.len(),
    ensures
        qualifying_places(events, detections, threshold).finite(),
        qualifying_places(events, detections, threshold).len() == qualifying_count(
            events,
            detections,
            threshold,
        ),
    decreases events.len(),
{
    let places = qualifying_places(events, detections, threshold);
    if events.len() == 0 {
        assert(places =~= Set::<int>::empty());
    } else {
        let short_e = events.drop_last();
        let short_d = detections.drop_last();
        let last = events.len() - 1;
        let earlier = qualifying_places(short_e, short_d, threshold);
        lemma_qualifying_count_is_cardinality(short_e, short_d, threshold);
        assert forall|i: int| 0 <= i < last implies short_e[i] == events[i] && short_d[i]
            == detections[i] by {}
        if qualifies(events.last(), detections.last(), threshold) {
            assert(places =~= earlier.insert(last));
        } else {
            assert(places =~= earlier);
        }
    }
}

/// A batch in another order gives the same profiles and the same number of
/// qualifying events.
pub proof fn lemma_profiles_of_reordered_batch(
    events: Seq<NostrEvent>,
    detections: Seq<Detected>,
    other_events: Seq<NostrEvent>,
    other_detections: Seq<Detected>,
    order: Seq<int>,
    threshold: Confidence,
    cap: nat,
)
    requires
        detections.len() == events.len(),
        is_reordered(events, other_events, order),
        is_reordered(detections, other_detections, order),
    ensures
        profiles_after(other_events, other_detections, threshold, cap) == profiles_after(
            events,
            detections,
            threshold,
            cap,
        ),
        qualifying_count(other_events, other_detections, threshold) == qualifying_count(
            events,
            detections,
            threshold,
        ),
{
    let n = events.len();
    let here = profiles_after(events, detections, threshold, cap);
    let there = profiles_after(other_events, other_detections, threshold, cap);
    assert forall|author: Seq<char>| #[trigger]
        here.contains_key(author) <==> there.contains_key(author) by {
        lemma_profiled_authors(events, detections, threshold, cap, author);
        lemma_profiled_authors(other_events, other_detections, threshold, cap, author);
        if here.contains_key(author) {
            let i = choose|i: int|
                0 <= i < events.len() && qualifies(#[trigger] events[i], detections[i], threshold)
                    && events[i].pubkey@ == author;
            lemma_reordering_is_onto(order, n, i);
            let j = choose|j: int| 0 <= j < n && #[trigger] order[j] == i;
            assert(other_events[j] == events[i] && other_detections[j] == detections[i]);
        }
        if there.contains_key(author) {
            let j = choose|j: int|
                0 <= j < other_events.len() && qualifies(
                    #[trigger] other_events[j],
                    other_detections[j],
                    threshold,
                ) && other_events[j].pubkey@ == author;
            let i = order[j];
            assert(other_events[j] == events[i] && other_detections[j] == detections[i]);
        }
    }
    assert forall|author: Seq<char>| here.contains_key(author) implies #[trigger] here[author]
        == there[author] by {
        assert forall|lang: Seq<char>, confidence: Confidence| #[trigger]
            detected_with(events, detections, threshold, author, lang, confidence)
                <==> detected_with(
                other_events,
                other_detections,
                threshold,
                author,
                lang,
                confidence,
            ) by {
            if detected_with(events, detections, threshold, author, lang, confidence) {
                let i = choose|i: int| #[trigger]
                    detects(events, detections, threshold, author, lang, i) && confidence_in(
                        detections[i],
                    ) == confidence;
                lemma_reordering_is_onto(order, n, i);
                let j = choose|j: int| 0 <= j < n && #[trigger] order[j] == i;
                assert(other_events[j] == events[i] && other_detections[j] == detections[i]);
                assert(detects(other_events, other_detections, threshold, author, lang, j));
            }
            if detected_with(other_events, other_detections, threshold, author, lang, confidence) {
                let j = choose|j: int| #[trigger]
                    detects(other_events, other_detections, threshold, author, lang, j)
                        && confidence_in(other_detections[j]) == confidence;
                let i = order[j];
                assert(other_events[j] == events[i] && other_detections[j] == detections[i]);
                assert(detects(events, detections, threshold, author, lang, i));
            }
        }
        lemma_profile_order_independent(
            events,
            detections,
            other_events,
            other_detections,
            threshold,
            cap,
            author,
        );
    }
    assert(there =~= here);

    let places = qualifying_places(events, detections, threshold);
    let other_places = qualifying_places(other_events, other_detections, threshold);
    lemma_qualifying_count_is_cardinality(events, detections, threshold);
    lemma_qualifying_count_is_cardinality(other_events, other_detections, threshold);
    let to = |j: int| order[j];
    assert(injective_on(to, other_places));
    assert forall|i: int| other_places.map(to).contains(i) <==> places.contains(i) by {
        if other_places.map(to).contains(i) {
            let j = choose|j: int| other_places.contains(j) && i == to(j);
            assert(other_events[j] == events[i] && other_detections[j] == detections[i]);
        }
        if places.contains(i) {
            lemma_reordering_is_onto(order, n, i);
            let j = choose|j: int| 0 <= j < n && #[trigger] order[j] == i;
            assert(other_events[j] == events[i] && other_detections[j] == detections[i]);
            assert(other_places.contains(j) && i == to(j));
        }
    }
    assert(other_places.map(to) =~= places);
    lemma_map_size(other_places, places, to);
}

/// The language index does not depend on the order of the batch: the indexes
/// of a batch and of the same batch in another order hold the same profiles
/// and the same statistics.
pub proof fn lemma_language_index_order_independent(
    output: LanguageIndexOutput,
    other_output: LanguageIndexOutput,
    events: Seq<NostrEvent>,
    detections: Seq<Detected>,
    other_events: Seq<NostrEvent>,
    other_detections: Seq<Detected>,
    order: Seq<int>,
    threshold: Confidence,
    cap: nat,
)
    requires
        detections.len() == events.len(),
        is_reordered(events, other_events, order),
        is_reordered(detections, other_detections, order),
        is_language_index(output, events, detections, threshold, cap),
        is_language_index(other_output, other_events, other_detections, threshold, cap),
    ensures
        profiles_of(other_output.user_languages@) == profiles_of(output.user_languages@),
        other_output.result.users == output.result.users,
        other_output.result.by_lang@ == output.result.by_lang@,
        other_output.result.events_processed == output.result.events_processed,
        other_output.result.events_with_language == output.result.events_with_language,
{
    lemma_profiles_of_reordered_batch(
        events,
        detections,
        other_events,
        other_detections,
        order,
        threshold,
        cap,
    );
}

/// The detections that the library makes for a batch in another order are
/// the detections for the batch, in that order: the classifier decides by
/// the text of each event alone.
pub proof fn lemma_detections_follow_the_events(
    events: Seq<NostrEvent>,
    other_events: Seq<NostrEvent>,
    order: Seq<int>,
)
    requires
        is_reordered(events, other_events, order),
    ensures
        is_reordered(detections_of(events), detections_of(other_events), order),
{
}

} // verus!
