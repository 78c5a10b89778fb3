//! The order in which the languages of a profile are ranked, and what it
//! means to keep the best of them.

use crate::assoc::{has_key, keys_distinct, lemma_entry, lemma_position, map_of, position_of};
use crate::lexical::{lemma_precedes_total, lemma_precedes_transitive, precedes};
use crate::types::Confidence;
use vstd::prelude::*;
use vstd::set_lib::{lemma_len_subset, lemma_subset_equality};

verus! {

/// A profile as a mathematical map: the confidence held for each language
/// code.
pub type Scores = Map<Seq<char>, Confidence>;

/// Language `a` held with confidence `ca` ranks above language `b` held with
/// `cb`: the higher confidence first, and of two equal confidences the
/// language whose code comes first.
pub open spec fn outranks(a: Seq<char>, ca: Confidence, b: Seq<char>, cb: Confidence) -> bool {
    ca > cb || (ca == cb && precedes(a, b))
}

/// The languages of `m` that rank above `lang`.
pub open spec fn above(m: Scores, lang: Seq<char>) -> Set<Seq<char>> {
    Set::new(|k: Seq<char>| m.contains_key(k) && outranks(k, m[k], lang, m[lang]))
}

/// The number of languages of `m` that rank above `lang`.
pub open spec fn rank(m: Scores, lang: Seq<char>) -> nat {
    above(m, lang).len()
}

/// The languages of `m` that fewer than `limit` others rank above.
pub open spec fn top_set(m: Scores, limit: nat) -> Set<Seq<char>> {
    Set::new(|k: Seq<char>| m.contains_key(k) && rank(m, k) < limit)
}

/// `m` cut down to its `limit` best-ranked languages.
pub open spec fn top_languages(m: Scores, limit: nat) -> Scores {
    m.restrict(top_set(m, limit))
}

/// `m` after a detection of `lang` with `confidence`: a new language is
/// inserted, a known one keeps the larger of the two confidences.
pub open spec fn with_detection(m: Scores, lang: Seq<char>, confidence: Confidence) -> Scores {
    if m.contains_key(lang) && m[lang] >= confidence {
        m
    } else {
        m.insert(lang, confidence)
    }
}

/// A detection never lowers a confidence and never removes a language: the
/// detected language holds the larger of its old confidence and the new one,
/// every other language what it held.
pub proof fn lemma_with_detection_monotone(m: Scores, lang: Seq<char>, confidence: Confidence)
    ensures
        with_detection(m, lang, confidence).contains_key(lang),
        with_detection(m, lang, confidence)[lang] == if m.contains_key(lang) && m[lang]
            >= confidence {
            m[lang]
        } else {
            confidence
        },
        forall|k: Seq<char>|
            m.contains_key(k) ==> #[trigger] with_detection(m, lang, confidence).contains_key(k)
                && with_detection(m, lang, confidence)[k] >= m[k],
        forall|k: Seq<char>|
            k != lang && #[trigger] with_detection(m, lang, confidence).contains_key(k)
                ==> m.contains_key(k) && with_detection(m, lang, confidence)[k] == m[k],
{
}

/// Of two entries that differ in language or confidence, exactly one ranks
/// above the other; no entry ranks above itself.
pub proof fn lemma_outranks_total(a: Seq<char>, ca: Confidence, b: Seq<char>, cb: Confidence)
    ensures
        (a != b || ca != cb) ==> (outranks(a, ca, b, cb) <==> !outranks(b, cb, a, ca)),
        (a == b && ca == cb) ==> !outranks(a, ca, b, cb),
{
    lemma_precedes_total(a, b);
}

/// Ranking above is transitive.
pub proof fn lemma_outranks_transitive(
    a: Seq<char>,
    ca: Confidence,
    b: Seq<char>,
    cb: Confidence,
    c: Seq<char>,
    cc: Confidence,
)
    requires
        outranks(a, ca, b, cb),
        outranks(b, cb, c, cc),
    ensures
        outranks(a, ca, c, cc),
{
    if ca == cb && cb == cc {
        lemma_precedes_transitive(a, b, c);
    }
}

/// The entries of `s` stand in ranking order, best first.
pub open spec fn ranked(s: Seq<(String, Confidence)>) -> bool {
    forall|i: int, j: int|
        0 <= i < j < s.len() ==> outranks(
            (#[trigger] s[i]).0@,
            s[i].1,
            (#[trigger] s[j]).0@,
            s[j].1,
        )
}

/// In a ranked sequence of distinct languages, as many languages rank above
/// an entry as stand before it.
pub proof fn lemma_rank_is_index(s: Seq<(String, Confidence)>, i: int)
    requires
        keys_distinct(s),
        ranked(s),
        0 <= i < s.len(),
    ensures
        rank(map_of(s), s[i].0@) == i,
{
    let m = map_of(s);
    let lang = s[i].0@;
    let before = Seq::new(i as nat, |j: int| s[j].0@);
    lemma_entry(s, i);
    assert forall|k: Seq<char>| above(m, lang).contains(k) <==> before.to_set().contains(k) by {
        if above(m, lang).contains(k) {
            lemma_position(s, k);
            let j = position_of(s, k);
            lemma_entry(s, j);
            lemma_outranks_total(k, s[j].1, lang, s[i].1);
            if i < j {
                assert(outranks(s[i].0@, s[i].1, s[j].0@, s[j].1));
            }
            assert(j < i);
            assert(before[j] == k);
        }
        if before.contains(k) {
            let j = choose|j: int| 0 <= j < before.len() && before[j] == k;
            lemma_entry(s, j);
            assert(outranks(s[j].0@, s[j].1, s[i].0@, s[i].1));
        }
    }
    assert(above(m, lang) =~= before.to_set());
    assert(before.no_duplicates()) by {
        assert forall|a: int, b: int|
            0 <= a < before.len() && 0 <= b < before.len() && a != b implies before[a]
            != before[b] by {
            if a < b {
                assert(s[a].0@ != s[b].0@);
            } else {
                assert(s[b].0@ != s[a].0@);
            }
        }
    }
    before.unique_seq_to_set();
}

/// Cutting a ranked sequence of distinct languages after its first `n`
/// entries keeps the `n` best-ranked languages.
pub proof fn lemma_take_is_top(s: Seq<(String, Confidence)>, n: int)
    requires
        keys_distinct(s),
        ranked(s),
        0 <= n,
    ensures
        n <= s.len() ==> map_of(s.take(n)) == top_languages(map_of(s), n as nat),
        n >= s.len() ==> map_of(s) == top_languages(map_of(s), n as nat),
        n <= s.len() ==> keys_distinct(s.take(n)) && ranked(s.take(n)),
{
    let m = map_of(s);
    let top = top_languages(m, n as nat);
    assert forall|i: int| 0 <= i < s.len() implies rank(m, (#[trigger] s[i]).0@) == i by {
        lemma_rank_is_index(s, i);
    }
    if n >= s.len() {
        assert forall|k: Seq<char>| m.contains_key(k) implies top.contains_key(k) by {
            lemma_position(s, k);
            let j = position_of(s, k);
            assert(rank(m, s[j].0@) == j);
        }
        assert(m =~= top);
    }
    if n <= s.len() {
        let t = s.take(n);
        assert forall|i: int, j: int| 0 <= i < j < t.len() implies (#[trigger] t[i]).0@ != (
        #[trigger] t[j]).0@ by {
            assert(t[i] == s[i] && t[j] == s[j]);
        }
        assert forall|i: int, j: int| 0 <= i < j < t.len() implies outranks(
            (#[trigger] t[i]).0@,
            t[i].1,
            (#[trigger] t[j]).0@,
            t[j].1,
        ) by {
            assert(t[i] == s[i] && t[j] == s[j]);
        }
        assert forall|k: Seq<char>| has_key(t, k) <==> top.contains_key(k) by {
            if has_key(t, k) {
                let j = position_of(t, k);
                assert(t[j] == s[j]);
                lemma_entry(s, j);
                assert(rank(m, s[j].0@) == j);
            }
            if top.contains_key(k) {
                lemma_position(s, k);
                let j = position_of(s, k);
                assert(rank(m, s[j].0@) == j);
                assert(t[j] == s[j]);
            }
        }
        assert forall|k: Seq<char>| has_key(t, k) implies #[trigger] map_of(t)[k] == top[k] by {
            let j = position_of(t, k);
            assert(t[j] == s[j]);
            lemma_entry(t, j);
            lemma_entry(s, j);
        }
        assert(map_of(t) =~= top);
    }
}

/// The languages that rank above a language of a finite map are finitely
/// many.
pub proof fn lemma_above_finite(m: Scores, lang: Seq<char>)
    requires
        m.dom().finite(),
    ensures
        above(m, lang).finite(),
        forall|limit: nat| #[trigger] top_set(m, limit).finite(),
{
    assert(above(m, lang).subset_of(m.dom()));
    lemma_len_subset(above(m, lang), m.dom());
    assert forall|limit: nat| #[trigger] top_set(m, limit).finite() by {
        assert(top_set(m, limit).subset_of(m.dom()));
        lemma_len_subset(top_set(m, limit), m.dom());
    }
}

/// A language that ranks above another has the smaller rank.
pub proof fn lemma_rank_monotone(m: Scores, better: Seq<char>, worse: Seq<char>)
    requires
        m.dom().finite(),
        m.contains_key(better),
        m.contains_key(worse),
        outranks(better, m[better], worse, m[worse]),
    ensures
        rank(m, better) < rank(m, worse),
{
    let upper = above(m, better);
    let lower = above(m, worse);
    lemma_above_finite(m, better);
    lemma_above_finite(m, worse);
    lemma_outranks_total(better, m[better], better, m[better]);
    assert forall|k: Seq<char>| upper.insert(better).contains(k) implies lower.contains(k) by {
        if k != better {
            lemma_outranks_transitive(k, m[k], better, m[better], worse, m[worse]);
        }
    }
    assert(upper.insert(better).subset_of(lower));
    lemma_len_subset(upper.insert(better), lower);
}

/// A language that is kept ranks above every language that is dropped, so
/// its confidence is at least as high.
pub proof fn lemma_kept_outrank_dropped(m: Scores, limit: nat, kept: Seq<char>, dropped: Seq<char>)
    requires
        m.dom().finite(),
        top_languages(m, limit).contains_key(kept),
        m.contains_key(dropped),
        !top_languages(m, limit).contains_key(dropped),
    ensures
        outranks(kept, m[kept], dropped, m[dropped]),
        m[kept] >= m[dropped],
{
    lemma_outranks_total(kept, m[kept], dropped, m[dropped]);
    if outranks(dropped, m[dropped], kept, m[kept]) {
        lemma_rank_monotone(m, dropped, kept);
    }
}

proof fn lemma_top_at_most(m: Scores, limit: nat, member: Seq<char>)
    requires
        m.dom().finite(),
        top_set(m, limit).contains(member),
    ensures
        top_set(m, limit).len() <= limit,
    decreases limit - rank(m, member),
{
    let top = top_set(m, limit);
    lemma_above_finite(m, member);
    if exists|y: Seq<char>| top.contains(y) && outranks(member, m[member], y, m[y]) {
        let y = choose|y: Seq<char>| top.contains(y) && outranks(member, m[member], y, m[y]);
        lemma_rank_monotone(m, member, y);
        lemma_top_at_most(m, limit, y);
    } else {
        assert forall|z: Seq<char>| top.contains(z) implies above(m, member).insert(
            member,
        ).contains(z) by {
            if z != member {
                lemma_outranks_total(z, m[z], member, m[member]);
            }
        }
        assert(top.subset_of(above(m, member).insert(member)));
        lemma_len_subset(top, above(m, member).insert(member));
    }
}

proof fn lemma_top_at_least(m: Scores, limit: nat, dropped: Seq<char>)
    requires
        m.dom().finite(),
        m.contains_key(dropped),
        !top_set(m, limit).contains(dropped),
    ensures
        top_set(m, limit).len() >= limit,
    decreases rank(m, dropped),
{
    let top = top_set(m, limit);
    lemma_above_finite(m, dropped);
    if exists|y: Seq<char>|
        m.contains_key(y) && !top.contains(y) && outranks(y, m[y], dropped, m[dropped]) {
        let y = choose|y: Seq<char>|
            m.contains_key(y) && !top.contains(y) && outranks(y, m[y], dropped, m[dropped]);
        lemma_rank_monotone(m, y, dropped);
        lemma_top_at_least(m, limit, y);
    } else {
        assert(above(m, dropped).subset_of(top));
        lemma_len_subset(above(m, dropped), top);
    }
}

/// Cutting a finite profile down to `limit` languages leaves `limit` of
/// them, or all where there are no more; each keeps its confidence.
pub proof fn lemma_top_languages_size(m: Scores, limit: nat)
    requires
        m.dom().finite(),
    ensures
        top_languages(m, limit).dom().finite(),
        top_languages(m, limit).dom() == top_set(m, limit),
        top_languages(m, limit).len() == if m.len() <= limit {
            m.len()
        } else {
            limit
        },
        m.len() <= limit ==> top_languages(m, limit) == m,
        forall|k: Seq<char>| #[trigger]
            top_languages(m, limit).contains_key(k) ==> m.contains_key(k) && top_languages(
                m,
                limit,
            )[k] == m[k],
{
    let top = top_set(m, limit);
    lemma_above_finite(m, Seq::empty());
    assert(top_languages(m, limit).dom() =~= top);
    assert(top.subset_of(m.dom()));
    lemma_len_subset(top, m.dom());
    if top.len() > 0 {
        lemma_top_at_most(m, limit, top.choose());
    }
    if exists|d: Seq<char>| m.contains_key(d) && !top.contains(d) {
        let d = choose|d: Seq<char>| m.contains_key(d) && !top.contains(d);
        lemma_top_at_least(m, limit, d);
        if m.len() <= limit {
            lemma_subset_equality(top, m.dom());
        }
    } else {
        assert(top =~= m.dom());
        assert(top_languages(m, limit) =~= m);
    }
}

/// The kept languages are the only set of the right size whose members rank
/// above all other languages of the profile.
pub proof fn lemma_top_set_unique(m: Scores, limit: nat, chosen: Set<Seq<char>>)
    requires
        m.dom().finite(),
        chosen.subset_of(m.dom()),
        chosen.len() == if m.len() <= limit {
            m.len()
        } else {
            limit
        },
        forall|x: Seq<char>, d: Seq<char>|
            chosen.contains(x) && m.contains_key(d) && !chosen.contains(d) ==> outranks(
                x,
                m[x],
                d,
                m[d],
            ),
    ensures
        chosen == top_set(m, limit),
{
    let top = top_set(m, limit);
    lemma_top_languages_size(m, limit);
    lemma_len_subset(chosen, m.dom());
    if chosen.subset_of(top) {
        lemma_subset_equality(chosen, top);
    } else if top.subset_of(chosen) {
        lemma_subset_equality(top, chosen);
    } else {
        let x = choose|x: Seq<char>| chosen.contains(x) && !top.contains(x);
        let y = choose|y: Seq<char>| top.contains(y) && !chosen.contains(y);
        lemma_kept_outrank_dropped(m, limit, y, x);
        lemma_outranks_total(x, m[x], y, m[y]);
    }
}

/// A detection leaves a finite profile finite.
pub proof fn lemma_with_detection_finite(m: Scores, lang: Seq<char>, confidence: Confidence)
    requires
        m.dom().finite(),
    ensures
        with_detection(m, lang, confidence).dom().finite(),
        with_detection(m, lang, confidence).dom() == m.dom().insert(lang),
        m.len() <= with_detection(m, lang, confidence).len(),
{
    assert(with_detection(m, lang, confidence).dom() =~= m.dom().insert(lang));
    lemma_len_subset(m.dom(), m.dom().insert(lang));
}

/// Where a profile was cut down and the detected language is among the
/// dropped, the language enters the cut profile only with a confidence at
/// least as high as the dropped one.
proof fn lemma_dropped_returns_stronger(
    m: Scores,
    limit: nat,
    lang: Seq<char>,
    confidence: Confidence,
)
    requires
        m.dom().finite(),
        m.contains_key(lang),
        !top_languages(m, limit).contains_key(lang),
        top_set(with_detection(top_languages(m, limit), lang, confidence), limit).contains(lang),
    ensures
        confidence >= m[lang],
{
    let t = top_languages(m, limit);
    let t2 = with_detection(t, lang, confidence);
    lemma_top_languages_size(m, limit);
    lemma_with_detection_finite(t, lang, confidence);
    lemma_above_finite(t2, lang);
    if confidence < m[lang] {
        assert forall|y: Seq<char>| t.dom().contains(y) implies above(t2, lang).contains(y) by {
            lemma_kept_outrank_dropped(m, limit, y, lang);
        }
        assert(t.dom().subset_of(above(t2, lang)));
        lemma_len_subset(t.dom(), above(t2, lang));
    }
}

/// Cutting a profile down before a detection is recorded changes nothing,
/// once the profile is cut down after it: what was dropped would be dropped
/// again.
pub proof fn lemma_truncation_commutes(
    m: Scores,
    limit: nat,
    lang: Seq<char>,
    confidence: Confidence,
)
    requires
        m.dom().finite(),
    ensures
        top_languages(with_detection(top_languages(m, limit), lang, confidence), limit)
            == top_languages(with_detection(m, lang, confidence), limit),
{
    let t = top_languages(m, limit);
    let m2 = with_detection(m, lang, confidence);
    let t2 = with_detection(t, lang, confidence);
    let s = top_set(t2, limit);
    lemma_top_languages_size(m, limit);
    lemma_with_detection_finite(m, lang, confidence);
    lemma_with_detection_finite(t, lang, confidence);
    lemma_top_languages_size(t2, limit);
    lemma_top_languages_size(m2, limit);
    if forall|d: Seq<char>| m.contains_key(d) ==> t.contains_key(d) {
        assert(t =~= m);
    } else {
        let d0 = choose|d: Seq<char>| m.contains_key(d) && !t.contains_key(d);
        assert(m.len() > limit);
        assert(t.len() == limit);
        lemma_len_subset(t.dom(), t2.dom());
        assert(s.len() == limit);
        assert forall|x: Seq<char>| s.contains(x) implies t2[x] == m2[x] && m2.contains_key(
            x,
        ) by {
            if x == lang && m.contains_key(lang) && !t.contains_key(lang) {
                lemma_dropped_returns_stronger(m, limit, lang, confidence);
            }
        }
        assert(s.subset_of(m2.dom()));
        assert forall|x: Seq<char>, d: Seq<char>|
            s.contains(x) && m2.contains_key(d) && !s.contains(d) implies outranks(
            x,
            m2[x],
            d,
            m2[d],
        ) by {
            if t2.contains_key(d) {
                lemma_kept_outrank_dropped(t2, limit, x, d);
                if d == lang && m.contains_key(lang) && !t.contains_key(lang) && confidence
                    < m[lang] {
                    lemma_kept_outrank_dropped(m, limit, x, lang);
                }
            } else {
                if t.contains_key(x) {
                    lemma_kept_outrank_dropped(m, limit, x, d);
                } else {
                    assert(x == lang);
                    assert(t2.dom() =~= t.dom().insert(lang));
                    assert(t2.len() == limit + 1);
                    if forall|y: Seq<char>| t2.contains_key(y) ==> s.contains(y) {
                        assert(s =~= t2.dom());
                    }
                    let y = choose|y: Seq<char>| t2.contains_key(y) && !s.contains(y);
                    lemma_kept_outrank_dropped(t2, limit, lang, y);
                    lemma_kept_outrank_dropped(m, limit, y, d);
                    lemma_outranks_transitive(lang, t2[lang], y, m[y], d, m[d]);
                }
            }
        }
        lemma_top_set_unique(m2, limit, s);
        assert(top_languages(t2, limit) =~= top_languages(m2, limit));
    }
}

} // verus!
