//! The language profile of one author: a bounded set of languages, each with
//! the best confidence seen for it.

use crate::assoc::{
    has_key, keys_distinct, keys_of, lemma_entry, lemma_insert, lemma_len, lemma_position,
    lemma_remove, map_of, position_of,
};
use crate::lexical::str_precedes;
use crate::ranking::{
    lemma_outranks_total, lemma_outranks_transitive, lemma_take_is_top, outranks, ranked,
    top_languages, with_detection, Scores,
};
use crate::types::{Confidence, LanguageCode};
use vstd::prelude::*;

verus! {

/// The languages of a profile with their confidences, kept in ranking order:
/// the higher confidence first, and of two equal confidences the language
/// whose code comes first.
#[derive(Debug)]
pub struct LanguageScores {
    entries: Vec<(LanguageCode, Confidence)>,
}

impl View for LanguageScores {
    type V = Scores;

    closed spec fn view(&self) -> Scores {
        map_of(self.entries@)
    }
}

impl LanguageScores {
    #[verifier::type_invariant]
    spec fn well_formed(self) -> bool {
        keys_distinct(self.entries@) && ranked(self.entries@)
    }

    /// The language codes in ranking order, best first.
    pub closed spec fn codes(&self) -> Seq<Seq<char>> {
        keys_of(self.entries@)
    }

    /// A profile without languages.
    pub fn new() -> (scores: Self)
        ensures
            scores@ == Scores::empty(),
            scores.codes() == Seq::<Seq<char>>::empty(),
    {
        let scores = LanguageScores { entries: Vec::new() };
        assert(scores@ =~= Scores::empty());
        assert(scores.codes() =~= Seq::<Seq<char>>::empty());
        scores
    }

    /// The number of languages. The codes are distinct, are exactly the keys
    /// of the view, and stand in ranking order.
    pub fn len(&self) -> (n: usize)
        ensures
            n == self.codes().len(),
            n == self@.len(),
            self@.dom().finite(),
            self.codes().no_duplicates(),
            forall|k: Seq<char>| self@.contains_key(k) <==> self.codes().contains(k),
            forall|i: int, j: int|
                0 <= i < j < n ==> outranks(
                    #[trigger] self.codes()[i],
                    self@[self.codes()[i]],
                    #[trigger] self.codes()[j],
                    self@[self.codes()[j]],
                ),
    {
        proof {
            use_type_invariant(self);
            let s = self.entries@;
            lemma_len(s);
            assert forall|k: Seq<char>| self@.contains_key(k) <==> self.codes().contains(k) by {
                if has_key(s, k) {
                    lemma_position(s, k);
                    assert(keys_of(s)[position_of(s, k)] == k);
                }
                if keys_of(s).contains(k) {
                    let i = choose|i: int| 0 <= i < keys_of(s).len() && keys_of(s)[i] == k;
                    assert(s[i].0@ == k);
                }
            }
            assert forall|i: int, j: int| 0 <= i < j < s.len() implies outranks(
                #[trigger] self.codes()[i],
                self@[self.codes()[i]],
                #[trigger] self.codes()[j],
                self@[self.codes()[j]],
            ) by {
                lemma_entry(s, i);
                lemma_entry(s, j);
                assert(outranks(s[i].0@, s[i].1, s[j].0@, s[j].1));
            }
        }
        self.entries.len()
    }

    /// Whether the profile holds no language.
    pub fn is_empty(&self) -> (empty: bool)
        ensures
            empty == (self@.len() == 0),
            self@.dom().finite(),
    {
        self.len() == 0
    }

    /// The code of the language at place `i` of the ranking.
    pub fn code_at(&self, i: usize) -> (code: &LanguageCode)
        requires
            i < self.codes().len(),
        ensures
            code@ == self.codes()[i as int],
            self@.contains_key(code@),
    {
        proof {
            use_type_invariant(self);
            lemma_entry(self.entries@, i as int);
        }
        &self.entries[i].0
    }

    /// The confidence of the language at place `i` of the ranking.
    pub fn confidence_at(&self, i: usize) -> (confidence: Confidence)
        requires
            i < self.codes().len(),
        ensures
            self@.contains_key(self.codes()[i as int]),
            confidence == self@[self.codes()[i as int]],
    {
        proof {
            use_type_invariant(self);
            lemma_entry(self.entries@, i as int);
        }
        self.entries[i].1
    }

    /// Whether the profile holds the language `code`.
    pub fn contains_key(&self, code: &str) -> (found: bool)
        ensures
            found == self@.contains_key(code@),
    {
        let owned = code.to_owned();
        self.find(&owned).is_some()
    }

    /// The confidence held for the language `code`, if the profile holds it.
    pub fn get(&self, code: &str) -> (confidence: Option<Confidence>)
        ensures
            confidence == if self@.contains_key(code@) {
                Some(self@[code@])
            } else {
                None
            },
    {
        let owned = code.to_owned();
        match self.find(&owned) {
            Some(i) => {
                proof {
                    use_type_invariant(self);
                    lemma_entry(self.entries@, i as int);
                }
                Some(self.entries[i].1)
            },
            None => None,
        }
    }

    /// Records a detection of `code` with `confidence`: a new language is
    /// inserted, a known one keeps the larger of the two confidences.
    pub fn record(&mut self, code: LanguageCode, confidence: Confidence)
        ensures
            final(self)@ == with_detection(old(self)@, code@, confidence),
    {
        proof {
            use_type_invariant(&*self);
        }
        let found = self.find(&code);
        let ghost before = self.entries@;
        let mut entries = Vec::new();
        std::mem::swap(&mut entries, &mut self.entries);
        match found {
            Some(i) => {
                proof {
                    lemma_entry(before, i as int);
                }
                if entries[i].1 < confidence {
                    entries.remove(i);
                    proof {
                        lemma_remove(before, i as int);
                        lemma_ranked_remove(before, i as int);
                    }
                    put_in_place(&mut entries, code, confidence);
                    assert(map_of(entries@) =~= map_of(before).insert(code@, confidence));
                }
            },
            None => {
                put_in_place(&mut entries, code, confidence);
            },
        }
        self.entries = entries;
    }

    /// Keeps the `limit` best-ranked languages and drops the others.
    pub fn truncate(&mut self, limit: usize)
        ensures
            final(self)@ == top_languages(old(self)@, limit as nat),
            final(self)@.dom().finite(),
            final(self)@.len() == if old(self)@.len() <= limit {
                old(self)@.len()
            } else {
                limit as nat
            },
    {
        proof {
            use_type_invariant(&*self);
            lemma_take_is_top(self.entries@, limit as int);
            lemma_len(self.entries@);
        }
        let mut entries = Vec::new();
        std::mem::swap(&mut entries, &mut self.entries);
        if entries.len() > limit {
            entries.truncate(limit);
        }
        proof {
            lemma_len(entries@);
        }
        self.entries = entries;
    }

    fn find(&self, code: &String) -> (found: Option<usize>)
        ensures
            match found {
                Some(i) => i < self.entries@.len() && self.entries@[i as int].0@ == code@,
                None => !has_key(self.entries@, code@),
            },
    {
        let mut i: usize = 0;
        while i < self.entries.len()
            invariant
                i <= self.entries.len(),
                forall|j: int| 0 <= j < i ==> (#[trigger] self.entries@[j]).0@ != code@,
            decreases self.entries.len() - i,
        {
            if self.entries[i].0 == *code {
                return Some(i);
            }
            i += 1;
        }
        None
    }
}

/// The language profile of one author.
#[derive(Debug)]
pub struct UserLanguages {
    /// Languages detected for this user with confidence scores.
    pub languages: LanguageScores,
}

impl View for UserLanguages {
    type V = Scores;

    open spec fn view(&self) -> Scores {
        self.languages@
    }
}

impl Default for UserLanguages {
    fn default() -> (profile: Self)
        ensures
            profile@ == Scores::empty(),
    {
        UserLanguages::new()
    }
}

impl UserLanguages {
    /// A profile without languages.
    pub fn new() -> (profile: Self)
        ensures
            profile@ == Scores::empty(),
    {
        UserLanguages { languages: LanguageScores::new() }
    }

    /// Records a detection of `lang` with `confidence`, then keeps at most
    /// `max_langs` languages: those that rank best by confidence, and among
    /// equal confidences by language code.
    pub fn add_language(&mut self, lang: LanguageCode, confidence: Confidence, max_langs: u8)
        ensures
            final(self)@ == top_languages(
                with_detection(old(self)@, lang@, confidence),
                max_langs as nat,
            ),
            final(self)@.dom().finite(),
            final(self)@.len() <= max_langs,
    {
        self.languages.record(lang, confidence);
        self.languages.truncate(max_langs as usize);
    }

    /// Whether the profile holds the language `lang`.
    pub fn has_language(&self, lang: &str) -> (found: bool)
        ensures
            found == self@.contains_key(lang@),
    {
        self.languages.contains_key(lang)
    }
}

/// A ranked sequence stays ranked when an entry leaves it.
proof fn lemma_ranked_remove(s: Seq<(String, Confidence)>, i: int)
    requires
        ranked(s),
        0 <= i < s.len(),
    ensures
        ranked(s.remove(i)),
{
    let t = s.remove(i);
    assert forall|a: int, b: int| 0 <= a < b < t.len() implies outranks(
        (#[trigger] t[a]).0@,
        t[a].1,
        (#[trigger] t[b]).0@,
        t[b].1,
    ) by {
        let sa = if a < i { a } else { a + 1 };
        let sb = if b < i { b } else { b + 1 };
        assert(t[a] == s[sa] && t[b] == s[sb]);
    }
}

/// Whether the first entry ranks above the second.
fn ranks_above(a: &String, ca: Confidence, b: &String, cb: Confidence) -> (above: bool)
    ensures
        above == outranks(a@, ca, b@, cb),
{
    ca > cb || (ca == cb && str_precedes(a.as_str(), b.as_str()))
}

/// Puts a language that `entries` does not hold at its place in the ranking.
fn put_in_place(
    entries: &mut Vec<(LanguageCode, Confidence)>,
    code: LanguageCode,
    confidence: Confidence,
)
    requires
        keys_distinct(old(entries)@),
        ranked(old(entries)@),
        !has_key(old(entries)@, code@),
    ensures
        keys_distinct(final(entries)@),
        ranked(final(entries)@),
        map_of(final(entries)@) == map_of(old(entries)@).insert(code@, confidence),
{
    let ghost s = entries@;
    let mut p: usize = 0;
    while p < entries.len() && ranks_above(&entries[p].0, entries[p].1, &code, confidence)
        invariant
            entries@ == s,
            p <= s.len(),
            forall|j: int| 0 <= j < p ==> outranks((#[trigger] s[j]).0@, s[j].1, code@, confidence),
        decreases s.len() - p,
    {
        p += 1;
    }
    proof {
        let e = (code, confidence);
        let t = s.insert(p as int, e);
        lemma_insert(s, p as int, e);
        assert forall|a: int, b: int| 0 <= a < b < t.len() implies outranks(
            (#[trigger] t[a]).0@,
            t[a].1,
            (#[trigger] t[b]).0@,
            t[b].1,
        ) by {
            let sa = if a < p { a } else { a - 1 };
            let sb = if b < p { b } else { b - 1 };
            if a == p {
                assert(t[b] == s[sb]);
                assert(s[p as int].0@ != code@);
                lemma_outranks_total(code@, confidence, s[p as int].0@, s[p as int].1);
                if sb > p {
                    assert(outranks(s[p as int].0@, s[p as int].1, s[sb].0@, s[sb].1));
                    lemma_outranks_transitive(
                        code@,
                        confidence,
                        s[p as int].0@,
                        s[p as int].1,
                        s[sb].0@,
                        s[sb].1,
                    );
                }
            } else if b == p {
                assert(t[a] == s[sa]);
            } else {
                assert(t[a] == s[sa] && t[b] == s[sb]);
            }
        }
    }
    entries.insert(p, (code, confidence));
}

} // verus!
