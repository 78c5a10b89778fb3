//! The aggregate language statistics: for each language, the number of
//! authors whose profile holds it.

use crate::assoc::lemma_next_member;
use crate::index::{profiles_of, speakers_of, Profiles};
use crate::profile::UserLanguages;
use crate::str_map::StrMap;
use vstd::prelude::*;

verus! {

/// How many of the first `upto` authors of `keys` hold `lang` in their
/// profile.
pub open spec fn speakers_among(
    keys: Seq<Seq<char>>,
    profiles: Profiles,
    lang: Seq<char>,
    upto: int,
) -> nat
    decreases upto,
{
    if upto <= 0 {
        0
    } else {
        speakers_among(keys, profiles, lang, upto - 1) + if profiles[keys[upto - 1]].contains_key(
            lang,
        ) {
            1nat
        } else {
            0nat
        }
    }
}

/// The aggregate language statistics of `profiles`: for each language that
/// some profile holds, the number of authors whose profile holds it.
pub open spec fn language_counts(profiles: Profiles) -> Map<Seq<char>, u32> {
    Map::new(
        |lang: Seq<char>| exists|a: Seq<char>| #[trigger] speakers_of(profiles, lang).contains(a),
        |lang: Seq<char>| speakers_of(profiles, lang).len() as u32,
    )
}

/// The statistics after the first `upto` authors of `keys` were counted.
spec fn counted(keys: Seq<Seq<char>>, profiles: Profiles, upto: int) -> Map<Seq<char>, u32> {
    Map::new(
        |lang: Seq<char>| speakers_among(keys, profiles, lang, upto) > 0,
        |lang: Seq<char>| speakers_among(keys, profiles, lang, upto) as u32,
    )
}

/// `counts` with one speaker more for each language of `langs`.
spec fn bumped(counts: Map<Seq<char>, u32>, langs: Set<Seq<char>>) -> Map<Seq<char>, u32> {
    Map::new(
        |lang: Seq<char>| counts.contains_key(lang) || langs.contains(lang),
        |lang: Seq<char>|
            if langs.contains(lang) {
                (if counts.contains_key(lang) {
                    counts[lang] as int
                } else {
                    0
                } + 1) as u32
            } else {
                counts[lang]
            },
    )
}

proof fn lemma_speakers_among_bound(
    keys: Seq<Seq<char>>,
    profiles: Profiles,
    lang: Seq<char>,
    upto: int,
)
    requires
        0 <= upto,
    ensures
        speakers_among(keys, profiles, lang, upto) <= upto,
    decreases upto,
{
    if upto > 0 {
        lemma_speakers_among_bound(keys, profiles, lang, upto - 1);
    }
}

/// The speakers of `lang` among the first `upto` authors of `keys`.
spec fn speakers_upto(keys: Seq<Seq<char>>, profiles: Profiles, lang: Seq<char>, upto: int) -> Set<
    Seq<char>,
> {
    Set::new(
        |a: Seq<char>|
            exists|k: int|
                0 <= k < upto && #[trigger] keys[k] == a && profiles[a].contains_key(lang),
    )
}

proof fn lemma_speakers_upto(keys: Seq<Seq<char>>, profiles: Profiles, lang: Seq<char>, upto: int)
    requires
        keys.no_duplicates(),
        0 <= upto <= keys.len(),
    ensures
        speakers_upto(keys, profiles, lang, upto).finite(),
        speakers_upto(keys, profiles, lang, upto).len() == speakers_among(
            keys,
            profiles,
            lang,
            upto,
        ),
    decreases upto,
{
    let now = speakers_upto(keys, profiles, lang, upto);
    if upto == 0 {
        assert(now =~= Set::<Seq<char>>::empty());
    } else {
        let earlier = speakers_upto(keys, profiles, lang, upto - 1);
        lemma_speakers_upto(keys, profiles, lang, upto - 1);
        let key = keys[upto - 1];
        assert(!earlier.contains(key)) by {
            if earlier.contains(key) {
                let k = choose|k: int|
                    0 <= k < upto - 1 && #[trigger] keys[k] == key && profiles[key].contains_key(
                        lang,
                    );
                assert(keys[k] == keys[upto - 1]);
            }
        }
        if profiles[key].contains_key(lang) {
            assert(now =~= earlier.insert(key)) by {
                assert forall|a: Seq<char>| now.contains(a) <==> earlier.insert(key).contains(
                    a,
                ) by {
                    if now.contains(a) {
                        let k = choose|k: int|
                            0 <= k < upto && #[trigger] keys[k] == a && profiles[a].contains_key(
                                lang,
                            );
                        if k < upto - 1 {
                            assert(earlier.contains(a));
                        }
                    }
                    if earlier.contains(a) {
                        let k = choose|k: int|
                            0 <= k < upto - 1 && #[trigger] keys[k] == a
                                && profiles[a].contains_key(lang);
                        assert(0 <= k < upto && keys[k] == a);
                    }
                    if a == key {
                        assert(keys[upto - 1] == a);
                    }
                }
            }
        } else {
            assert(now =~= earlier) by {
                assert forall|a: Seq<char>| now.contains(a) <==> earlier.contains(a) by {
                    if now.contains(a) {
                        let k = choose|k: int|
                            0 <= k < upto && #[trigger] keys[k] == a && profiles[a].contains_key(
                                lang,
                            );
                        assert(k < upto - 1);
                    }
                    if earlier.contains(a) {
                        let k = choose|k: int|
                            0 <= k < upto - 1 && #[trigger] keys[k] == a
                                && profiles[a].contains_key(lang);
                        assert(0 <= k < upto && keys[k] == a);
                    }
                }
            }
        }
    }
}

/// Once all authors are counted, the counts are the language statistics.
proof fn lemma_counted_all(keys: Seq<Seq<char>>, profiles: Profiles)
    requires
        keys.no_duplicates(),
        keys.len() <= u32::MAX,
        forall|a: Seq<char>| profiles.contains_key(a) <==> keys.contains(a),
    ensures
        counted(keys, profiles, keys.len() as int) == language_counts(profiles),
{
    let n = keys.len() as int;
    assert forall|lang: Seq<char>|
        speakers_upto(keys, profiles, lang, n) == speakers_of(profiles, lang)
            && speakers_of(profiles, lang).len() == speakers_among(keys, profiles, lang, n)
            && speakers_of(profiles, lang).finite() by {
        lemma_speakers_upto(keys, profiles, lang, n);
        assert forall|a: Seq<char>|
            speakers_upto(keys, profiles, lang, n).contains(a) <==> speakers_of(
                profiles,
                lang,
            ).contains(a) by {
            if speakers_upto(keys, profiles, lang, n).contains(a) {
                let k = choose|k: int|
                    0 <= k < n && #[trigger] keys[k] == a && profiles[a].contains_key(lang);
                assert(keys.contains(a));
            }
            if speakers_of(profiles, lang).contains(a) {
                assert(keys.contains(a));
                let k = choose|k: int| 0 <= k < keys.len() && keys[k] == a;
                assert(keys[k] == a);
            }
        }
        assert(speakers_upto(keys, profiles, lang, n) =~= speakers_of(profiles, lang));
    }
    assert forall|lang: Seq<char>|
        counted(keys, profiles, n).contains_key(lang) <==> language_counts(profiles).contains_key(
            lang,
        ) by {
        let speakers = speakers_of(profiles, lang);
        if speakers.len() > 0 {
            assert(speakers.contains(speakers.choose()));
        }
        if exists|a: Seq<char>| #[trigger] speakers.contains(a) {
            let a = choose|a: Seq<char>| #[trigger] speakers.contains(a);
            if speakers.len() == 0 {
                assert(speakers =~= Set::<Seq<char>>::empty());
            }
        }
    }
    assert(counted(keys, profiles, n) =~= language_counts(profiles));
}

/// Counts, for each language, the authors whose profile holds it.
pub fn count_speakers(user_languages: &StrMap<UserLanguages>) -> (by_lang: StrMap<u32>)
    requires
        user_languages@.len() <= u32::MAX,
    ensures
        by_lang@ == language_counts(profiles_of(user_languages@)),
{
    let ghost profiles = profiles_of(user_languages@);
    let ghost keys = user_languages.keys();
    let n = user_languages.len();
    let mut by_lang: StrMap<u32> = StrMap::new();
    assert(by_lang@ =~= counted(keys, profiles, 0));
    let mut i: usize = 0;
    while i < n
        invariant
            i <= n,
            n == keys.len(),
            n <= u32::MAX,
            keys == user_languages.keys(),
            profiles == profiles_of(user_languages@),
            by_lang@ == counted(keys, profiles, i as int),
        decreases n - i,
    {
        let profile = user_languages.value_at(i);
        let ghost before = by_lang@;
        let ghost codes = profile.languages.codes();
        let m = profile.languages.len();
        assert(by_lang@ =~= bumped(before, codes.take(0).to_set()));
        let mut j: usize = 0;
        while j < m
            invariant
                j <= m,
                i < n,
                n == keys.len(),
                n <= u32::MAX,
                m == codes.len(),
                codes == profile.languages.codes(),
                codes.no_duplicates(),
                before == counted(keys, profiles, i as int),
                by_lang@ == bumped(before, codes.take(j as int).to_set()),
            decreases m - j,
        {
            let code = profile.languages.code_at(j);
            proof {
                lemma_next_member(codes, j as int);
                lemma_speakers_among_bound(keys, profiles, code@, i as int);
            }
            match by_lang.position(code.as_str()) {
                Some(place) => {
                    let count: u32 = *by_lang.value_at(place);
                    by_lang.replace_at(place, count + 1);
                },
                None => {
                    by_lang.insert(code.clone(), 1);
                },
            }
            assert(by_lang@ =~= bumped(before, codes.take(j + 1).to_set()));
            j += 1;
        }
        proof {
            assert(codes.take(m as int) =~= codes);
            assert forall|lang: Seq<char>| #[trigger]
                codes.to_set().contains(lang) <==> profiles[keys[i as int]].contains_key(lang) by {}
            assert(by_lang@ =~= counted(keys, profiles, i + 1)) by {
                assert forall|lang: Seq<char>| #[trigger]
                    by_lang@.contains_key(lang) <==> counted(keys, profiles, i + 1).contains_key(
                        lang,
                    ) by {}
                assert forall|lang: Seq<char>|
                    by_lang@.contains_key(lang) implies #[trigger] by_lang@[lang] == counted(
                    keys,
                    profiles,
                    i + 1,
                )[lang] by {
                    lemma_speakers_among_bound(keys, profiles, lang, i as int);
                }
            }
        }
        i += 1;
    }
    proof {
        lemma_counted_all(keys, profiles);
    }
    by_lang
}

} // verus!
