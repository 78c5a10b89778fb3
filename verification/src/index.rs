//! The language index: the profiles of all authors, and who speaks what.

use crate::profile::UserLanguages;
use crate::ranking::Scores;
use crate::str_map::StrMap;
use crate::types::{LanguageCode, Timestamp};
use vstd::hash_set::StringHashSet;
use vstd::prelude::*;

verus! {

/// The profiles of all authors as a mathematical map: for each author the
/// confidence held for each language.
pub type Profiles = Map<Seq<char>, Scores>;

/// The mathematical map behind a map of profiles.
pub open spec fn profiles_of(user_languages: Map<Seq<char>, UserLanguages>) -> Profiles {
    user_languages.map_values(|profile: UserLanguages| profile@)
}

/// The authors whose profile holds `lang`, with whatever confidence.
pub open spec fn speakers_of(profiles: Profiles, lang: Seq<char>) -> Set<Seq<char>> {
    Set::new(|a: Seq<char>| profiles.contains_key(a) && profiles[a].contains_key(lang))
}

/// The authors of `user_languages` whose profile holds `lang`.
pub fn users_with_language(user_languages: &StrMap<UserLanguages>, lang: &str) -> (users:
    StringHashSet)
    ensures
        users@ == speakers_of(profiles_of(user_languages@), lang@),
{
    let ghost profiles = profiles_of(user_languages@);
    let ghost keys = user_languages.keys();
    let n = user_languages.len();
    let mut users = StringHashSet::new();
    let mut i: usize = 0;
    while i < n
        invariant
            i <= n,
            n == keys.len(),
            keys == user_languages.keys(),
            profiles == profiles_of(user_languages@),
            forall|a: Seq<char>|
                users@.contains(a) <==> exists|j: int|
                    0 <= j < i && #[trigger] keys[j] == a && profiles[a].contains_key(lang@),
        decreases n - i,
    {
        let profile = user_languages.value_at(i);
        let ghost before = users@;
        if profile.has_language(lang) {
            users.insert(user_languages.key_at(i).clone());
        }
        proof {
            let key = keys[i as int];
            assert forall|a: Seq<char>|
                users@.contains(a) <==> exists|j: int|
                    0 <= j < i + 1 && #[trigger] keys[j] == a && profiles[a].contains_key(
                        lang@,
                    ) by {
                if before.contains(a) {
                    let j = choose|j: int|
                        0 <= j < i && #[trigger] keys[j] == a && profiles[a].contains_key(lang@);
                    assert(0 <= j < i + 1 && keys[j] == a);
                }
                if a == key && profiles[a].contains_key(lang@) {
                    assert(keys[i as int] == a);
                }
                if exists|j: int|
                    0 <= j < i + 1 && #[trigger] keys[j] == a && profiles[a].contains_key(lang@) {
                    let j = choose|j: int|
                        0 <= j < i + 1 && #[trigger] keys[j] == a && profiles[a].contains_key(
                            lang@,
                        );
                    if j < i {
                        assert(before.contains(a));
                    }
                }
            }
        }
        i += 1;
    }
    proof {
        assert forall|a: Seq<char>|
            users@.contains(a) <==> speakers_of(profiles, lang@).contains(a) by {
            if users@.contains(a) {
                let j = choose|j: int|
                    0 <= j < n && #[trigger] keys[j] == a && profiles[a].contains_key(lang@);
                assert(keys.contains(a));
            }
            if speakers_of(profiles, lang@).contains(a) {
                assert(keys.contains(a));
                let j = choose|j: int| 0 <= j < keys.len() && keys[j] == a;
                assert(keys[j] == a);
            }
        }
        assert(users@ =~= speakers_of(profiles, lang@));
    }
    users
}

/// Structure for language index.
pub struct LanguageIndex {
    /// Map from pubkey to their languages.
    pub user_languages: StrMap<UserLanguages>,
    /// Timestamp when this index was built.
    pub built_at: Timestamp,
    /// Time range covered.
    pub since: Timestamp,
    pub until: Timestamp,
}

impl LanguageIndex {
    /// An index without profiles for the range from `since` to `until`,
    /// stamped with the current time.
    pub fn new(since: Timestamp, until: Timestamp) -> (index: Self)
        ensures
            index.since == since,
            index.until == until,
            index.user_languages@ == Map::<Seq<char>, UserLanguages>::empty(),
    {
        LanguageIndex {
            user_languages: StrMap::new(),
            built_at: Self::current_timestamp(),
            since,
            until,
        }
    }

    /// Reads the system clock through `SystemTime::elapsed` on the Unix
    /// epoch and gives the whole seconds that have passed since, or zero
    /// where the clock stands before the epoch. Nothing is claimed of the
    /// value.
    #[verifier::external_body]
    fn current_timestamp() -> Timestamp {
        match std::time::UNIX_EPOCH.elapsed() {
            Ok(elapsed) => elapsed.as_secs(),
            Err(_) => 0,
        }
    }

    /// The authors whose profile holds `lang`.
    pub fn get_users_for_language(&self, lang: &str) -> (users: StringHashSet)
        ensures
            users@ == speakers_of(profiles_of(self.user_languages@), lang@),
    {
        users_with_language(&self.user_languages, lang)
    }
}

/// Result of language index building.
pub struct LanguageIndexResult {
    /// Total number of unique users found.
    pub users: u32,
    /// Users per language.
    pub by_lang: StrMap<u32>,
    /// Total events processed.
    pub events_processed: u32,
    /// Events with detected language.
    pub events_with_language: u32,
}

impl LanguageIndexResult {
    /// Users per language, as a list of the languages with their counts.
    pub fn by_lang(&self) -> (counts: Vec<(LanguageCode, u32)>)
        ensures
            counts@.len() == self.by_lang.keys().len(),
            forall|i: int|
                0 <= i < counts@.len() ==> (#[trigger] counts@[i]).0@ == self.by_lang.keys()[i]
                    && counts@[i].1 == self.by_lang@[self.by_lang.keys()[i]],
    {
        let n = self.by_lang.len();
        let mut counts: Vec<(LanguageCode, u32)> = Vec::new();
        let mut i: usize = 0;
        while i < n
            invariant
                i <= n,
                n == self.by_lang.keys().len(),
                counts@.len() == i,
                forall|k: int|
                    0 <= k < i ==> (#[trigger] counts@[k]).0@ == self.by_lang.keys()[k]
                        && counts@[k].1 == self.by_lang@[self.by_lang.keys()[k]],
            decreases n - i,
        {
            counts.push((self.by_lang.key_at(i).clone(), *self.by_lang.value_at(i)));
            i += 1;
        }
        counts
    }
}

} // verus!
