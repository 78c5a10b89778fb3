//! Language detection: the classifier's languages, their two-letter codes,
//! and the reading of what the classifier says about a text.

use crate::error::AnalyticsError;
use crate::types::{Confidence, LanguageCode, CONFIDENCE_ONE};
use vstd::prelude::*;
use vstd::string::{StrSliceExecFns, StringExecFns};

verus! {

/// The languages that the classifier tells apart, in the order in which the
/// classifier numbers them.
#[derive(Clone, Copy, Debug)]
pub enum Lang {
    /// Esperanto.
    Epo,
    /// English.
    Eng,
    /// Russian.
    Rus,
    /// Mandarin.
    Cmn,
    /// Spanish.
    Spa,
    /// Portuguese.
    Por,
    /// Italian.
    Ita,
    /// Bengali.
    Ben,
    /// French.
    Fra,
    /// German.
    Deu,
    /// Ukrainian.
    Ukr,
    /// Georgian.
    Kat,
    /// Arabic.
    Ara,
    /// Hindi.
    Hin,
    /// Japanese.
    Jpn,
    /// Hebrew.
    Heb,
    /// Yiddish.
    Yid,
    /// Polish.
    Pol,
    /// Amharic.
    Amh,
    /// Javanese.
    Jav,
    /// Korean.
    Kor,
    /// Bokmal.
    Nob,
    /// Danish.
    Dan,
    /// Swedish.
    Swe,
    /// Finnish.
    Fin,
    /// Turkish.
    Tur,
    /// Dutch.
    Nld,
    /// Hungarian.
    Hun,
    /// Czech.
    Ces,
    /// Greek.
    Ell,
    /// Bulgarian.
    Bul,
    /// Belarusian.
    Bel,
    /// Marathi.
    Mar,
    /// Kannada.
    Kan,
    /// Romanian.
    Ron,
    /// Slovene.
    Slv,
    /// Croatian.
    Hrv,
    /// Serbian.
    Srp,
    /// Macedonian.
    Mkd,
    /// Lithuanian.
    Lit,
    /// Latvian.
    Lav,
    /// Estonian.
    Est,
    /// Tamil.
    Tam,
    /// Vietnamese.
    Vie,
    /// Urdu.
    Urd,
    /// Thai.
    Tha,
    /// Gujarati.
    Guj,
    /// Uzbek.
    Uzb,
    /// Punjabi.
    Pan,
    /// Azerbaijani.
    Aze,
    /// Indonesian.
    Ind,
    /// Telugu.
    Tel,
    /// Persian.
    Pes,
    /// Malayalam.
    Mal,
    /// Oriya.
    Ori,
    /// Burmese.
    Mya,
    /// Nepali.
    Nep,
    /// Sinhalese.
    Sin,
    /// Khmer.
    Khm,
    /// Turkmen.
    Tuk,
    /// Akan.
    Aka,
    /// Zulu.
    Zul,
    /// Shona.
    Sna,
    /// Afrikaans.
    Afr,
    /// Latin.
    Lat,
    /// Slovak.
    Slk,
    /// Catalan.
    Cat,
    /// Tagalog.
    Tgl,
    /// Armenian.
    Hye,
}

impl Lang {
    /// The number that the classifier gives the language.
    pub open spec fn number(self) -> u8 {
        match self {
            Lang::Epo => 0,
            Lang::Eng => 1,
            Lang::Rus => 2,
            Lang::Cmn => 3,
            Lang::Spa => 4,
            Lang::Por => 5,
            Lang::Ita => 6,
            Lang::Ben => 7,
            Lang::Fra => 8,
            Lang::Deu => 9,
            Lang::Ukr => 10,
            Lang::Kat => 11,
            Lang::Ara => 12,
            Lang::Hin => 13,
            Lang::Jpn => 14,
            Lang::Heb => 15,
            Lang::Yid => 16,
            Lang::Pol => 17,
            Lang::Amh => 18,
            Lang::Jav => 19,
            Lang::Kor => 20,
            Lang::Nob => 21,
            Lang::Dan => 22,
            Lang::Swe => 23,
            Lang::Fin => 24,
            Lang::Tur => 25,
            Lang::Nld => 26,
            Lang::Hun => 27,
            Lang::Ces => 28,
            Lang::Ell => 29,
            Lang::Bul => 30,
            Lang::Bel => 31,
            Lang::Mar => 32,
            Lang::Kan => 33,
            Lang::Ron => 34,
            Lang::Slv => 35,
            Lang::Hrv => 36,
            Lang::Srp => 37,
            Lang::Mkd => 38,
            Lang::Lit => 39,
            Lang::Lav => 40,
            Lang::Est => 41,
            Lang::Tam => 42,
            Lang::Vie => 43,
            Lang::Urd => 44,
            Lang::Tha => 45,
            Lang::Guj => 46,
            Lang::Uzb => 47,
            Lang::Pan => 48,
            Lang::Aze => 49,
            Lang::Ind => 50,
            Lang::Tel => 51,
            Lang::Pes => 52,
            Lang::Mal => 53,
            Lang::Ori => 54,
            Lang::Mya => 55,
            Lang::Nep => 56,
            Lang::Sin => 57,
            Lang::Khm => 58,
            Lang::Tuk => 59,
            Lang::Aka => 60,
            Lang::Zul => 61,
            Lang::Sna => 62,
            Lang::Afr => 63,
            Lang::Lat => 64,
            Lang::Slk => 65,
            Lang::Cat => 66,
            Lang::Tgl => 67,
            Lang::Hye => 68,
        }
    }

    /// The language with the given number, if there is one.
    pub fn from_number(number: u8) -> (lang: Option<Lang>)
        ensures
            match lang {
                Some(found) => found.number() == number,
                None => number > 68,
            },
    {
        match number {
            0 => Some(Lang::Epo),
            1 => Some(Lang::Eng),
            2 => Some(Lang::Rus),
            3 => Some(Lang::Cmn),
            4 => Some(Lang::Spa),
            5 => Some(Lang::Por),
            6 => Some(Lang::Ita),
            7 => Some(Lang::Ben),
            8 => Some(Lang::Fra),
            9 => Some(Lang::Deu),
            10 => Some(Lang::Ukr),
            11 => Some(Lang::Kat),
            12 => Some(Lang::Ara),
            13 => Some(Lang::Hin),
            14 => Some(Lang::Jpn),
            15 => Some(Lang::Heb),
            16 => Some(Lang::Yid),
            17 => Some(Lang::Pol),
            18 => Some(Lang::Amh),
            19 => Some(Lang::Jav),
            20 => Some(Lang::Kor),
            21 => Some(Lang::Nob),
            22 => Some(Lang::Dan),
            23 => Some(Lang::Swe),
            24 => Some(Lang::Fin),
            25 => Some(Lang::Tur),
            26 => Some(Lang::Nld),
            27 => Some(Lang::Hun),
            28 => Some(Lang::Ces),
            29 => Some(Lang::Ell),
            30 => Some(Lang::Bul),
            31 => Some(Lang::Bel),
            32 => Some(Lang::Mar),
            33 => Some(Lang::Kan),
            34 => Some(Lang::Ron),
            35 => Some(Lang::Slv),
            36 => Some(Lang::Hrv),
            37 => Some(Lang::Srp),
            38 => Some(Lang::Mkd),
            39 => Some(Lang::Lit),
            40 => Some(Lang::Lav),
            41 => Some(Lang::Est),
            42 => Some(Lang::Tam),
            43 => Some(Lang::Vie),
            44 => Some(Lang::Urd),
            45 => Some(Lang::Tha),
            46 => Some(Lang::Guj),
            47 => Some(Lang::Uzb),
            48 => Some(Lang::Pan),
            49 => Some(Lang::Aze),
            50 => Some(Lang::Ind),
            51 => Some(Lang::Tel),
            52 => Some(Lang::Pes),
            53 => Some(Lang::Mal),
            54 => Some(Lang::Ori),
            55 => Some(Lang::Mya),
            56 => Some(Lang::Nep),
            57 => Some(Lang::Sin),
            58 => Some(Lang::Khm),
            59 => Some(Lang::Tuk),
            60 => Some(Lang::Aka),
            61 => Some(Lang::Zul),
            62 => Some(Lang::Sna),
            63 => Some(Lang::Afr),
            64 => Some(Lang::Lat),
            65 => Some(Lang::Slk),
            66 => Some(Lang::Cat),
            67 => Some(Lang::Tgl),
            68 => Some(Lang::Hye),
            _ => None,
        }
    }
}

/// The ISO 639-1 code of `lang`.
pub open spec fn iso639_1(lang: Lang) -> Seq<char> {
    match lang {
        Lang::Epo => "eo"@,
        Lang::Eng => "en"@,
        Lang::Rus => "ru"@,
        Lang::Cmn => "zh"@,
        Lang::Spa => "es"@,
        Lang::Por => "pt"@,
        Lang::Ita => "it"@,
        Lang::Ben => "bn"@,
        Lang::Fra => "fr"@,
        Lang::Deu => "de"@,
        Lang::Ukr => "uk"@,
        Lang::Kat => "ka"@,
        Lang::Ara => "ar"@,
        Lang::Hin => "hi"@,
        Lang::Jpn => "ja"@,
        Lang::Heb => "he"@,
        Lang::Yid => "yi"@,
        Lang::Pol => "pl"@,
        Lang::Amh => "am"@,
        Lang::Jav => "jv"@,
        Lang::Kor => "ko"@,
        Lang::Nob => "nb"@,
        Lang::Dan => "da"@,
        Lang::Swe => "sv"@,
        Lang::Fin => "fi"@,
        Lang::Tur => "tr"@,
        Lang::Nld => "nl"@,
        Lang::Hun => "hu"@,
        Lang::Ces => "cs"@,
        Lang::Ell => "el"@,
        Lang::Bul => "bg"@,
        Lang::Bel => "be"@,
        Lang::Mar => "mr"@,
        Lang::Kan => "kn"@,
        Lang::Ron => "ro"@,
        Lang::Slv => "sl"@,
        Lang::Hrv => "hr"@,
        Lang::Srp => "sr"@,
        Lang::Mkd => "mk"@,
        Lang::Lit => "lt"@,
        Lang::Lav => "lv"@,
        Lang::Est => "et"@,
        Lang::Tam => "ta"@,
        Lang::Vie => "vi"@,
        Lang::Urd => "ur"@,
        Lang::Tha => "th"@,
        Lang::Guj => "gu"@,
        Lang::Uzb => "uz"@,
        Lang::Pan => "pa"@,
        Lang::Aze => "az"@,
        Lang::Ind => "id"@,
        Lang::Tel => "te"@,
        Lang::Pes => "fa"@,
        Lang::Mal => "ml"@,
        Lang::Ori => "or"@,
        Lang::Mya => "my"@,
        Lang::Nep => "ne"@,
        Lang::Sin => "si"@,
        Lang::Khm => "km"@,
        Lang::Tuk => "tk"@,
        Lang::Aka => "ak"@,
        Lang::Zul => "zu"@,
        Lang::Sna => "sn"@,
        Lang::Afr => "af"@,
        Lang::Lat => "la"@,
        Lang::Slk => "sk"@,
        Lang::Cat => "ca"@,
        Lang::Tgl => "tl"@,
        Lang::Hye => "hy"@,
    }
}

/// Convert a language to its ISO 639-1 code.
pub fn lang_to_iso639_1(lang: Lang) -> (code: LanguageCode)
    ensures
        code@ == iso639_1(lang),
{
    let code = match lang {
        Lang::Epo => "eo",
        Lang::Eng => "en",
        Lang::Rus => "ru",
        Lang::Cmn => "zh",
        Lang::Spa => "es",
        Lang::Por => "pt",
        Lang::Ita => "it",
        Lang::Ben => "bn",
        Lang::Fra => "fr",
        Lang::Deu => "de",
        Lang::Ukr => "uk",
        Lang::Kat => "ka",
        Lang::Ara => "ar",
        Lang::Hin => "hi",
        Lang::Jpn => "ja",
        Lang::Heb => "he",
        Lang::Yid => "yi",
        Lang::Pol => "pl",
        Lang::Amh => "am",
        Lang::Jav => "jv",
        Lang::Kor => "ko",
        Lang::Nob => "nb",
        Lang::Dan => "da",
        Lang::Swe => "sv",
        Lang::Fin => "fi",
        Lang::Tur => "tr",
        Lang::Nld => "nl",
        Lang::Hun => "hu",
        Lang::Ces => "cs",
        Lang::Ell => "el",
        Lang::Bul => "bg",
        Lang::Bel => "be",
        Lang::Mar => "mr",
        Lang::Kan => "kn",
        Lang::Ron => "ro",
        Lang::Slv => "sl",
        Lang::Hrv => "hr",
        Lang::Srp => "sr",
        Lang::Mkd => "mk",
        Lang::Lit => "lt",
        Lang::Lav => "lv",
        Lang::Est => "et",
        Lang::Tam => "ta",
        Lang::Vie => "vi",
        Lang::Urd => "ur",
        Lang::Tha => "th",
        Lang::Guj => "gu",
        Lang::Uzb => "uz",
        Lang::Pan => "pa",
        Lang::Aze => "az",
        Lang::Ind => "id",
        Lang::Tel => "te",
        Lang::Pes => "fa",
        Lang::Mal => "ml",
        Lang::Ori => "or",
        Lang::Mya => "my",
        Lang::Nep => "ne",
        Lang::Sin => "si",
        Lang::Khm => "km",
        Lang::Tuk => "tk",
        Lang::Aka => "ak",
        Lang::Zul => "zu",
        Lang::Sna => "sn",
        Lang::Afr => "af",
        Lang::Lat => "la",
        Lang::Slk => "sk",
        Lang::Cat => "ca",
        Lang::Tgl => "tl",
        Lang::Hye => "hy",
    };
    String::from_str(code)
}

/// Every code has two letters; none is empty.
pub proof fn lemma_iso_codes_have_two_letters(lang: Lang)
    ensures
        iso639_1(lang).len() == 2,
{
    match lang {
        Lang::Epo => reveal_strlit("eo"),
        Lang::Eng => reveal_strlit("en"),
        Lang::Rus => reveal_strlit("ru"),
        Lang::Cmn => reveal_strlit("zh"),
        Lang::Spa => reveal_strlit("es"),
        Lang::Por => reveal_strlit("pt"),
        Lang::Ita => reveal_strlit("it"),
        Lang::Ben => reveal_strlit("bn"),
        Lang::Fra => reveal_strlit("fr"),
        Lang::Deu => reveal_strlit("de"),
        Lang::Ukr => reveal_strlit("uk"),
        Lang::Kat => reveal_strlit("ka"),
        Lang::Ara => reveal_strlit("ar"),
        Lang::Hin => reveal_strlit("hi"),
        Lang::Jpn => reveal_strlit("ja"),
        Lang::Heb => reveal_strlit("he"),
        Lang::Yid => reveal_strlit("yi"),
        Lang::Pol => reveal_strlit("pl"),
        Lang::Amh => reveal_strlit("am"),
        Lang::Jav => reveal_strlit("jv"),
        Lang::Kor => reveal_strlit("ko"),
        Lang::Nob => reveal_strlit("nb"),
        Lang::Dan => reveal_strlit("da"),
        Lang::Swe => reveal_strlit("sv"),
        Lang::Fin => reveal_strlit("fi"),
        Lang::Tur => reveal_strlit("tr"),
        Lang::Nld => reveal_strlit("nl"),
        Lang::Hun => reveal_strlit("hu"),
        Lang::Ces => reveal_strlit("cs"),
        Lang::Ell => reveal_strlit("el"),
        Lang::Bul => reveal_strlit("bg"),
        Lang::Bel => reveal_strlit("be"),
        Lang::Mar => reveal_strlit("mr"),
        Lang::Kan => reveal_strlit("kn"),
        Lang::Ron => reveal_strlit("ro"),
        Lang::Slv => reveal_strlit("sl"),
        Lang::Hrv => reveal_strlit("hr"),
        Lang::Srp => reveal_strlit("sr"),
        Lang::Mkd => reveal_strlit("mk"),
        Lang::Lit => reveal_strlit("lt"),
        Lang::Lav => reveal_strlit("lv"),
        Lang::Est => reveal_strlit("et"),
        Lang::Tam => reveal_strlit("ta"),
        Lang::Vie => reveal_strlit("vi"),
        Lang::Urd => reveal_strlit("ur"),
        Lang::Tha => reveal_strlit("th"),
        Lang::Guj => reveal_strlit("gu"),
        Lang::Uzb => reveal_strlit("uz"),
        Lang::Pan => reveal_strlit("pa"),
        Lang::Aze => reveal_strlit("az"),
        Lang::Ind => reveal_strlit("id"),
        Lang::Tel => reveal_strlit("te"),
        Lang::Pes => reveal_strlit("fa"),
        Lang::Mal => reveal_strlit("ml"),
        Lang::Ori => reveal_strlit("or"),
        Lang::Mya => reveal_strlit("my"),
        Lang::Nep => reveal_strlit("ne"),
        Lang::Sin => reveal_strlit("si"),
        Lang::Khm => reveal_strlit("km"),
        Lang::Tuk => reveal_strlit("tk"),
        Lang::Aka => reveal_strlit("ak"),
        Lang::Zul => reveal_strlit("zu"),
        Lang::Sna => reveal_strlit("sn"),
        Lang::Afr => reveal_strlit("af"),
        Lang::Lat => reveal_strlit("la"),
        Lang::Slk => reveal_strlit("sk"),
        Lang::Cat => reveal_strlit("ca"),
        Lang::Tgl => reveal_strlit("tl"),
        Lang::Hye => reveal_strlit("hy"),
    }
}

/// The first two letters of a code, as one number.
spec fn letters(code: Seq<char>) -> int {
    (code[0] as int) * 0x110000 + (code[1] as int)
}

/// No two languages share a code.
pub proof fn lemma_iso_codes_distinct(a: Lang, b: Lang)
    requires
        a != b,
    ensures
        iso639_1(a) != iso639_1(b),
{
    reveal_strlit("af");
    reveal_strlit("ak");
    reveal_strlit("am");
    reveal_strlit("ar");
    reveal_strlit("az");
    reveal_strlit("be");
    reveal_strlit("bg");
    reveal_strlit("bn");
    reveal_strlit("ca");
    reveal_strlit("cs");
    reveal_strlit("da");
    reveal_strlit("de");
    reveal_strlit("el");
    reveal_strlit("en");
    reveal_strlit("eo");
    reveal_strlit("es");
    reveal_strlit("et");
    reveal_strlit("fa");
    reveal_strlit("fi");
    reveal_strlit("fr");
    reveal_strlit("gu");
    reveal_strlit("he");
    reveal_strlit("hi");
    reveal_strlit("hr");
    reveal_strlit("hu");
    reveal_strlit("hy");
    reveal_strlit("id");
    reveal_strlit("it");
    reveal_strlit("ja");
    reveal_strlit("jv");
    reveal_strlit("ka");
    reveal_strlit("km");
    reveal_strlit("kn");
    reveal_strlit("ko");
    reveal_strlit("la");
    reveal_strlit("lt");
    reveal_strlit("lv");
    reveal_strlit("mk");
    reveal_strlit("ml");
    reveal_strlit("mr");
    reveal_strlit("my");
    reveal_strlit("nb");
    reveal_strlit("ne");
    reveal_strlit("nl");
    reveal_strlit("or");
    reveal_strlit("pa");
    reveal_strlit("pl");
    reveal_strlit("pt");
    reveal_strlit("ro");
    reveal_strlit("ru");
    reveal_strlit("si");
    reveal_strlit("sk");
    reveal_strlit("sl");
    reveal_strlit("sn");
    reveal_strlit("sr");
    reveal_strlit("sv");
    reveal_strlit("ta");
    reveal_strlit("te");
    reveal_strlit("th");
    reveal_strlit("tk");
    reveal_strlit("tl");
    reveal_strlit("tr");
    reveal_strlit("uk");
    reveal_strlit("ur");
    reveal_strlit("uz");
    reveal_strlit("vi");
    reveal_strlit("yi");
    reveal_strlit("zh");
    reveal_strlit("zu");
    assert(letters(iso639_1(a)) != letters(iso639_1(b)));
}

/// `c` is white space: a code point with the Unicode property White_Space.
pub open spec fn is_white_space(c: char) -> bool {
    let n = c as u32;
    ||| 0x09 <= n <= 0x0D
    ||| n == 0x20
    ||| n == 0x85
    ||| n == 0xA0
    ||| n == 0x1680
    ||| 0x2000 <= n <= 0x200A
    ||| n == 0x2028
    ||| n == 0x2029
    ||| n == 0x202F
    ||| n == 0x205F
    ||| n == 0x3000
}

/// `text` holds nothing but white space; the empty text is blank.
pub open spec fn is_blank(text: Seq<char>) -> bool {
    forall|i: int| 0 <= i < text.len() ==> is_white_space(#[trigger] text[i])
}

/// Whether `c` is white space.
pub fn white_space(c: char) -> (white: bool)
    ensures
        white == is_white_space(c),
{
    let n: u32 = c as u32;
    (0x09 <= n && n <= 0x0D) || n == 0x20 || n == 0x85 || n == 0xA0 || n == 0x1680 || (0x2000 <= n
        && n <= 0x200A) || n == 0x2028 || n == 0x2029 || n == 0x202F || n == 0x205F || n == 0x3000
}

/// Whether `text` holds nothing but white space.
pub fn blank(text: &str) -> (blank: bool)
    ensures
        blank == is_blank(text@),
{
    for c in it: text.chars()
        invariant
            it.seq() == text@,
            forall|i: int| 0 <= i < it.index() ==> is_white_space(#[trigger] text@[i]),
    {
        if !white_space(c) {
            return false;
        }
    }
    true
}

/// The number of characters from which on a text is not put to the
/// classifier.
pub const CLASSIFIER_LIMIT: usize = 0x4000_0000;

/// What the classifier, `whatlang::detect`, says of `text`: the number of
/// the language it settles on and the bit pattern of its confidence, or
/// nothing where it settles on none. The classifier decides by the text
/// alone.
pub uninterp spec fn classifier_output(text: Seq<char>) -> Option<(u8, Confidence)>;

/// Asks the classifier about `text`. Calls `whatlang::detect`, whose answer
/// is a function of the text, and hands back the number of `Info::lang` and
/// the bits of `Info::confidence`. The classifier counts the characters of
/// the text in lower case in 32 bits, and a character has up to three in
/// lower case, so texts of 2^30 characters or more are kept from it.
#[verifier::external_body]
fn classify(text: &str) -> (raw: Option<(u8, Confidence)>)
    requires
        text@.len() < CLASSIFIER_LIMIT,
    ensures
        raw == classifier_output(text@),
{
    match whatlang::detect(text) {
        Some(info) => Some((info.lang() as u8, info.confidence().to_bits())),
        None => None,
    }
}

/// How a detection ends: with a language code and a confidence, with
/// nothing, or with an answer of the classifier that cannot be read.
pub enum Reading {
    Language(Seq<char>, Confidence),
    Nothing,
    Unreadable,
}

/// The language with the given number, if there is one.
pub open spec fn language_numbered(number: u8) -> Option<Lang> {
    if exists|lang: Lang| lang.number() == number {
        Some(choose|lang: Lang| lang.number() == number)
    } else {
        None
    }
}

/// The reading of the classifier's answer `raw`: its language by the
/// ISO 639-1 code, with its confidence. An answer with an unknown language
/// number, or with a confidence that is no value between 0 and 1, cannot be
/// read.
pub open spec fn reading_of(raw: Option<(u8, Confidence)>) -> Reading {
    match raw {
        None => Reading::Nothing,
        Some((number, confidence)) => match language_numbered(number) {
            Some(lang) => if confidence <= CONFIDENCE_ONE {
                Reading::Language(iso639_1(lang), confidence)
            } else {
                Reading::Unreadable
            },
            None => Reading::Unreadable,
        },
    }
}

/// The detection for `text`, given the classifier's answer `raw` to it: a
/// blank text has no language and a text of 2^30 characters or more is not
/// put to the classifier.
pub open spec fn detection_for(text: Seq<char>, raw: Option<(u8, Confidence)>) -> Reading {
    if is_blank(text) {
        Reading::Nothing
    } else if text.len() >= CLASSIFIER_LIMIT {
        Reading::Unreadable
    } else {
        reading_of(raw)
    }
}

/// The reading that the result of a detection stands for.
pub open spec fn reading_in(
    result: Result<Option<(LanguageCode, Confidence)>, AnalyticsError>,
) -> Reading {
    match result {
        Ok(Some((code, confidence))) => Reading::Language(code@, confidence),
        Ok(None) => Reading::Nothing,
        Err(_) => Reading::Unreadable,
    }
}

/// Reads the classifier's answer `raw`.
pub fn interpret_detection(raw: Option<(u8, Confidence)>) -> (result: Result<
    Option<(LanguageCode, Confidence)>,
    AnalyticsError,
>)
    ensures
        reading_in(result) == reading_of(raw),
        result matches Err(error) ==> error is LanguageDetection,
{
    match raw {
        None => Ok(None),
        Some((number, confidence)) => match Lang::from_number(number) {
            Some(lang) => {
                assert(language_numbered(number) == Some(lang));
                if confidence <= CONFIDENCE_ONE {
                    Ok(Some((lang_to_iso639_1(lang), confidence)))
                } else {
                    Err(
                        AnalyticsError::LanguageDetection(
                            String::from_str("confidence is no value between 0 and 1"),
                        ),
                    )
                }
            },
            None => {
                assert(language_numbered(number) is None);
                Err(AnalyticsError::LanguageDetection(String::from_str("unknown language")))
            },
        },
    }
}

/// Detect language from text content.
/// Returns ISO 639-1 code and confidence.
pub fn detect_language(text: &str) -> (result: Result<
    Option<(LanguageCode, Confidence)>,
    AnalyticsError,
>)
    ensures
        reading_in(result) == detection_for(text@, classifier_output(text@)),
        result matches Err(error) ==> error is LanguageDetection,
{
    if blank(text) {
        return Ok(None);
    }
    if text.unicode_len() >= CLASSIFIER_LIMIT {
        return Err(AnalyticsError::LanguageDetection(String::from_str("text is too long")));
    }
    interpret_detection(classify(text))
}

} // verus!
