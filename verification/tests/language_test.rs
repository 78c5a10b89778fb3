use nostr_analytics::{
    blank, detect_language, interpret_detection, lang_to_iso639_1, white_space, AnalyticsError,
    Lang, CONFIDENCE_ONE,
};

#[test]
fn test_detect_english() {
    let result = detect_language("Hello, this is a test message in English.").unwrap();
    assert!(result.is_some());
    let (lang, conf) = result.unwrap();
    assert_eq!(lang, "en");
    assert!(f64::from_bits(conf) > 0.5);
}

#[test]
fn test_detect_japanese() {
    let result =
        detect_language("こんにちは、これは日本語のテストメッセージです。").unwrap();
    assert!(result.is_some());
    let (lang, conf) = result.unwrap();
    assert_eq!(lang, "ja");
    assert!(f64::from_bits(conf) > 0.5);
}

#[test]
fn test_detect_empty() {
    let result = detect_language("").unwrap();
    assert!(result.is_none());
}

#[test]
fn test_detect_short() {
    let result = detect_language("Hi").unwrap();
    // Short text may or may not be detected
    if let Some((_, conf)) = result {
        assert!((0.0..=1.0).contains(&f64::from_bits(conf)));
    }
}

#[test]
fn detect_blank_text_has_no_language() {
    assert!(detect_language(" \t\r\n").unwrap().is_none());
    assert!(detect_language("\u{3000}\u{a0}\u{2003}").unwrap().is_none());
}

#[test]
fn detect_text_without_letters_has_no_language() {
    assert!(detect_language("1234567890-,;!").unwrap().is_none());
}

#[test]
fn detect_is_repeatable() {
    let text = "Благодаря Эсперанто вы обрётете друзей по всему миру!";
    let first = detect_language(text).unwrap();
    let second = detect_language(text).unwrap();
    assert_eq!(first, second);
    assert_eq!(first.unwrap().0, "ru");
}

#[test]
fn white_space_follows_unicode() {
    for c in [
        '\t', '\n', '\u{b}', '\u{c}', '\r', ' ', '\u{85}', '\u{a0}', '\u{1680}', '\u{2000}',
        '\u{200a}', '\u{2028}', '\u{2029}', '\u{202f}', '\u{205f}', '\u{3000}',
    ] {
        assert!(white_space(c));
    }
    for c in ['a', '0', '\u{8}', '\u{e}', '\u{200b}', '\u{180e}', '\u{feff}'] {
        assert!(!white_space(c));
    }
}

#[test]
fn white_space_agrees_with_std_on_every_char() {
    let mut code = 0u32;
    while code <= 0x10ffff {
        if let Some(c) = char::from_u32(code) {
            assert_eq!(white_space(c), c.is_whitespace());
        }
        code += 1;
    }
}

#[test]
fn blank_agrees_with_trim() {
    for text in ["", " ", "\n\t ", " a ", "a", "\u{3000}", "\u{3000}x", "  .  "] {
        assert_eq!(blank(text), text.trim().is_empty());
    }
}

#[test]
fn interpret_reads_language_number_and_confidence() {
    let half = 0.5f64.to_bits();
    assert_eq!(interpret_detection(Some((1, half))).unwrap(), Some(("en".to_string(), half)));
    assert_eq!(interpret_detection(Some((0, half))).unwrap(), Some(("eo".to_string(), half)));
    assert_eq!(interpret_detection(Some((14, 0))).unwrap(), Some(("ja".to_string(), 0)));
    assert_eq!(
        interpret_detection(Some((68, CONFIDENCE_ONE))).unwrap(),
        Some(("hy".to_string(), CONFIDENCE_ONE))
    );
    assert_eq!(interpret_detection(None).unwrap(), None);
}

#[test]
fn interpret_refuses_unknown_language() {
    let error = interpret_detection(Some((69, 0.5f64.to_bits()))).unwrap_err();
    assert!(matches!(error, AnalyticsError::LanguageDetection(_)));
    let error = interpret_detection(Some((255, 0))).unwrap_err();
    assert!(matches!(error, AnalyticsError::LanguageDetection(_)));
}

#[test]
fn interpret_refuses_confidence_out_of_range() {
    for bits in [CONFIDENCE_ONE + 1, f64::NAN.to_bits(), (-0.5f64).to_bits(), 2.0f64.to_bits()] {
        let error = interpret_detection(Some((1, bits))).unwrap_err();
        assert!(matches!(error, AnalyticsError::LanguageDetection(_)));
    }
}

#[test]
fn confidence_one_is_the_bit_pattern_of_one() {
    assert_eq!(CONFIDENCE_ONE, 1.0f64.to_bits());
}

#[test]
fn iso_codes_of_some_languages() {
    assert_eq!(lang_to_iso639_1(Lang::Eng), "en");
    assert_eq!(lang_to_iso639_1(Lang::Rus), "ru");
    assert_eq!(lang_to_iso639_1(Lang::Cmn), "zh");
    assert_eq!(lang_to_iso639_1(Lang::Jpn), "ja");
    assert_eq!(lang_to_iso639_1(Lang::Nob), "nb");
    assert_eq!(lang_to_iso639_1(Lang::Pes), "fa");
    assert_eq!(lang_to_iso639_1(Lang::Epo), "eo");
    assert_eq!(lang_to_iso639_1(Lang::Hye), "hy");
}

#[test]
fn language_numbers_are_those_of_the_classifier() {
    for lang in whatlang::Lang::all() {
        let number = *lang as u8;
        let own = Lang::from_number(number).unwrap();
        assert_eq!(format!("{:?}", own), format!("{:?}", lang));
    }
    assert!(Lang::from_number(whatlang::Lang::all().len() as u8).is_none());
}

#[test]
fn iso_codes_are_two_letters_and_distinct() {
    let mut seen: Vec<String> = Vec::new();
    for number in 0..69u8 {
        let code = lang_to_iso639_1(Lang::from_number(number).unwrap());
        assert_eq!(code.len(), 2);
        assert!(code.chars().all(|c| c.is_ascii_lowercase()));
        assert!(!seen.contains(&code));
        seen.push(code);
    }
}

#[test]
fn iso_code_of_every_language() {
    let table = [
        (whatlang::Lang::Epo, "eo"),
        (whatlang::Lang::Eng, "en"),
        (whatlang::Lang::Rus, "ru"),
        (whatlang::Lang::Cmn, "zh"),
        (whatlang::Lang::Spa, "es"),
        (whatlang::Lang::Por, "pt"),
        (whatlang::Lang::Ita, "it"),
        (whatlang::Lang::Ben, "bn"),
        (whatlang::Lang::Fra, "fr"),
        (whatlang::Lang::Deu, "de"),
        (whatlang::Lang::Ukr, "uk"),
        (whatlang::Lang::Kat, "ka"),
        (whatlang::Lang::Ara, "ar"),
        (whatlang::Lang::Hin, "hi"),
        (whatlang::Lang::Jpn, "ja"),
        (whatlang::Lang::Heb, "he"),
        (whatlang::Lang::Yid, "yi"),
        (whatlang::Lang::Pol, "pl"),
        (whatlang::Lang::Amh, "am"),
        (whatlang::Lang::Jav, "jv"),
        (whatlang::Lang::Kor, "ko"),
        (whatlang::Lang::Nob, "nb"),
        (whatlang::Lang::Dan, "da"),
        (whatlang::Lang::Swe, "sv"),
        (whatlang::Lang::Fin, "fi"),
        (whatlang::Lang::Tur, "tr"),
        (whatlang::Lang::Nld, "nl"),
        (whatlang::Lang::Hun, "hu"),
        (whatlang::Lang::Ces, "cs"),
        (whatlang::Lang::Ell, "el"),
        (whatlang::Lang::Bul, "bg"),
        (whatlang::Lang::Bel, "be"),
        (whatlang::Lang::Mar, "mr"),
        (whatlang::Lang::Kan, "kn"),
        (whatlang::Lang::Ron, "ro"),
        (whatlang::Lang::Slv, "sl"),
        (whatlang::Lang::Hrv, "hr"),
        (whatlang::Lang::Srp, "sr"),
        (whatlang::Lang::Mkd, "mk"),
        (whatlang::Lang::Lit, "lt"),
        (whatlang::Lang::Lav, "lv"),
        (whatlang::Lang::Est, "et"),
        (whatlang::Lang::Tam, "ta"),
        (whatlang::Lang::Vie, "vi"),
        (whatlang::Lang::Urd, "ur"),
        (whatlang::Lang::Tha, "th"),
        (whatlang::Lang::Guj, "gu"),
        (whatlang::Lang::Uzb, "uz"),
        (whatlang::Lang::Pan, "pa"),
        (whatlang::Lang::Aze, "az"),
        (whatlang::Lang::Ind, "id"),
        (whatlang::Lang::Tel, "te"),
        (whatlang::Lang::Pes, "fa"),
        (whatlang::Lang::Mal, "ml"),
        (whatlang::Lang::Ori, "or"),
        (whatlang::Lang::Mya, "my"),
        (whatlang::Lang::Nep, "ne"),
        (whatlang::Lang::Sin, "si"),
        (whatlang::Lang::Khm, "km"),
        (whatlang::Lang::Tuk, "tk"),
        (whatlang::Lang::Aka, "ak"),
        (whatlang::Lang::Zul, "zu"),
        (whatlang::Lang::Sna, "sn"),
        (whatlang::Lang::Afr, "af"),
        (whatlang::Lang::Lat, "la"),
        (whatlang::Lang::Slk, "sk"),
        (whatlang::Lang::Cat, "ca"),
        (whatlang::Lang::Tgl, "tl"),
        (whatlang::Lang::Hye, "hy"),
    ];
    assert_eq!(table.len(), whatlang::Lang::all().len());
    for (lang, code) in table {
        let own = Lang::from_number(lang as u8).unwrap();
        assert_eq!(lang_to_iso639_1(own), code);
        assert_eq!(
            interpret_detection(Some((lang as u8, CONFIDENCE_ONE))).unwrap(),
            Some((code.to_string(), CONFIDENCE_ONE))
        );
    }
}
