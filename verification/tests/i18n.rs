use muscli::i18n::{
    catalogues, detect_language, format_template, language, lookup, parse, plural,
    resolve_language, set_language, Catalogues, Language, Translator, LANGUAGE_CHOICES,
};

const ENGLISH: &str = r#"
"status.scanning" = "Scanning {label}: {done}/{total}"
"view.home" = "Home"
"view.albums" = "Albums"
"label.paused_presence" = "Paused: {artist}"
"doctor.protocol_unknown" = "unknown"
"doctor.terminal_graphics" = "{term}, {protocol}"
"tracks.count.one" = "{count} track"
"tracks.count.other" = "{count} tracks"
"#;

const SPANISH: &str = r#"
"status.scanning" = "Escaneando {label}: {done}/{total}"
"view.home" = "Inicio"
"view.albums" = "Álbumes"
"label.paused_presence" = "En pausa: {artist}"
"doctor.protocol_unknown" = "desconocido"
"doctor.terminal_graphics" = "{term}, {protocol}"
"tracks.count.one" = "{count} pista"
"tracks.count.other" = "{count} pistas"
"#;

fn both() -> Catalogues {
    catalogues(ENGLISH, SPANISH).expect("both catalogues parse")
}

fn placeholders(template: &str) -> Vec<&str> {
    let mut names = Vec::new();
    let mut rest = template;
    while let Some(start) = rest.find('{') {
        let Some(length) = rest[start..].find('}') else {
            break;
        };
        names.push(&rest[start + 1..start + length]);
        rest = &rest[start + length + 1..];
    }
    names.sort_unstable();
    names
}

#[test]
fn language_tags_are_parsed_leniently() {
    for tag in ["es", "ES", "es_ES.UTF-8", "es-419", "es@valencia"] {
        assert_eq!(Language::from_tag(tag), Some(Language::Spanish), "{tag}");
    }
    assert_eq!(Language::from_tag("en_GB.UTF-8"), Some(Language::English));
    assert_eq!(Language::from_tag("fr_FR"), None);
    assert_eq!(Language::from_tag("C"), None);
}

#[test]
fn mod_the_flag_wins_over_the_configuration() {
    assert_eq!(resolve_language(Some("es"), "en", None), Language::Spanish);
    assert_eq!(resolve_language(Some("en"), "es", None), Language::English);
}

#[test]
fn mod_the_configuration_is_used_when_no_flag_is_given() {
    assert_eq!(resolve_language(None, "es", None), Language::Spanish);
}

#[test]
fn mod_auto_and_nonsense_fall_through_to_detection() {
    for configured in ["auto", "klingon", ""] {
        for detected in [None, Some(Language::English), Some(Language::Spanish)] {
            let resolved = resolve_language(None, configured, detected);
            assert!(
                matches!(resolved, Language::English | Language::Spanish),
                "{configured}"
            );
            assert_eq!(resolved, detected.unwrap_or(Language::English));
        }
    }
}

#[test]
fn main_the_flag_wins_over_the_configuration() {
    assert_eq!(resolve_language(Some("es"), "en", None), Language::Spanish);
    assert_eq!(resolve_language(Some("en"), "es", None), Language::English);
}

#[test]
fn main_the_configuration_is_used_when_no_flag_is_given() {
    assert_eq!(resolve_language(None, "es", None), Language::Spanish);
}

#[test]
fn main_auto_and_nonsense_fall_through_to_detection() {
    for configured in ["auto", "klingon", ""] {
        let resolved = resolve_language(None, configured, None);
        assert!(
            matches!(resolved, Language::English | Language::Spanish),
            "{configured}"
        );
    }
}

#[test]
fn every_explicit_choice_names_a_language_muscli_speaks() {
    for choice in LANGUAGE_CHOICES.iter().filter(|choice| **choice != "auto") {
        assert!(Language::from_tag(choice).is_some(), "{choice}");
    }
}

#[test]
fn both_catalogues_parse() {
    let catalogues = both();
    assert!(!catalogues.english.is_empty());
    assert!(!catalogues.spanish.is_empty());
}

#[test]
fn every_english_key_is_translated_with_the_same_placeholders() {
    let catalogues = both();
    let mut missing = Vec::new();
    let mut mismatched = Vec::new();
    for (key, english) in &catalogues.english {
        let Some((_, spanish)) = catalogues.spanish.iter().find(|(k, _)| k == key) else {
            missing.push(key.clone());
            continue;
        };
        if placeholders(english) != placeholders(spanish) {
            mismatched.push(key.clone());
        }
    }
    missing.sort();
    mismatched.sort();
    assert!(missing.is_empty(), "untranslated keys: {missing:?}");
    assert!(
        mismatched.is_empty(),
        "placeholders differ between languages: {mismatched:?}"
    );
}

#[test]
fn no_translation_exists_without_an_english_original() {
    let catalogues = both();
    let mut orphans: Vec<&String> = catalogues
        .spanish
        .iter()
        .map(|(key, _)| key)
        .filter(|key| !catalogues.english.iter().any(|(k, _)| k == *key))
        .collect();
    orphans.sort();
    assert!(
        orphans.is_empty(),
        "translations with no English key: {orphans:?}"
    );
}

#[test]
fn plural_forms_come_in_pairs() {
    let catalogues = both();
    let has = |key: &str| catalogues.english.iter().any(|(k, _)| k == key);
    for (key, _) in &catalogues.english {
        if let Some(stem) = key.strip_suffix(".one") {
            assert!(has(&format!("{stem}.other")), "{key} has no plural form");
        }
        if let Some(stem) = key.strip_suffix(".other") {
            assert!(has(&format!("{stem}.one")), "{key} has no singular form");
        }
    }
}

#[test]
fn placeholders_are_substituted() {
    assert_eq!(
        format_template(
            "Scanning {label}: {done}/{total}",
            &[
                ("done", 3.to_string()),
                ("total", 7.to_string()),
                ("label", "USB".to_string())
            ]
        ),
        "Scanning USB: 3/7"
    );
}

#[test]
fn an_unknown_placeholder_is_left_visible() {
    assert_eq!(
        format_template("before {missing} after", &[]),
        "before {missing} after"
    );
}

#[test]
fn a_template_without_placeholders_is_returned_as_is() {
    assert_eq!(
        format_template("plain text", &[("unused", 1.to_string())]),
        "plain text"
    );
}

#[test]
fn an_unclosed_brace_does_not_swallow_the_rest() {
    assert_eq!(format_template("open { brace", &[]), "open { brace");
}

#[test]
fn a_missing_key_shows_itself() {
    let translator = Translator::new(both());
    assert_eq!(lookup(&translator, "no.such.key.exists"), "no.such.key.exists");
}

#[test]
fn the_language_read_back_is_the_one_set() {
    let mut translator = Translator::new(both());
    assert_eq!(language(&translator), Language::English);
    set_language(&mut translator, Language::Spanish);
    assert_eq!(language(&translator), Language::Spanish);
    set_language(&mut translator, Language::English);
    assert_eq!(language(&translator), Language::English);
}

#[test]
fn a_missing_translation_falls_back_to_english() {
    let english = format!("{ENGLISH}\n\"only.english\" = \"Only in English\"\n");
    let mut translator =
        Translator::new(catalogues(&english, SPANISH).expect("both catalogues parse"));
    set_language(&mut translator, Language::Spanish);
    assert_eq!(lookup(&translator, "view.home"), "Inicio");
    assert_eq!(lookup(&translator, "only.english"), "Only in English");
    assert_eq!(lookup(&translator, "nowhere"), "nowhere");
}

#[test]
fn formatted_and_plural_strings_follow_the_language() {
    let mut translator = Translator::new(both());
    assert_eq!(
        muscli::i18n::format(&translator, "label.paused_presence", &[("artist", "Björk".to_string())]),
        "Paused: Björk"
    );
    assert_eq!(plural(&translator, "tracks.count", 1), "{count} track");
    assert_eq!(plural(&translator, "tracks.count", 2), "{count} tracks");
    set_language(&mut translator, Language::Spanish);
    assert_eq!(plural(&translator, "tracks.count", 0), "{count} pistas");
    assert_eq!(
        muscli::i18n::format(&translator, "label.paused_presence", &[("artist", "Björk".to_string())]),
        "En pausa: Björk"
    );
}

#[test]
fn a_malformed_catalogue_is_reported_by_name() {
    let error = parse("not = [valid", "Spanish").expect_err("malformed");
    assert_eq!(error.name, "Spanish");
    assert!(!error.message.is_empty());
    let error = catalogues("\"a\" = \"b\"", "nested = { table = 1 }").expect_err("not strings");
    assert_eq!(error.name, "Spanish");
}

#[test]
fn the_locale_settings_are_read_in_order() {
    let values = vec!["C".to_string(), "es_AR.UTF-8".to_string(), "en_US".to_string()];
    assert_eq!(detect_language(&values), Some(Language::Spanish));
    assert_eq!(detect_language(&["fr".to_string()]), None);
    assert_eq!(detect_language(&[]), None);
}

#[test]
fn languages_know_their_codes_and_names() {
    assert_eq!(Language::English.code(), "en");
    assert_eq!(Language::Spanish.code(), "es");
    assert_eq!(Language::Spanish.label(), "Español");
    assert_eq!(Language::from_ordinal(Language::Spanish.ordinal()), Language::Spanish);
    assert_eq!(Language::from_ordinal(7), Language::English);
    assert_eq!(Language::default(), Language::English);
}
