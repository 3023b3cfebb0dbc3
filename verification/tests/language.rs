use turing_machine::language::{kept_if_clean, AppLanguage, ENG, FTL_EN, FTL_RU, RUS};

#[test]
fn tags_name_their_languages() {
    assert_eq!(AppLanguage::build_or_default("ru-RU"), AppLanguage::Russian);
    assert_eq!(AppLanguage::build_or_default("en-US"), AppLanguage::English);
    assert_eq!(AppLanguage::build_or_default("de-DE"), AppLanguage::English);
    assert_eq!(AppLanguage::build_or_default(""), AppLanguage::English);
    assert_eq!(AppLanguage::build_or_default("ru-ru"), AppLanguage::English);
    assert_eq!(AppLanguage::English.to_string(), "en-US");
    assert_eq!(AppLanguage::Russian.to_string(), "ru-RU");
    assert_eq!(AppLanguage::English.tag(), ENG);
    assert_eq!(AppLanguage::Russian.tag(), RUS);
    for language in [AppLanguage::English, AppLanguage::Russian] {
        assert_eq!(AppLanguage::build_or_default(language.tag()), language);
    }
}

#[test]
fn locale_picks_the_language() {
    assert_eq!(AppLanguage::from_locale(None), AppLanguage::English);
    assert_eq!(AppLanguage::from_locale(Some("ru-RU".into())), AppLanguage::Russian);
    assert_eq!(AppLanguage::from_locale(Some("fr-FR".into())), AppLanguage::English);
    let language = AppLanguage::default();
    assert!(language == AppLanguage::English || language == AppLanguage::Russian);
}

#[test]
fn next_switches_between_the_two_languages() {
    assert_eq!(AppLanguage::English.next(), AppLanguage::Russian);
    assert_eq!(AppLanguage::Russian.next(), AppLanguage::English);
    assert_eq!(AppLanguage::English.next().next(), AppLanguage::English);
}

#[test]
fn translation_lists() {
    assert_eq!(AppLanguage::English.get_ftl(), FTL_EN);
    assert_eq!(AppLanguage::Russian.get_ftl(), FTL_RU);
    assert!(FTL_EN.contains("zoom = Zoom\n"));
    assert!(FTL_RU.contains("axis-max-steps = "));
    assert_eq!(FTL_EN.lines().count(), FTL_RU.lines().count());
}

#[test]
fn language_identifiers_parse() {
    let en = AppLanguage::English.get_lang_id().unwrap();
    assert_eq!(en.to_string(), "en-US");
    assert_eq!(en.language.as_str(), "en");
    let ru = AppLanguage::Russian.get_lang_id().unwrap();
    assert_eq!(ru.to_string(), "ru-RU");
    assert_eq!(ru.region.unwrap().as_str(), "RU");
}

#[test]
fn resources_hold_the_translation_lists() {
    let en = AppLanguage::English.get_res().unwrap();
    assert_eq!(en.source(), FTL_EN);
    assert_eq!(en.entries().count(), 28);
    let ru = AppLanguage::Russian.get_res().unwrap();
    assert_eq!(ru.source(), FTL_RU);
    assert_eq!(ru.entries().count(), 28);
}

fn message(language: AppLanguage, id: &str) -> String {
    let bundle = language.get_bundle().unwrap();
    let pattern = bundle.get_message(id).unwrap().value().unwrap();
    bundle.format_pattern(pattern, None, &mut vec![]).to_string()
}

#[test]
fn bundles_translate() {
    assert_eq!(message(AppLanguage::English, "zoom"), "Zoom");
    assert_eq!(message(AppLanguage::English, "err-no-protocol"), "No protocol");
    assert_eq!(message(AppLanguage::English, "label-number-sign"), "#");
    assert_eq!(message(AppLanguage::Russian, "stop"), "\u{421}\u{442}\u{43e}\u{43f}");
    assert_eq!(message(AppLanguage::Russian, "label-number-sign"), "\u{2116}");
    let bundle = AppLanguage::English.get_bundle().unwrap();
    assert_eq!(bundle.locales.len(), 1);
    assert_eq!(bundle.locales[0].to_string(), "en-US");
    assert!(bundle.has_message("btn-change-language"));
    assert!(!bundle.has_message("no-such-message"));
}

#[test]
fn bundle_is_dropped_where_adding_failed() {
    let bundle = AppLanguage::English.get_bundle().unwrap();
    assert!(kept_if_clean(bundle, Ok(())).is_some());
    let bundle = AppLanguage::English.get_bundle().unwrap();
    assert!(kept_if_clean(bundle, Err(vec![])).is_none());
}
