use std::collections::BTreeSet;

use zed_locale::{
    available_locales, canonical_locale, first_locale_for_language, initial_locale, locale,
    locale_candidates, lookup_text, set_locale, text, text_args, text_args_for_locale,
    text_for_locale, try_text, try_text_args, Catalogs, LocaleResource, Localization,
};

const EN_US: &str = r#"{
    "agent.thread.copied_context": "Copied {name}",
    "common.close": "Close",
    "common.greeting": "Hello {name}, welcome to {place}",
    "common.only_english": "Only in English"
}"#;

const ZH_HANS: &str = r#"{
    "agent.thread.copied_context": "已复制 {name}",
    "common.close": "关闭",
    "common.greeting": "你好 {name}，欢迎来到 {place}",
    "common.only_english": "仅英文"
}"#;

const ZH_HANT_HK: &str = r#"{
    "agent.thread.copied_context": "已複製 {name}",
    "common.close": "關閉",
    "common.greeting": "你好 {name}，歡迎來到 {place}",
    "common.only_english": "僅英文"
}"#;

const ZH_HANT_TW: &str = r#"{
    "agent.thread.copied_context": "已複製 {name}",
    "common.close": "關閉",
    "common.greeting": "你好 {name}，歡迎來到 {place}",
    "common.only_english": "僅英文"
}"#;

const JA_JP: &str = r#"{
    "agent.thread.copied_context": "{name} をコピーしました",
    "common.close": "閉じる",
    "common.greeting": "こんにちは {name}、{place} へようこそ",
    "common.only_english": "英語のみ"
}"#;

fn resources() -> Vec<LocaleResource> {
    [
        ("en-US", EN_US),
        ("zh-Hans", ZH_HANS),
        ("zh-Hant-HK", ZH_HANT_HK),
        ("zh-Hant-TW", ZH_HANT_TW),
        ("ja-JP", JA_JP),
    ]
    .into_iter()
    .map(|(tag, json)| LocaleResource {
        tag: tag.to_string(),
        json: json.to_string(),
    })
    .collect()
}

fn catalogs() -> Catalogs {
    Catalogs::from_resources(&resources()).expect("valid resources")
}

#[test]
fn canonicalizes_locale_tags() {
    assert_eq!(canonical_locale("zh_hans_cn"), "zh-Hans-CN");
    assert_eq!(canonical_locale("EN-us"), "en-US");
}

#[test]
fn falls_back_to_language_match_then_english() {
    let catalogs = catalogs();
    assert_eq!(text_for_locale(&catalogs, "zh-Hans-CN", "common.close"), "关闭");

    assert_eq!(text_for_locale(&catalogs, "fr-FR", "common.close"), "Close");
}

#[test]
fn interpolates_placeholders() {
    let catalogs = catalogs();
    assert_eq!(
        text_args_for_locale(
            &catalogs,
            "en-US",
            "agent.thread.copied_context",
            &[("name", "main.rs")]
        ),
        "Copied main.rs"
    );
}

fn placeholders(value: &str) -> BTreeSet<String> {
    let mut placeholders = BTreeSet::new();
    let mut rest = value;

    while let Some(start) = rest.find('{') {
        rest = &rest[start + 1..];
        let Some(end) = rest.find('}') else {
            break;
        };
        placeholders.insert(rest[..end].to_string());
        rest = &rest[end + 1..];
    }

    placeholders
}

fn keys_of(json: &str) -> BTreeSet<String> {
    serde_json::from_str::<std::collections::BTreeMap<String, serde_json::Value>>(json)
        .expect("valid resource")
        .into_keys()
        .collect()
}

fn message(catalogs: &Catalogs, locale: &str, key: &str) -> String {
    catalogs
        .lookup(&locale.chars().collect(), &key.chars().collect())
        .unwrap_or_else(|| panic!("{locale}:{key} missing"))
}

#[test]
fn resources_have_the_same_keys_and_placeholders() {
    let all = resources();
    let catalogs = catalogs();
    let en_keys = keys_of(&all.iter().find(|r| r.tag == "en-US").unwrap().json);

    for locale in available_locales().iter().copied().filter(|locale| *locale != "en-US") {
        let keys = keys_of(&all.iter().find(|r| r.tag == locale).unwrap().json);
        assert_eq!(en_keys, keys, "{locale}");

        for key in &en_keys {
            assert_eq!(
                placeholders(&message(&catalogs, "en-US", key)),
                placeholders(&message(&catalogs, locale, key)),
                "{locale}:{key}"
            );
        }
    }
}

#[test]
fn canonicalizes_more_tags() {
    assert_eq!(canonical_locale("zh_hant_tw"), "zh-Hant-TW");
    assert_eq!(canonical_locale("JA"), "ja");
    assert_eq!(canonical_locale("ja-jp"), "ja-JP");
    assert_eq!(canonical_locale(""), "en-us");
    assert_eq!(canonical_locale("-hans"), "en-us-Hans");
    assert_eq!(canonical_locale("sr-latn-rs-x"), "sr-Latn-RS-X");
    // A four-byte subtag of non-ASCII characters gets the Unicode upper case
    // of its first character.
    assert_eq!(canonical_locale("xx-éab"), "xx-Éab");
    // `ß` (two bytes) with two more ASCII bytes is a four-byte subtag.
    assert_eq!(canonical_locale("de-ßAB"), "de-SSab");
    // Five bytes: not a script, upper-cased by ASCII rules only.
    assert_eq!(canonical_locale("xx-ééa"), "xx-ééA");
}

#[test]
fn candidates_follow_the_fallback_order() {
    assert_eq!(locale_candidates("zh_hans_cn"), vec!["zh-Hans-CN", "zh-Hans", "en-US"]);
    assert_eq!(locale_candidates("zh-Hant-HK"), vec!["zh-Hant-HK", "zh-Hant", "zh-Hans", "en-US"]);
    assert_eq!(locale_candidates("en-US"), vec!["en-US"]);
    assert_eq!(locale_candidates("en"), vec!["en", "en-US"]);
    assert_eq!(locale_candidates("fr-FR"), vec!["fr-FR", "en-US"]);
    assert_eq!(locale_candidates("ja"), vec!["ja", "ja-JP", "en-US"]);
}

#[test]
fn first_locale_of_a_language() {
    assert_eq!(first_locale_for_language("zh"), Some("zh-Hans"));
    assert_eq!(first_locale_for_language("ja"), Some("ja-JP"));
    assert_eq!(first_locale_for_language("en"), Some("en-US"));
    assert_eq!(first_locale_for_language("fr"), None);
    assert_eq!(first_locale_for_language("zh-Hans"), None);
}

#[test]
fn lists_available_locales() {
    assert_eq!(
        available_locales(),
        &["en-US", "zh-Hans", "zh-Hant-HK", "zh-Hant-TW", "ja-JP"]
    );
}

#[test]
fn picks_the_initial_locale() {
    assert_eq!(initial_locale(Some("zh_hans"), Some("ja-JP")), "zh-Hans");
    assert_eq!(initial_locale(None, Some("ja_jp")), "ja-JP");
    assert_eq!(initial_locale(None, None), "en-US");
}

#[test]
fn set_locale_reads_back_canonical() {
    let mut state = Localization::new(catalogs(), None, None);
    assert_eq!(locale(&state), "en-US");
    set_locale(&mut state, "zh_hant_tw");
    assert_eq!(locale(&state), "zh-Hant-TW");
    assert_eq!(text(&state, "common.close"), "關閉");
    assert_eq!(
        text_args(&state, "agent.thread.copied_context", &[("name", "lib.rs")]),
        "已複製 lib.rs"
    );
}

#[test]
fn english_fallback_for_any_locale() {
    let catalogs = catalogs();
    assert_eq!(text_for_locale(&catalogs, "xx-YY", "common.only_english"), "Only in English");
    assert_eq!(text_for_locale(&catalogs, "", "common.close"), "Close");
}

#[test]
fn unknown_keys_are_reported() {
    let catalogs = catalogs();
    assert_eq!(lookup_text(&catalogs, "en-US", "no.such.key"), None);
    let state = Localization::new(catalogs, Some("ja-JP"), None);
    assert_eq!(try_text(&state, "no.such.key"), None);
    assert_eq!(try_text(&state, "common.close"), Some("閉じる".to_string()));
    assert_eq!(try_text_args(&state, "no.such.key", &[]), None);
    assert_eq!(
        try_text_args(&state, "agent.thread.copied_context", &[("name", "a")]),
        Some("a をコピーしました".to_string())
    );
}

#[test]
fn interpolation_replaces_every_argument_in_order() {
    let catalogs = catalogs();
    assert_eq!(
        text_args_for_locale(
            &catalogs,
            "en-US",
            "common.greeting",
            &[("name", "Ada"), ("place", "Zed")]
        ),
        "Hello Ada, welcome to Zed"
    );
    // A replacement that spells a later placeholder is itself replaced.
    assert_eq!(
        text_args_for_locale(
            &catalogs,
            "en-US",
            "common.greeting",
            &[("name", "{place}"), ("place", "Zed")]
        ),
        "Hello Zed, welcome to Zed"
    );
    // Without arguments the text comes back as it is.
    assert_eq!(
        text_args_for_locale(&catalogs, "en-US", "common.greeting", &[]),
        "Hello {name}, welcome to {place}"
    );
}

#[test]
fn invalid_resources_are_rejected() {
    let bad_json = vec![LocaleResource {
        tag: "en-US".to_string(),
        json: "{ not json".to_string(),
    }];
    assert!(Catalogs::from_resources(&bad_json).is_none());
    let not_a_string = vec![LocaleResource {
        tag: "en-US".to_string(),
        json: r#"{"common.close": 1}"#.to_string(),
    }];
    assert!(Catalogs::from_resources(&not_a_string).is_none());
    let not_an_object = vec![LocaleResource {
        tag: "en-US".to_string(),
        json: r#"["Close"]"#.to_string(),
    }];
    assert!(Catalogs::from_resources(&not_an_object).is_none());
}

#[test]
fn canonical_spelling_is_stable_for_ascii_tags() {
    for tag in ["zh_hans_cn", "EN-us", "sr-latn-rs-x", "ja", "a-bcd-efgh-ijklm", "x__y"] {
        let once = canonical_locale(tag);
        assert_eq!(canonical_locale(&once), once, "{tag}");
    }
    // Where the language subtag is empty it is not: `en-us` is spelled
    // `en-US` the next time.
    assert_eq!(canonical_locale(""), "en-us");
    assert_eq!(canonical_locale(&canonical_locale("")), "en-US");
}

#[test]
fn exact_locale_is_tried_first() {
    let catalogs = catalogs();
    assert_eq!(text_for_locale(&catalogs, "zh_hant_hk", "common.close"), "關閉");
    assert_eq!(text_for_locale(&catalogs, "JA-jp", "common.close"), "閉じる");
}

#[test]
fn text_without_placeholders_is_unchanged() {
    let catalogs = catalogs();
    assert_eq!(
        text_args_for_locale(&catalogs, "en-US", "common.close", &[("name", "x"), ("place", "y")]),
        "Close"
    );
}

#[test]
fn a_later_resource_of_a_tag_replaces_an_earlier_one() {
    let resources = vec![
        LocaleResource {
            tag: "en-US".to_string(),
            json: r#"{"common.close": "Close"}"#.to_string(),
        },
        LocaleResource {
            tag: "en-US".to_string(),
            json: r#"{"common.close": "Dismiss"}"#.to_string(),
        },
    ];
    let catalogs = Catalogs::from_resources(&resources).unwrap();
    assert_eq!(text_for_locale(&catalogs, "en-US", "common.close"), "Dismiss");
    assert_eq!(lookup_text(&catalogs, "en-US", "common.open"), None);
}

#[test]
fn canonical_spelling_only_changes_case_of_ascii_tags() {
    for tag in ["zh_hans_cn", "EN-us", "sr_LATN-rs", "x-y_z"] {
        let canonical = canonical_locale(tag);
        assert_eq!(canonical.len(), tag.len(), "{tag}");
        assert!(!canonical.contains('_'), "{tag}");
        assert_eq!(
            canonical.to_ascii_lowercase(),
            tag.replace('_', "-").to_ascii_lowercase(),
            "{tag}"
        );
    }
}

#[test]
fn the_active_locale_has_a_lower_case_language() {
    let mut state = Localization::new(catalogs(), None, Some("PT_br"));
    assert_eq!(locale(&state), "pt-BR");
    for tag in ["", "-X", "ZH_hant", "Éa-bc"] {
        set_locale(&mut state, tag);
        let active = locale(&state);
        assert!(!active.is_empty());
        let language = active.split('-').next().unwrap();
        assert!(!language.chars().any(|c| c.is_ascii_uppercase()), "{tag}: {active}");
    }
}

#[test]
fn catalogs_must_cover_the_available_locales() {
    assert!(catalogs().covers_available_locales());
    let partial = Catalogs::from_resources(&resources().into_iter().take(2).collect()).unwrap();
    assert!(!partial.covers_available_locales());
    let mut extra = resources();
    extra.push(LocaleResource {
        tag: "fr-FR".to_string(),
        json: r#"{"common.close": "Fermer"}"#.to_string(),
    });
    assert!(!Catalogs::from_resources(&extra).unwrap().covers_available_locales());
}
