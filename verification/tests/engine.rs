use kbdi::keyboard::{self, Error, KeyboardRegKey};
use kbdi::state::{
    DefaultUserState, LanguageProfile, LocaleEntry, SubstituteEntry, SystemState,
};
use kbdi::types::InputListItem;
use kbdi::{keyboard_legacy, keyboard_win8, lcid, win7, win8};

fn locale(tag: &str, lcid: u32, name: &str) -> LocaleEntry {
    LocaleEntry {
        tag: tag.to_string(),
        canonical: tag.to_string(),
        lcid,
        name: name.to_string(),
        english_name: name.to_string(),
        localised_name: name.to_string(),
        script_name: "Latin".to_string(),
    }
}

fn fresh_state() -> SystemState {
    SystemState {
        keyboards: Vec::new(),
        languages: Vec::new(),
        substitutes: Vec::new(),
        preload: Vec::new(),
        locales: vec![
            locale("sma-Latn-NO", 0x0c39, "Southern Sami"),
            locale("en-US", 0x0409, "English (United States)"),
        ],
        system32_files: vec!["kbdsma01.dll".to_string(), "kbdus.dll".to_string()],
        active_keyboard: 0x0409,
        default_user: DefaultUserState {
            languages: Vec::new(),
            substitutes: Vec::new(),
            preload: Vec::new(),
        },
    }
}

fn install_sma(state: &mut SystemState) -> Result<(), Error> {
    keyboard::install(
        state,
        "sma-Latn-NO",
        "Skolt Sami Layout",
        "{GUID-1}",
        "kbdsma01.dll",
        Some("Sørsamisk"),
    )
}

#[test]
fn fresh_install_creates_one_record() {
    let mut state = fresh_state();
    assert!(install_sma(&mut state).is_ok());
    assert_eq!(state.keyboards.len(), 1);
    let record = &state.keyboards[0];
    // First layout id on an empty root.
    assert_eq!(record.layout_id, Some(1));
    assert_eq!(record.id().unwrap(), "0001");
    // First sequence number of the reserved range, locale suffix attached.
    assert_eq!(record.key_id, 0xa0000c39);
    assert_eq!(record.regkey_id(), "a0000c39");
    assert_eq!(record.product_code.as_deref(), Some("{GUID-1}"));
    assert_eq!(record.layout_file.as_deref(), Some("kbdsma01.dll"));
    assert_eq!(record.layout_text.as_deref(), Some("Skolt Sami Layout"));
    assert_eq!(record.language_name.as_deref(), Some("Sørsamisk"));
    assert_eq!(record.locale_name.as_deref(), Some("sma-Latn-NO"));
}

#[test]
fn duplicate_install_is_rejected() {
    let mut state = fresh_state();
    assert!(install_sma(&mut state).is_ok());
    assert_eq!(install_sma(&mut state), Err(Error::AlreadyExists));
    assert_eq!(state.keyboards.len(), 1);
}

#[test]
fn second_install_advances_both_identifiers() {
    let mut state = fresh_state();
    assert!(install_sma(&mut state).is_ok());
    let r = keyboard::install(&mut state, "en-US", "US Layout", "{GUID-2}", "kbdus.dll", None);
    assert!(r.is_ok());
    assert_eq!(state.keyboards.len(), 2);
    let second = &state.keyboards[1];
    // The layout-id space is global, not per locale.
    assert_eq!(second.layout_id, Some(2));
    // A different locale suffix starts its own sequence.
    assert_eq!(second.key_id, 0xa0000409);
    // The display name came from the language-name service.
    assert_eq!(second.language_name.as_deref(), Some("English (United States)"));
}

#[test]
fn install_same_locale_advances_sequence() {
    let mut state = fresh_state();
    assert!(install_sma(&mut state).is_ok());
    let r = keyboard::install(
        &mut state,
        "sma-Latn-NO",
        "Second Layout",
        "{GUID-2}",
        "kbdus.dll",
        Some("Sørsamisk"),
    );
    assert!(r.is_ok());
    assert_eq!(state.keyboards[1].key_id, 0xa0010c39);
    assert_eq!(state.keyboards[1].layout_id, Some(2));
}

#[test]
fn find_by_product_code_scans() {
    let mut state = fresh_state();
    assert!(install_sma(&mut state).is_ok());
    let found = KeyboardRegKey::find_by_product_code(&state, "{GUID-1}").unwrap();
    assert_eq!(found.key_id, 0xa0000c39);
    assert!(KeyboardRegKey::find_by_product_code(&state, "{GUID-9}").is_none());
}

#[test]
fn enable_after_install_populates_preload() {
    let mut state = fresh_state();
    assert!(install_sma(&mut state).is_ok());
    let r = keyboard_win8::enable(&mut state, "sma-Latn-NO", "{GUID-1}", None);
    assert!(r.is_ok());
    // The language is now enabled.
    let langs = win8::enabled_languages(&state);
    assert_eq!(langs, vec!["sma-Latn-NO".to_string()]);
    // Its profile carries the new reference.
    assert_eq!(state.languages[0].methods, vec![InputListItem {
        lang_id: 0x0c39,
        tip_id: 0xa0000c39,
    }]);
    // And one Preload slot references the keyboard directly: no substitute
    // exists for it.
    assert_eq!(state.preload.len(), 1);
    assert_eq!(state.preload[0].index, 1);
    assert_eq!(state.preload[0].value, 0xa0000c39);
    // The foreground keyboard is restored.
    assert_eq!(state.active_keyboard, 0x0409);
}

#[test]
fn enable_unknown_product_code_fails() {
    let mut state = fresh_state();
    assert!(install_sma(&mut state).is_ok());
    let r = keyboard_win8::enable(&mut state, "sma-Latn-NO", "{GUID-9}", None);
    assert_eq!(r, Err(Error::NotFound));
}

#[test]
fn enable_caches_display_name() {
    let mut state = fresh_state();
    assert!(install_sma(&mut state).is_ok());
    let r = keyboard_win8::enable(&mut state, "sma-Latn-NO", "{GUID-1}", Some("Sørsamisk"));
    assert!(r.is_ok());
    assert_eq!(
        state.languages[0].cached_language_name.as_deref(),
        Some("Sørsamisk")
    );
}

#[test]
fn enable_twice_does_not_duplicate_reference() {
    let mut state = fresh_state();
    assert!(install_sma(&mut state).is_ok());
    assert!(keyboard_win8::enable(&mut state, "sma-Latn-NO", "{GUID-1}", None).is_ok());
    assert!(keyboard_win8::enable(&mut state, "sma-Latn-NO", "{GUID-1}", None).is_ok());
    assert_eq!(state.languages[0].methods.len(), 1);
    assert_eq!(state.preload.len(), 1);
}

#[test]
fn regeneration_prefers_matching_substitute() {
    let mut state = fresh_state();
    assert!(install_sma(&mut state).is_ok());
    // The keyboard is already attached to its language, and a substitute
    // targets it with a matching locale half.
    assert!(keyboard_win8::enable(&mut state, "sma-Latn-NO", "{GUID-1}", None).is_ok());
    state.substitutes.push(SubstituteEntry { id: 0xd0010c39, target: 0xa0000c39 });
    keyboard_win8::regenerate_registry(&mut state);
    // The Preload slot holds the substitute, not the raw keyboard.
    assert_eq!(state.preload.len(), 1);
    assert_eq!(state.preload[0].value, 0xd0010c39);
    // The substitute survived the garbage collection.
    assert_eq!(state.substitutes, vec![SubstituteEntry { id: 0xd0010c39, target: 0xa0000c39 }]);
    // And it is still preferred when the keyboard is enabled again.
    assert!(keyboard_win8::enable(&mut state, "sma-Latn-NO", "{GUID-1}", None).is_ok());
    assert_eq!(state.preload.len(), 1);
    assert_eq!(state.preload[0].value, 0xd0010c39);
}

#[test]
fn regeneration_ignores_substitute_with_wrong_locale_half() {
    let mut state = fresh_state();
    assert!(install_sma(&mut state).is_ok());
    assert!(keyboard_win8::enable(&mut state, "sma-Latn-NO", "{GUID-1}", None).is_ok());
    // Right target, wrong locale half: kept, but not written into Preload.
    state.substitutes.push(SubstituteEntry { id: 0xd0010409, target: 0xa0000c39 });
    keyboard_win8::regenerate_registry(&mut state);
    assert_eq!(state.preload.len(), 1);
    assert_eq!(state.preload[0].value, 0xa0000c39);
    assert_eq!(state.substitutes.len(), 1);
}

#[test]
fn regeneration_drops_dangling_substitute_and_sorts() {
    let mut state = fresh_state();
    state.languages = vec![
        LanguageProfile {
            tag: "en-US".to_string(),
            cached_language_name: None,
            transient_lang_id: None,
            features_to_install: Some(0xe3),
            methods: vec![
                InputListItem { lang_id: 0x0409, tip_id: 0xa0010409 },
                InputListItem { lang_id: 0x0409, tip_id: 0x00000409 },
            ],
        },
        LanguageProfile {
            tag: "sma-Latn-NO".to_string(),
            cached_language_name: None,
            transient_lang_id: None,
            features_to_install: Some(0xe3),
            methods: vec![InputListItem { lang_id: 0x0c39, tip_id: 0xa0000c39 }],
        },
    ];
    // One substitute with no surviving target.
    state.substitutes.push(SubstituteEntry { id: 0xd0010410, target: 0xa0000410 });
    keyboard_win8::regenerate_registry(&mut state);
    // Dangling substitute deleted.
    assert!(state.substitutes.is_empty());
    // Preload rebuilt sequentially: locale ascending first, then keyboard.
    let values: Vec<(usize, u32)> = state.preload.iter().map(|e| (e.index, e.value)).collect();
    assert_eq!(values, vec![(1, 0x00000409), (2, 0xa0010409), (3, 0xa0000c39)]);
}

#[test]
fn uninstall_triggers_cleanup() {
    let mut state = fresh_state();
    assert!(install_sma(&mut state).is_ok());
    assert!(keyboard_win8::enable(&mut state, "sma-Latn-NO", "{GUID-1}", None).is_ok());
    assert_eq!(win8::enabled_languages(&state), vec!["sma-Latn-NO".to_string()]);

    let r = keyboard::uninstall(&mut state, "{GUID-1}");
    assert!(r.is_ok());
    // The record is gone, and the language lost its last keyboard, so the
    // cleanup removed it from the enabled list.
    assert!(state.keyboards.is_empty());
    assert!(win8::enabled_languages(&state).is_empty());
    assert!(state.languages.is_empty());
}

#[test]
fn uninstall_unknown_product_code_fails() {
    let mut state = fresh_state();
    assert_eq!(keyboard::uninstall(&mut state, "{GUID-9}"), Err(Error::NotFound));
}

#[test]
fn enable_language_is_idempotent() {
    let mut state = fresh_state();
    win8::enable_language(&mut state, "sma-Latn-NO");
    let once = win8::enabled_languages(&state);
    win8::enable_language(&mut state, "sma-Latn-NO");
    let twice = win8::enabled_languages(&state);
    assert_eq!(once, vec!["sma-Latn-NO".to_string()]);
    assert_eq!(once, twice);
}

#[test]
fn enable_language_drops_unknown_tag() {
    let mut state = fresh_state();
    win8::enable_language(&mut state, "zz-ZZ");
    assert!(win8::enabled_languages(&state).is_empty());
    // And doing it again changes nothing either.
    win8::enable_language(&mut state, "zz-ZZ");
    assert!(win8::enabled_languages(&state).is_empty());
}

#[test]
fn set_user_languages_validates_and_keeps_data() {
    let mut state = fresh_state();
    win8::enable_language(&mut state, "en-US");
    state.languages[0].methods.push(InputListItem { lang_id: 0x0409, tip_id: 0x00000409 });
    let tags = vec!["en-US".to_string(), "zz-ZZ".to_string(), "sma-Latn-NO".to_string()];
    win8::set_user_languages(&mut state, &tags);
    let langs = win8::enabled_languages(&state);
    assert_eq!(langs, vec!["en-US".to_string(), "sma-Latn-NO".to_string()]);
    // The existing profile kept its input methods.
    assert_eq!(state.languages[0].methods.len(), 1);
    // Every committed profile holds the features default.
    assert_eq!(state.languages[0].features_to_install, Some(0xe3));
    assert_eq!(state.languages[1].features_to_install, Some(0xe3));
}

#[test]
fn disable_empty_languages_drops_only_empty() {
    let mut state = fresh_state();
    win8::enable_language(&mut state, "en-US");
    win8::enable_language(&mut state, "sma-Latn-NO");
    state.languages[0].methods.push(InputListItem { lang_id: 0x0409, tip_id: 0x00000409 });
    win8::disable_empty_languages(&mut state);
    assert_eq!(win8::enabled_languages(&state), vec!["en-US".to_string()]);
}

#[test]
fn clean_removes_duplicates_invalid_dlls_and_dangling_references() {
    let mut state = fresh_state();
    assert!(install_sma(&mut state).is_ok());
    assert!(keyboard_win8::enable(&mut state, "sma-Latn-NO", "{GUID-1}", None).is_ok());
    // A duplicate of the installed record, and one whose DLL is missing.
    let dup = kbdi::state::KeyboardRegKey {
        key_id: 0xa0010c39,
        layout_id: Some(2),
        product_code: Some("{GUID-1}".to_string()),
        language_name: None,
        layout_file: Some("kbdsma01.dll".to_string()),
        layout_text: None,
        locale_name: None,
        language_display_name: None,
        layout_display_name: None,
    };
    let missing = kbdi::state::KeyboardRegKey {
        key_id: 0xa0020c39,
        layout_id: Some(3),
        product_code: Some("{GUID-3}".to_string()),
        language_name: None,
        layout_file: Some("nosuch.dll".to_string()),
        layout_text: None,
        locale_name: None,
        language_display_name: None,
        layout_display_name: None,
    };
    state.keyboards.push(dup);
    state.keyboards.push(missing);
    // A dangling custom reference on the language.
    state.languages[0].methods.push(InputListItem { lang_id: 0x0c39, tip_id: 0xa0070c39 });

    win8::clean(&mut state);
    // Only the first record per product code, with its DLL present, stays.
    assert_eq!(state.keyboards.len(), 1);
    assert_eq!(state.keyboards[0].key_id, 0xa0000c39);
    // The dangling reference is gone, the valid one stays.
    assert_eq!(state.languages[0].methods, vec![InputListItem {
        lang_id: 0x0c39,
        tip_id: 0xa0000c39,
    }]);
    assert_eq!(win8::enabled_languages(&state), vec!["sma-Latn-NO".to_string()]);
}

#[test]
fn clean_twice_changes_nothing_more() {
    let mut state = fresh_state();
    assert!(install_sma(&mut state).is_ok());
    assert!(keyboard_win8::enable(&mut state, "sma-Latn-NO", "{GUID-1}", None).is_ok());
    win8::enable_language(&mut state, "en-US");
    state.keyboards.push(kbdi::state::KeyboardRegKey {
        key_id: 0xa0010c39,
        layout_id: Some(2),
        product_code: Some("{GUID-1}".to_string()),
        language_name: None,
        layout_file: Some("kbdsma01.dll".to_string()),
        layout_text: None,
        locale_name: None,
        language_display_name: None,
        layout_display_name: None,
    });
    state.languages[0].methods.push(InputListItem { lang_id: 0x0c39, tip_id: 0xa0070c39 });

    win8::clean(&mut state);
    let keyboards_once: Vec<u32> = state.keyboards.iter().map(|k| k.key_id).collect();
    let langs_once = win8::enabled_languages(&state);
    let methods_once: Vec<Vec<InputListItem>> =
        state.languages.iter().map(|p| p.methods.clone()).collect();
    let subs_once = state.substitutes.clone();
    let preload_once: Vec<(usize, u32)> =
        state.preload.iter().map(|e| (e.index, e.value)).collect();

    win8::clean(&mut state);
    let keyboards_twice: Vec<u32> = state.keyboards.iter().map(|k| k.key_id).collect();
    let langs_twice = win8::enabled_languages(&state);
    let methods_twice: Vec<Vec<InputListItem>> =
        state.languages.iter().map(|p| p.methods.clone()).collect();
    let subs_twice = state.substitutes.clone();
    let preload_twice: Vec<(usize, u32)> =
        state.preload.iter().map(|e| (e.index, e.value)).collect();

    assert_eq!(keyboards_once, keyboards_twice);
    assert_eq!(langs_once, langs_twice);
    assert_eq!(methods_once, methods_twice);
    assert_eq!(subs_once, subs_twice);
    assert_eq!(preload_once, preload_twice);
}

#[test]
fn legacy_enable_installs_single_reference() {
    let mut state = fresh_state();
    assert!(install_sma(&mut state).is_ok());
    win8::enable_language(&mut state, "sma-Latn-NO");
    let r = keyboard_legacy::enable(&mut state, "sma-Latn-NO", "{GUID-1}");
    assert!(r.is_ok());
    assert_eq!(state.languages[0].methods, vec![InputListItem {
        lang_id: 0x0c39,
        tip_id: 0xa0000c39,
    }]);
    // The legacy path never touches the derived tables.
    assert!(state.preload.is_empty());
}

#[test]
fn legacy_enable_unknown_code_fails() {
    let mut state = fresh_state();
    assert_eq!(
        keyboard_legacy::enable(&mut state, "sma-Latn-NO", "{GUID-9}"),
        Err(Error::NotFound)
    );
}

#[test]
fn next_substitute_id_steps_through_ranges() {
    let mut state = fresh_state();
    // Nothing for this suffix yet: the identifier is the bare suffix.
    assert_eq!(keyboard_legacy::next_substitute_id(&state, 0x0c39), 0x00000c39);
    // A zero-prefixed entry sends the next one to the reserved range.
    state.substitutes.push(SubstituteEntry { id: 0x00000c39, target: 0xa0000c39 });
    assert_eq!(keyboard_legacy::next_substitute_id(&state, 0x0c39), 0xd0010c39);
    // From there the prefix counts up.
    state.substitutes.push(SubstituteEntry { id: 0xd0010c39, target: 0xa0010c39 });
    assert_eq!(keyboard_legacy::next_substitute_id(&state, 0x0c39), 0xd0020c39);
    // Other suffixes do not interfere.
    assert_eq!(keyboard_legacy::next_substitute_id(&state, 0x0409), 0x00000409);
}

#[test]
fn next_preload_id_counts_past_highest() {
    let mut state = fresh_state();
    assert_eq!(keyboard_legacy::next_preload_id(&state, false), 1);
    state.preload.push(kbdi::state::PreloadEntry { index: 1, value: 0xa0000c39 });
    state.preload.push(kbdi::state::PreloadEntry { index: 3, value: 0xa0010c39 });
    assert_eq!(keyboard_legacy::next_preload_id(&state, false), 4);
    // The default-user hive is counted separately.
    assert_eq!(keyboard_legacy::next_preload_id(&state, true), 1);
}

#[test]
fn allocator_results_are_fresh() {
    let mut state = fresh_state();
    assert_eq!(keyboard::first_available_keyboard_regkey_id(&state, 0x0c39), 0xa0000c39);
    assert_eq!(keyboard::first_available_layout_id(&state), 1);
    assert!(install_sma(&mut state).is_ok());
    assert_eq!(keyboard::first_available_keyboard_regkey_id(&state, 0x0c39), 0xa0010c39);
    // Strictly greater than every stored layout id.
    assert_eq!(keyboard::first_available_layout_id(&state), 2);
}

#[test]
fn lcid_resolution_and_defaults() {
    let mut state = fresh_state();
    assert_eq!(lcid(&state, "sma-Latn-NO"), 0x0c39);
    // An unknown tag falls back to the transient default.
    assert_eq!(lcid(&state, "zz-ZZ"), 0x2000);
    // The reserved transient value maps to the default too.
    state.locales.push(LocaleEntry {
        tag: "x-trans".to_string(),
        canonical: "x-trans".to_string(),
        lcid: 0x1000,
        name: "Transient".to_string(),
        english_name: "Transient".to_string(),
        localised_name: "Transient".to_string(),
        script_name: "Latin".to_string(),
    });
    assert_eq!(lcid(&state, "x-trans"), 0x2000);
}

#[test]
fn query_language_describes_known_tag() {
    let state = fresh_state();
    let text = win8::query_language(&state, "en-US");
    assert_eq!(
        text,
        "Tag:           en-US\nName:          English (United States)\nEnglish Name:  English (United States)\nNative Name:   English (United States)\nScript:        Latin\nLCID:          0x00000409"
    );
}

#[test]
fn query_language_reports_unsupported_tag() {
    let state = fresh_state();
    assert_eq!(win8::query_language(&state, "zz-ZZ"), "zz-ZZ: Unsupported tag.\n");
}

#[test]
fn query_language_legacy_format() {
    let state = fresh_state();
    assert_eq!(win7::query_language(&state, "en-US"), "Tag:  en-US\nLCID: 0x00000409");
    assert_eq!(win7::query_language(&state, "zz-ZZ"), "Tag:  zz-ZZ\nLCID: undefined");
}

#[test]
fn legacy_clean_keeps_input_methods() {
    let mut state = fresh_state();
    assert!(install_sma(&mut state).is_ok());
    win8::enable_language(&mut state, "sma-Latn-NO");
    state.languages[0].methods.push(InputListItem { lang_id: 0x0c39, tip_id: 0xa0070c39 });
    state.keyboards.push(kbdi::state::KeyboardRegKey {
        key_id: 0xa0010c39,
        layout_id: Some(2),
        product_code: Some("{GUID-1}".to_string()),
        language_name: None,
        layout_file: Some("kbdsma01.dll".to_string()),
        layout_text: None,
        locale_name: None,
        language_display_name: None,
        layout_display_name: None,
    });
    win7::clean(&mut state);
    // Duplicates go, but the language layer is untouched here.
    assert_eq!(state.keyboards.len(), 1);
    assert_eq!(state.languages[0].methods.len(), 1);
}

#[test]
fn record_description_lists_values() {
    let mut state = fresh_state();
    assert!(install_sma(&mut state).is_ok());
    let text = state.keyboards[0].description();
    assert_eq!(
        text,
        "Registry Key:   a0000c39\nLayout Name:    Skolt Sami Layout\nLanguage Name:  Sørsamisk\nLayout File:    kbdsma01.dll\nLayout Id:      0001\nProduct Code:   {GUID-1}\n"
    );
}

#[test]
fn installed_lists_only_custom_records() {
    let mut state = fresh_state();
    assert!(install_sma(&mut state).is_ok());
    state.keyboards.push(kbdi::state::KeyboardRegKey {
        key_id: 0x00000409,
        layout_id: Some(9),
        product_code: None,
        language_name: None,
        layout_file: Some("kbdus.dll".to_string()),
        layout_text: None,
        locale_name: None,
        language_display_name: None,
        layout_display_name: None,
    });
    let listed = KeyboardRegKey::installed(&state);
    assert_eq!(listed.len(), 1);
    assert_eq!(listed[0].key_id, 0xa0000c39);
}

#[test]
fn enabled_keyboards_formats_canonically() {
    let mut state = fresh_state();
    assert!(install_sma(&mut state).is_ok());
    assert!(keyboard_win8::enable(&mut state, "sma-Latn-NO", "{GUID-1}", None).is_ok());
    let kbs = win8::enabled_keyboards(&state);
    assert_eq!(kbs.len(), 1);
    assert_eq!(kbs[0].0, "sma-Latn-NO");
    assert_eq!(kbs[0].1, vec!["0C39:A0000C39".to_string()]);
}

#[test]
fn per_language_input_methods_query() {
    let mut state = fresh_state();
    assert!(install_sma(&mut state).is_ok());
    assert!(keyboard_win8::enable(&mut state, "sma-Latn-NO", "{GUID-1}", None).is_ok());
    assert_eq!(
        win8::get_user_language_input_methods(&state, "sma-Latn-NO"),
        vec!["0C39:A0000C39".to_string()]
    );
    assert!(win8::get_user_language_input_methods(&state, "en-US").is_empty());
}

#[test]
fn default_user_mirror_receives_profile_and_preload() {
    let mut state = fresh_state();
    assert!(install_sma(&mut state).is_ok());
    assert!(keyboard_win8::enable(&mut state, "sma-Latn-NO", "{GUID-1}", None).is_ok());
    keyboard_win8::enable_default_user_lang(&mut state, "sma-Latn-NO");
    assert_eq!(state.default_user.languages.len(), 1);
    assert_eq!(state.default_user.languages[0].tag, "sma-Latn-NO");
    assert_eq!(state.default_user.languages[0].methods.len(), 1);
    assert_eq!(state.default_user.preload.len(), 1);
    assert_eq!(state.default_user.preload[0].value, 0xa0000c39);
}

#[test]
fn remove_invalid_kbids_keeps_native_references() {
    let mut state = fresh_state();
    win8::enable_language(&mut state, "en-US");
    state.languages[0].methods.push(InputListItem { lang_id: 0x0409, tip_id: 0x00000409 });
    state.languages[0].methods.push(InputListItem { lang_id: 0x0409, tip_id: 0xa0010409 });
    keyboard_win8::remove_invalid_kbids(&mut state);
    // The native reference survives; the dangling custom one is gone.
    assert_eq!(state.languages[0].methods, vec![InputListItem {
        lang_id: 0x0409,
        tip_id: 0x00000409,
    }]);
}
