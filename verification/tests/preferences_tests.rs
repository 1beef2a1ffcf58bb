use codex_manager_core::preferences::{
    build_preference_config, parse_codex_preferences, read_codex_preferences,
    save_codex_preferences, CodexPreferenceConfig, PreferenceError,
};

#[test]
fn build_preference_config_updates_desktop_and_instructions() {
    let next = build_preference_config(
        r#"model_provider = "openai"

[desktop]
ambient-suggestions-enabled = true
"#,
        &CodexPreferenceConfig {
            locale_override: "zh-CN".to_string(),
            developer_instructions: "请默认使用中文回答。".to_string(),
        },
    )
    .unwrap();

    assert!(next.contains("developer_instructions = \"请默认使用中文回答。\""));
    assert!(next.contains("localeOverride = \"zh-CN\""));
    assert!(next.contains("ambient-suggestions-enabled = true"));
}

#[test]
fn build_preference_config_removes_empty_values() {
    let next = build_preference_config(
        r#"developer_instructions = "old"

[desktop]
localeOverride = "zh-CN"
ambient-suggestions-enabled = true
"#,
        &CodexPreferenceConfig::default(),
    )
    .unwrap();

    assert!(!next.contains("developer_instructions"));
    assert!(!next.contains("localeOverride"));
    assert!(next.contains("ambient-suggestions-enabled = true"));
}

#[test]
fn reads_preferences_back() {
    let prefs = parse_codex_preferences(
        "developer_instructions = \"be brief\"\n[desktop]\nlocaleOverride = \"en\"\n",
    )
    .unwrap();
    assert_eq!(prefs.developer_instructions, "be brief");
    assert_eq!(prefs.locale_override, "en");
    let empty = parse_codex_preferences("   ").unwrap();
    assert_eq!(empty.locale_override, "");
    let read = read_codex_preferences("desktop = 1\n", "/c/config.toml").unwrap();
    assert_eq!(read.locale_override, "");
    assert_eq!(read.config_path, "/c/config.toml");
}

#[test]
fn refuses_invalid_toml() {
    assert!(matches!(
        parse_codex_preferences("[broken"),
        Err(PreferenceError::InvalidToml(_))
    ));
    assert!(build_preference_config("= =", &CodexPreferenceConfig::default()).is_err());
}

#[test]
fn saving_reports_the_saved_values() {
    let (text, saved) = save_codex_preferences(
        "",
        &CodexPreferenceConfig {
            locale_override: " ja ".to_string(),
            developer_instructions: " hi ".to_string(),
        },
        "/c/config.toml",
        "/b/1.json",
    )
    .unwrap();
    assert!(text.ends_with('\n'));
    assert_eq!(saved.locale_override, "ja");
    assert_eq!(saved.developer_instructions, "hi");
    assert_eq!(saved.backup_path, "/b/1.json");
}

#[test]
fn saving_keeps_other_settings_and_reads_back() {
    let current = "model = \"m\"\n[desktop]\nlocaleOverride = \"en\"\ntheme = \"dark\"\n";
    let (text, saved) = save_codex_preferences(
        current,
        &CodexPreferenceConfig {
            locale_override: "zh-CN".to_string(),
            developer_instructions: String::new(),
        },
        "/c/config.toml",
        "/b/2.json",
    )
    .unwrap();
    assert!(text.contains("model = \"m\""));
    assert!(text.contains("theme = \"dark\""));
    assert!(text.contains("localeOverride = \"zh-CN\""));
    assert!(!text.contains("developer_instructions"));
    assert_eq!(saved.locale_override, "zh-CN");
    assert_eq!(saved.developer_instructions, "");
    let back = parse_codex_preferences(&text).unwrap();
    assert_eq!(back.locale_override, "zh-CN");
    let (_, dotted) = save_codex_preferences(
        "desktop.localeOverride = \"fr\"\n",
        &CodexPreferenceConfig::default(),
        "/c/config.toml",
        "/b/3.json",
    )
    .unwrap();
    assert_eq!(dotted.locale_override, "");
}
