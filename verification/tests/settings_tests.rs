use codex_manager_core::paths::{
    backup_dir, codex_auth_file, codex_config_file, codex_home_dir, config_dir, data_dir, manager_dir,
    settings_file,
};
use codex_manager_core::settings::{
    clean_url, normalize_api_key, Account, AppSettings, SettingsStore, DEFAULT_AUTH_BASE_URL,
};

#[test]
fn plugin_unlock_is_disabled_by_default() {
    assert!(!AppSettings::default().plugin_enabled);
}

#[test]
fn default_settings_use_the_default_server() {
    let s = AppSettings::default();
    assert_eq!(s.auth.login_mode, "newApi");
    assert_eq!(s.auth.base_url, DEFAULT_AUTH_BASE_URL);
    assert!(s.accounts.is_empty());
}

#[test]
fn normalises_keys_and_urls() {
    assert_eq!(normalize_api_key("  abc "), "sk-abc");
    assert_eq!(normalize_api_key("sk-abc"), "sk-abc");
    assert_eq!(normalize_api_key("   "), "");
    assert_eq!(normalize_api_key(&normalize_api_key(" x ")), normalize_api_key(" x "));
    assert_eq!(clean_url(" https://a.test/v1// "), "https://a.test/v1");
}

fn account(id: &str, enabled: bool) -> Account {
    Account {
        id: id.to_string(),
        name: format!(" {id} "),
        base_url: "https://a.test/ ".to_string(),
        api_key: "key".to_string(),
        enabled,
    }
}

#[test]
fn normalising_settings_fixes_accounts_and_active_id() {
    let mut s = AppSettings::default();
    s.accounts = vec![account("", true), account("b", false), account("c", true)];
    s.active_account_id = "missing".to_string();
    let n = s.normalized();
    assert_eq!(n.accounts.len(), 3);
    assert_eq!(n.accounts[0].id.len(), 36);
    assert_eq!(n.accounts[0].api_key, "sk-key");
    assert_eq!(n.accounts[0].base_url, "https://a.test");
    // The first enabled account becomes active when the saved one is gone.
    assert_eq!(n.active_account_id, n.accounts[0].id);
    let again = AppSettings {
        codex_app_path: n.codex_app_path.clone(),
        active_account_id: n.active_account_id.clone(),
        launch_extra_args: n.launch_extra_args.clone(),
        plugin_enabled: n.plugin_enabled,
        auth: n.auth.clone(),
        accounts: n.accounts.clone(),
    }
    .normalized();
    assert_eq!(again.active_account_id, n.active_account_id);
    assert_eq!(again.accounts[0].id, n.accounts[0].id);
    assert_eq!(again.active_account().map(|a| a.id.clone()), Some(n.accounts[0].id.clone()));
}

#[test]
fn settings_store_keeps_its_path() {
    let store = SettingsStore::new("/tmp/x/config.json".to_string());
    assert_eq!(store.path(), "/tmp/x/config.json");
    assert!(SettingsStore::default().path().ends_with("config.json"));
    assert!(settings_file().ends_with("config.json"));
}

#[test]
fn codex_files_follow_codex_home() {
    assert_eq!(codex_home_dir(Some("/c/home".to_string())), "/c/home");
    assert!(codex_config_file(Some("/c/home".to_string())).ends_with("config.toml"));
    assert!(codex_auth_file(Some("/c/home".to_string())).starts_with("/c/home"));
    assert!(codex_home_dir(Some(String::new())).ends_with(".codex"));
}

#[test]
fn manager_directories_are_never_empty() {
    assert!(!config_dir().is_empty());
    assert!(!data_dir().is_empty());
    assert!(settings_file().ends_with("config.json"));
}

#[test]
fn manager_directory_falls_back_to_home() {
    assert_eq!(manager_dir(Some("/x/CodexManager".to_string())), "/x/CodexManager");
    assert!(manager_dir(None).ends_with(".codex-manager"));
    assert!(backup_dir().ends_with("backups"));
    let config = codex_config_file(None);
    let auth = codex_auth_file(None);
    assert!(config.ends_with("config.toml"));
    assert!(config.strip_suffix("config.toml").unwrap().trim_end_matches(['/', '\\']).ends_with(".codex"));
    assert_eq!(config.strip_suffix("config.toml"), auth.strip_suffix("auth.json"));
}

#[test]
fn new_accounts_get_version_four_uuids() {
    let a = Account::new("n".to_string(), "https://a.test".to_string(), "sk-1".to_string());
    let id: Vec<char> = a.id.chars().collect();
    assert_eq!(id.len(), 36);
    for (i, c) in id.iter().enumerate() {
        assert_eq!(*c == '-', [8, 13, 18, 23].contains(&i));
    }
    assert_eq!(id[14], '4');
    assert!(['8', '9', 'a', 'b'].contains(&id[19]));
}

#[test]
fn manager_directories_follow_the_platform() {
    let config = config_dir();
    let data = data_dir();
    let platform = |d: &str, leaf: &str| {
        d.ends_with("/codexmanager")
            || d.ends_with("/dev.CodexManager.CodexManager")
            || d.ends_with(&format!("\\CodexManager\\CodexManager\\{leaf}"))
            || d.ends_with(".codex-manager")
    };
    assert!(platform(&config, "config"));
    assert!(platform(&data, "data"));
    assert!(settings_file().starts_with(config.as_str()));
    assert!(backup_dir().starts_with(data.as_str()));
}
