use codex_manager_core::codex_config::{
    apply_account_to_codex, backup_file_name, build_codex_auth, build_codex_config,
    clear_codex_manager_config, file_snapshot, latest_backup_name, remove_manager_provider, snapshot_action,
    CodexConfigError, FileAction, FileSnapshot,
};
use codex_manager_core::settings::Account;

#[test]
fn build_config_replaces_existing_manager_provider() {
    let next = build_codex_config(
        r#"model_provider = "CodexManager"

[model_providers.CodexManager]
base_url = "https://old.test/v1"
"#,
        "https://new.test/v1",
    );

    assert!(next.contains("model_provider = \"CodexManager\""));
    assert!(next.contains("base_url = \"https://new.test/v1\""));
    assert!(!next.contains("https://old.test"));
}

#[test]
fn build_config_keeps_other_settings_and_escapes_url() {
    let next = build_codex_config(
        "model = \"gpt\"\nmodel_provider = \"openai\"\n\n[other]\nx = 1\n",
        "https://a.test/\"q\\",
    );
    assert_eq!(
        next,
        "model = \"gpt\"\nmodel_provider = \"CodexManager\"\n\n[other]\nx = 1\n\n[model_providers.CodexManager]\nname = \"CodexManager\"\nwire_api = \"responses\"\nrequires_openai_auth = true\nbase_url = \"https://a.test/\\\"q\\\\\"\n"
    );
}

#[test]
fn clearing_removes_manager_lines_only() {
    let cleared = remove_manager_provider(
        "model_provider = \"CodexManager\"\nmodel = \"m\"\n\n[model_providers.CodexManager]\nbase_url = \"x\"\n[keep]\ny = 2\n\n\n",
    );
    assert_eq!(cleared, "model = \"m\"\n\n[keep]\ny = 2\n");
    assert_eq!(remove_manager_provider(&cleared), cleared);
}

#[test]
fn auth_json_holds_the_key() {
    assert_eq!(build_codex_auth("sk-a\"b"), "{\"OPENAI_API_KEY\":\"sk-a\\\"b\"}\n");
}

fn account(enabled: bool, key: &str, url: &str) -> Account {
    Account {
        id: "id1".to_string(),
        name: "Main".to_string(),
        base_url: url.to_string(),
        api_key: key.to_string(),
        enabled,
    }
}

#[test]
fn apply_refuses_bad_accounts_in_order() {
    let e = apply_account_to_codex(&account(false, "", ""), "", "c", "a", "b").unwrap_err();
    assert!(matches!(e, CodexConfigError::AccountDisabled));
    let e = apply_account_to_codex(&account(true, "  ", "u"), "", "c", "a", "b").unwrap_err();
    assert!(matches!(e, CodexConfigError::EmptyApiKey));
    let e = apply_account_to_codex(&account(true, "k", " / "), "", "c", "a", "b").unwrap_err();
    assert!(matches!(e, CodexConfigError::EmptyBaseUrl));
    assert_eq!(e.message(), "account base url is empty");
}

#[test]
fn apply_plans_config_and_auth() {
    let plan =
        apply_account_to_codex(&account(true, " abc ", " https://x.test/v1/ "), "", "c", "a", "b")
            .unwrap();
    assert_eq!(plan.next_auth, "{\"OPENAI_API_KEY\":\"sk-abc\"}\n");
    assert!(plan.next_config.contains("base_url = \"https://x.test/v1\""));
    assert_eq!(plan.result.message, "Applied account Main");
    assert_eq!(plan.result.base_url, "https://x.test/v1");
    let cleared = clear_codex_manager_config(&plan.next_config, "c", "a", "b");
    assert_eq!(cleared.next_auth, "{}\n");
    assert!(!cleared.next_config.contains("CodexManager"));
}

#[test]
fn backups_are_named_and_ordered() {
    assert_eq!(backup_file_name(1700, "apply-account"), "1700-apply-account.json");
    let names = vec![
        "1700-a.json".to_string(),
        "1800-b.json".to_string(),
        "1900-c.txt".to_string(),
        ".json".to_string(),
    ];
    assert_eq!(latest_backup_name(&names).as_deref(), Some("1800-b.json"));
    assert!(latest_backup_name(&vec!["x.txt".to_string()]).is_none());
}

#[test]
fn snapshots_restore_or_remove() {
    let write = snapshot_action(&FileSnapshot { exists: true, contents: "x".to_string() });
    assert!(matches!(write, FileAction::Write(ref c) if c == "x"));
    let remove = snapshot_action(&FileSnapshot { exists: false, contents: String::new() });
    assert!(matches!(remove, FileAction::Remove));
}

#[test]
fn cleared_config_has_no_manager_line() {
    let inputs = [
        "  model_provider = \"CodexManager\"\r\n[model_providers.CodexManager]  \r\nx = 1\r\n",
        "a = 1\r\n[model_providers.CodexManager]\r\nbase_url = \"u\"\r\n[b]\r\nmodel_provider=\"CodexManager\" \t\n",
        "",
    ];
    for input in inputs {
        let cleared = remove_manager_provider(input);
        for line in cleared.lines() {
            let t = line.trim();
            assert!(!(t.starts_with("model_provider") && t.contains("CodexManager")));
            assert_ne!(t, "[model_providers.CodexManager]");
        }
    }
    assert_eq!(
        remove_manager_provider(
            "a = 1\r\n[model_providers.CodexManager]\r\nbase_url = \"u\"\r\n[b]\r\nk = 2\r\n"
        ),
        "a = 1\n[b]\nk = 2\n"
    );
}

#[test]
fn auth_json_escapes_like_json() {
    assert_eq!(
        build_codex_auth("a\\b\u{1}\t\u{1f}/é"),
        "{\"OPENAI_API_KEY\":\"a\\\\b\\u0001\\t\\u001f/é\"}\n"
    );
}

#[test]
fn clearing_twice_is_clearing_once() {
    let inputs = [
        "a = 1\n[model_providers.CodexManager]\nx = 1\n[b]\nmodel_provider = \"CodexManager\"\n  \n",
        "",
        "  \n\t\n",
        "[model_providers.CodexManager]\n",
        "k = 2",
    ];
    for input in inputs {
        let once = remove_manager_provider(input);
        assert_eq!(remove_manager_provider(&once), once);
    }
}

#[test]
fn snapshots_record_files_and_restore_them() {
    let present = file_snapshot(Some("a = 1\n".to_string()));
    assert!(present.exists);
    assert!(matches!(snapshot_action(&present), FileAction::Write(c) if c == "a = 1\n"));
    let absent = file_snapshot(None);
    assert!(!absent.exists);
    assert!(matches!(snapshot_action(&absent), FileAction::Remove));
}
