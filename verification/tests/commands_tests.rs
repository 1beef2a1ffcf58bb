use codex_manager_core::commands::{
    delete_account, download_target, install_url, open_url_call, sanitize_file_name, update_asset_name,
    upsert_account, DownloadError, InstallUpdateRequest, UpsertAccountRequest,
};
use codex_manager_core::settings::{Account, AppSettings};
use codex_manager_core::update::Platform;

#[test]
fn update_asset_name_replaces_latest_with_version() {
    assert_eq!(
        update_asset_name(
            "codex-manager-windows-latest.msi",
            "https://example.test/codex-manager-windows-latest.msi",
            "v1.0.15",
        ),
        "codex-manager-windows-v1.0.15.msi"
    );
}

#[test]
fn update_asset_name_appends_version_when_missing() {
    assert_eq!(
        update_asset_name(
            "codex-manager-windows.msi",
            "https://example.test/codex-manager-windows.msi",
            "1.0.15",
        ),
        "codex-manager-windows-v1.0.15.msi"
    );
}

#[test]
fn update_asset_name_keeps_existing_version() {
    assert_eq!(
        update_asset_name(
            "Codex Manager_1.0.15_x64_en-US.msi",
            "https://example.test/Codex%20Manager_1.0.15_x64_en-US.msi",
            "v1.0.15",
        ),
        "Codex Manager_1.0.15_x64_en-US.msi"
    );
}

#[test]
fn update_asset_name_falls_back_to_url_file_name() {
    assert_eq!(
        update_asset_name("  ", "https://example.test/dl/setup.exe?x=1", "2.0.0"),
        "setup-v2.0.0.exe"
    );
}

#[test]
fn sanitizes_file_names() {
    let v: Vec<char> = "a<b>:c?.".chars().collect();
    let out: String = sanitize_file_name(&v).into_iter().collect();
    assert_eq!(out, "a_b__c_");
}

#[test]
fn download_target_needs_url() {
    let missing = download_target(&InstallUpdateRequest {
        asset_name: "x.msi".to_string(),
        asset_url: "   ".to_string(),
        latest_version: "1.0.0".to_string(),
    });
    assert_eq!(missing.unwrap_err(), DownloadError::MissingUrl);
    let (name, url) = download_target(&InstallUpdateRequest {
        asset_name: "x.msi".to_string(),
        asset_url: " https://e.test/x.msi ".to_string(),
        latest_version: "1.0.0".to_string(),
    })
    .unwrap();
    assert_eq!(url, "https://e.test/x.msi");
    assert_eq!(name, "x-v1.0.0.msi");
}

#[test]
fn install_page_by_platform() {
    assert!(install_url(Platform::Windows, false).ends_with("/latest/win"));
    assert!(install_url(Platform::MacOs, true).ends_with("/latest/mac-arm64"));
    assert!(install_url(Platform::MacOs, false).ends_with("/latest/mac-intel"));
}

fn account(id: &str, name: &str) -> Account {
    Account {
        id: id.to_string(),
        name: name.to_string(),
        base_url: "https://api.test".to_string(),
        api_key: "sk-1".to_string(),
        enabled: true,
    }
}

#[test]
fn upsert_replaces_and_delete_undoes() {
    let mut settings = AppSettings::default();
    settings.accounts = vec![account("a", "A"), account("b", "B")];
    settings.active_account_id = "a".to_string();
    let settings = upsert_account(
        settings,
        UpsertAccountRequest { account: account("b", "B2"), activate: true },
    );
    assert_eq!(settings.accounts.len(), 2);
    assert_eq!(settings.accounts[1].name, "B2");
    assert_eq!(settings.active_account_id, "b");
    let settings = upsert_account(
        settings,
        UpsertAccountRequest { account: account("", "New"), activate: false },
    );
    assert_eq!(settings.accounts.len(), 3);
    assert_eq!(settings.accounts[2].id.len(), 36);
    assert_eq!(settings.active_account_id, "b");
    let new_id = settings.accounts[2].id.clone();
    let settings = delete_account(settings, &new_id);
    assert_eq!(settings.accounts.len(), 2);
    let settings = delete_account(settings, "b");
    assert_eq!(settings.accounts.len(), 1);
    assert_eq!(settings.active_account_id, "");
}

#[test]
fn opens_urls_per_platform() {
    let call = open_url_call(Platform::Windows, r"C:\Users\o'neil\setup.msi");
    assert_eq!(call.program, "powershell.exe");
    assert_eq!(
        call.args,
        vec![
            "-NoProfile",
            "-WindowStyle",
            "Hidden",
            "-ExecutionPolicy",
            "Bypass",
            "-Command",
            r"Start-Process 'C:\Users\o''neil\setup.msi'",
        ]
    );
    let mac = open_url_call(Platform::MacOs, "https://a.test/x");
    assert_eq!(mac.program, "open");
    assert_eq!(mac.args, vec!["https://a.test/x"]);
    let other = open_url_call(Platform::Other, "/tmp/x");
    assert_eq!(other.program, "xdg-open");
    assert_eq!(other.args, vec!["/tmp/x"]);
}

#[test]
fn deleting_the_active_account_then_saving_activates_the_next() {
    let mut settings = AppSettings::default();
    let mut off = account("off", "Off");
    off.enabled = false;
    settings.accounts = vec![account("a", "A"), off, account("b", "B")];
    settings.active_account_id = "a".to_string();
    let stored = delete_account(settings, "a").normalized();
    let ids: Vec<&str> = stored.accounts.iter().map(|x| x.id.as_str()).collect();
    assert_eq!(ids, vec!["off", "b"]);
    assert_eq!(stored.active_account_id, "b");

    let mut settings = AppSettings::default();
    settings.accounts = vec![account("a", "A"), account("b", "B")];
    settings.active_account_id = "b".to_string();
    let stored = delete_account(settings, "a").normalized();
    assert_eq!(stored.active_account_id, "b");
}
