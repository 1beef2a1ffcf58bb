//! Verified core of Codex Manager: settings normalisation, Codex config and
//! preference rewriting, launch planning, install discovery, update checks,
//! the remote key service's requests and replies, the plugin-unlock
//! injection, and the text and JSON helpers they share.

pub mod text;
pub mod settings;
pub mod paths;
pub mod codex_config;
pub mod update;
pub mod json;
pub mod commands;
pub mod launcher;
pub mod plugin_unlock;
pub mod app_paths;
pub mod remote;
pub mod preferences;

pub use app_paths::CodexPathInfo;
pub use codex_config::{
    apply_account_to_codex, clear_codex_manager_config, read_codex_view,
    read_latest_backup_preview, restore_latest_backup, BackupConfigPreview, CodexApplyResult,
    CodexConfigView,
};
pub use launcher::{launch_codex, restart_codex, LaunchRequest};
pub use remote::{
    LoginCredentials, LoginPayload, RemoteKeyDecryptPayload, RemoteKeySearchPayload, RemoteToken,
};
pub use settings::{Account, AppSettings, SettingsStore};
