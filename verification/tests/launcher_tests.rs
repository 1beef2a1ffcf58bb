use codex_manager_core::launcher::{
    command_line_arguments, is_remote_debug_arg, launch_arguments, launch_codex, parse_extra_args,
    quote_windows_argument, restart_codex, LaunchRequest,
};
use codex_manager_core::settings::{Account, AppSettings};

#[test]
fn forwards_extra_args() {
    assert_eq!(
        parse_extra_args(&["--foo", "bar"]),
        vec!["--foo".to_string(), "bar".to_string()]
    );
}

fn account(id: &str, enabled: bool) -> Account {
    Account {
        id: id.to_string(),
        name: format!("name-{id}"),
        base_url: "https://api.test/v1".to_string(),
        api_key: "sk-abc".to_string(),
        enabled,
    }
}

#[test]
fn launch_plan_filters_debug_args_when_plugin_enabled() {
    let mut settings = AppSettings::default();
    settings.plugin_enabled = true;
    settings.launch_extra_args = vec![
        "--remote-debugging-port=9222".to_string(),
        "  ".to_string(),
        "--keep".to_string(),
    ];
    let plan = launch_codex(
        LaunchRequest {
            codex_app_path: "".to_string(),
            extra_args: vec![" --remote-allow-origins=*".to_string(), "--also".to_string()],
        },
        &settings,
    );
    assert_eq!(plan.extra_args, vec!["--keep".to_string(), "--also".to_string()]);
    assert!(plan.plugin_enabled);
    assert!(!plan.restart);
    let args = launch_arguments(&plan, Some(9333));
    assert_eq!(
        args,
        vec![
            "--remote-debugging-port=9333".to_string(),
            "--remote-allow-origins=http://127.0.0.1:9333".to_string(),
            "--keep".to_string(),
            "--also".to_string(),
        ]
    );
}

#[test]
fn launch_plan_keeps_debug_args_when_plugin_disabled() {
    let mut settings = AppSettings::default();
    settings.codex_app_path = "C:/saved/Codex.exe".to_string();
    settings.launch_extra_args = vec!["--remote-debugging-port=9222".to_string()];
    let plan = restart_codex(
        LaunchRequest { codex_app_path: " ".to_string(), extra_args: vec![] },
        &settings,
    );
    assert!(plan.restart);
    assert_eq!(plan.codex_app_path, "C:/saved/Codex.exe");
    assert_eq!(plan.extra_args, vec!["--remote-debugging-port=9222".to_string()]);
    assert_eq!(launch_arguments(&plan, None), plan.extra_args);
}

#[test]
fn launch_plan_uses_first_active_enabled_account() {
    let mut settings = AppSettings::default();
    settings.accounts = vec![account("a", false), account("b", true), account("b", true)];
    settings.active_account_id = "b".to_string();
    let plan = launch_codex(
        LaunchRequest { codex_app_path: "D:/Codex".to_string(), extra_args: vec![] },
        &settings,
    );
    assert_eq!(plan.codex_app_path, "D:/Codex");
    assert_eq!(plan.account.map(|a| a.id), Some("b".to_string()));
    settings.active_account_id = "a".to_string();
    let plan = launch_codex(
        LaunchRequest { codex_app_path: String::new(), extra_args: vec![] },
        &settings,
    );
    assert!(plan.account.is_none());
}

#[test]
fn recognises_remote_debug_switches() {
    assert!(is_remote_debug_arg("  --remote-debugging-address=0.0.0.0"));
    assert!(is_remote_debug_arg("--remote-allow-origins=*"));
    assert!(!is_remote_debug_arg("--remote"));
}

#[test]
fn quotes_windows_arguments() {
    assert_eq!(quote_windows_argument("plain"), "plain");
    assert_eq!(quote_windows_argument(""), "\"\"");
    assert_eq!(quote_windows_argument("a b"), "\"a b\"");
    assert_eq!(quote_windows_argument("say \"hi\""), "\"say \\\"hi\\\"\"");
    assert_eq!(quote_windows_argument("dir\\ x\\"), "\"dir\\ x\\\\\"");
    assert_eq!(
        command_line_arguments(&vec!["a b".to_string(), "c".to_string()]),
        "\"a b\" c"
    );
}

/// Reads one argument by the Windows rules: quotes group, `2n` backslashes
/// and a quote give `n` backslashes and toggle quoting, `2n + 1` give `n`
/// backslashes and a quote.
fn read_windows_argument(text: &str) -> String {
    let mut out = String::new();
    let mut pending = 0;
    let mut quoted = false;
    for c in text.chars() {
        match c {
            '\\' => pending += 1,
            '"' => {
                out.push_str(&"\\".repeat(pending / 2));
                if pending % 2 == 1 {
                    out.push('"');
                } else {
                    quoted = !quoted;
                }
                pending = 0;
            }
            ' ' | '\t' if !quoted => break,
            _ => {
                out.push_str(&"\\".repeat(pending));
                out.push(c);
                pending = 0;
            }
        }
    }
    out.push_str(&"\\".repeat(pending));
    out
}

#[test]
fn quoted_arguments_read_back() {
    for arg in ["plain", "", "a b", "say \"hi\"", "dir\\ x\\", "\\\\\"", "tab\there", "C:\\a b\\"] {
        assert_eq!(read_windows_argument(&quote_windows_argument(arg)), arg);
    }
}
