use codex_manager_core::json::{JsonNumber, JsonValue};
use codex_manager_core::plugin_unlock::{
    cdp_command_text, cdp_reply, pick_page_target, plugin_unlock_arguments, read_cdp_reply,
    CdpReply, CdpTarget, PLUGIN_UNLOCK_SCRIPT,
};

#[test]
fn plugin_unlock_switches() {
    let [a, b] = plugin_unlock_arguments(9222);
    assert_eq!(a, "--remote-debugging-port=9222");
    assert_eq!(b, "--remote-allow-origins=http://127.0.0.1:9222");
}

fn target(kind: &str, title: &str, url: &str, ws: Option<&str>) -> CdpTarget {
    CdpTarget {
        target_type: kind.to_string(),
        title: title.to_string(),
        url: url.to_string(),
        web_socket_debugger_url: ws.map(str::to_string),
    }
}

#[test]
fn picks_the_codex_page() {
    let targets = vec![
        target("service_worker", "Codex", "x", Some("ws://0")),
        target("page", "Other", "app://main", Some("ws://1")),
        target("page", "Window", "app://CODEX/index", Some("")),
        target("page", "Main", "file:///OpenAI-Codex/index.html", Some("ws://3")),
    ];
    let t = pick_page_target(&targets).unwrap();
    assert_eq!(t.web_socket_debugger_url.as_deref(), Some("ws://3"));
    let t = pick_page_target(&targets[..3]).unwrap();
    assert_eq!(t.web_socket_debugger_url.as_deref(), Some("ws://1"));
    assert_eq!(
        pick_page_target(&targets[..1]).unwrap_err(),
        "No injectable Codex page target found"
    );
}

#[test]
fn builds_cdp_commands() {
    assert_eq!(
        cdp_command_text(true, "x()"),
        "{\"id\":1,\"method\":\"Page.addScriptToEvaluateOnNewDocument\",\"params\":{\"source\":\"x()\"}}"
    );
    assert_eq!(
        cdp_command_text(false, "say(\"hi\")"),
        "{\"id\":2,\"method\":\"Runtime.evaluate\",\"params\":{\"allowUnsafeEvalBlockedByCSP\":true,\"expression\":\"say(\\\"hi\\\")\"}}"
    );
    assert!(PLUGIN_UNLOCK_SCRIPT.contains("__codexManagerPluginUnlockInstalled"));
}

#[test]
fn reads_cdp_replies() {
    assert!(matches!(read_cdp_reply("{\"id\":1,\"result\":{}}", 1), CdpReply::Done));
    assert!(matches!(read_cdp_reply("{\"id\":2}", 1), CdpReply::Unrelated));
    assert!(matches!(read_cdp_reply("{\"method\":\"x\"}", 1), CdpReply::Unrelated));
    assert!(matches!(read_cdp_reply("oops", 1), CdpReply::NotJson));
    match read_cdp_reply("{\"id\":1,\"error\":{\"code\":-3,\"message\":\"no\"}}", 1) {
        CdpReply::Failed(m) => {
            assert_eq!(m, "CDP injection failed: {\"code\":-3,\"message\":\"no\"}")
        }
        other => panic!("unexpected {other:?}"),
    }
    let payload = JsonValue::Object(vec![(
        "id".to_string(),
        JsonValue::Number(JsonNumber { as_u64: Some(2), as_i64: Some(2), text: "2".to_string() }),
    )]);
    assert!(matches!(cdp_reply(&payload, 2), CdpReply::Done));
}
