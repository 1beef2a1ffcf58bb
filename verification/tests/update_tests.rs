use codex_manager_core::json::{JsonNumber, JsonValue};
use codex_manager_core::update::{
    check_for_update, check_for_update_with_url, is_newer_version, next_update_step,
    parse_version_tag, release_from_github_payload, release_from_latest_json_payload,
    select_update_asset, FetchFailure, Platform, ReleaseError, UpdateError, UpdateStep,
    VersionError,
};

fn s(v: &str) -> JsonValue {
    JsonValue::String(v.to_string())
}

fn obj(members: Vec<(&str, JsonValue)>) -> JsonValue {
    JsonValue::Object(members.into_iter().map(|(k, v)| (k.to_string(), v)).collect())
}

#[test]
fn parses_version_tags() {
    assert_eq!(parse_version_tag("v1.2.3").unwrap(), vec![1, 2, 3]);
    assert_eq!(parse_version_tag("1.2.3-beta.1").unwrap(), vec![1, 2, 3]);
}

#[test]
fn version_tag_errors() {
    assert_eq!(parse_version_tag("beta"), Err(VersionError::InvalidTag));
    assert_eq!(parse_version_tag("1..2"), Err(VersionError::EmptyNumber));
    assert_eq!(
        parse_version_tag("99999999999999999999"),
        Err(VersionError::NumberTooLarge)
    );
}

#[test]
fn compares_versions_with_padding() {
    assert!(is_newer_version("1.0.9", "1.0.8").unwrap());
    assert!(is_newer_version("1.1", "1.0.9").unwrap());
    assert!(!is_newer_version("1.0.8", "1.0.8").unwrap());
}

#[test]
fn versions_equal_up_to_trailing_zeros() {
    assert!(!is_newer_version("1.0.0", "1").unwrap());
    assert!(!is_newer_version("1", "1.0.0").unwrap());
    assert!(is_newer_version("1.0.0.1", "1").unwrap());
}

#[test]
fn parses_latest_json_release() {
    let payload = obj(vec![
        ("version", s("v1.0.9")),
        ("notes", s("bug fixes")),
        (
            "assets",
            JsonValue::Array(vec![obj(vec![
                ("name", s("Codex Manager_1.0.9_x64_en-US.msi")),
                ("url", s("https://example.test/app.msi")),
            ])]),
        ),
    ]);
    let release = release_from_latest_json_payload(&payload, Platform::Windows).unwrap();
    assert_eq!(release.version, "v1.0.9");
    assert_eq!(
        release.asset_name.as_deref(),
        Some("Codex Manager_1.0.9_x64_en-US.msi")
    );
}

#[test]
fn falls_back_to_first_asset_when_platform_specific_missing() {
    let asset = select_update_asset(
        &[(
            "codex-manager-source.zip".to_string(),
            "https://example.test/source.zip".to_string(),
        )],
        Platform::Other,
    )
    .unwrap();
    assert_eq!(asset.0, "codex-manager-source.zip");
}

#[test]
fn prefers_platform_installer() {
    let assets = vec![
        ("source.zip".to_string(), "u0".to_string()),
        ("Codex-Manager.dmg".to_string(), "u1".to_string()),
        ("codex-manager-setup.exe".to_string(), "u2".to_string()),
        ("codex-manager.msi".to_string(), "u3".to_string()),
    ];
    assert_eq!(select_update_asset(&assets, Platform::Windows).unwrap().1, "u2");
    assert_eq!(select_update_asset(&assets, Platform::MacOs).unwrap().1, "u1");
    assert!(select_update_asset(&[], Platform::Windows).is_none());
}

#[test]
fn reads_github_release() {
    let payload = obj(vec![
        ("tag_name", s("v2.0.0")),
        ("html_url", s("https://github.test/r")),
        ("body", s("notes")),
        (
            "assets",
            JsonValue::Array(vec![obj(vec![
                ("name", s("codex-manager.msi")),
                ("browser_download_url", s("https://github.test/a.msi")),
            ])]),
        ),
    ]);
    let release = release_from_github_payload(&payload, Platform::Windows).unwrap();
    assert_eq!(release.version, "v2.0.0");
    assert_eq!(release.asset_url.as_deref(), Some("https://github.test/a.msi"));
}

#[test]
fn update_flow_falls_back_to_github_then_reports_both() {
    let flow = check_for_update("1.0.0");
    let step = next_update_step(flow, Err("offline".to_string()), Platform::Windows);
    let flow = match step {
        UpdateStep::Fetch(f) => f,
        other => panic!("expected a second fetch, got {other:?}"),
    };
    assert!(flow.wants_github_payload());
    match next_update_step(flow, Err("rate limited".to_string()), Platform::Windows) {
        UpdateStep::Done(Err(UpdateError::BothSources(m))) => {
            assert!(m.contains("offline"));
            assert!(m.contains("rate limited"));
        }
        other => panic!("unexpected step {other:?}"),
    }
}

#[test]
fn update_flow_reports_newer_release() {
    let flow = check_for_update_with_url("1.0.0", " https://m.test/latest.json ");
    assert_eq!(flow.url(), "https://m.test/latest.json");
    let payload = obj(vec![("version", s("1.2.0")), ("assets", JsonValue::Array(vec![]))]);
    match next_update_step(flow, Ok(payload), Platform::Other) {
        UpdateStep::Done(Ok(check)) => {
            assert!(check.update_available);
            assert_eq!(check.latest_version.as_deref(), Some("1.2.0"));
        }
        other => panic!("unexpected step {other:?}"),
    }
    let _ = JsonNumber { as_u64: Some(1), as_i64: Some(1), text: "1".to_string() };
}

#[test]
fn release_errors() {
    let missing = release_from_latest_json_payload(&obj(vec![("notes", s("x"))]), Platform::Other);
    assert_eq!(missing.unwrap_err(), ReleaseError::MissingVersion);
    let missing = release_from_github_payload(&obj(vec![("version", s("1"))]), Platform::Other);
    assert_eq!(missing.unwrap_err(), ReleaseError::MissingTagName);
    assert_eq!(ReleaseError::MissingTagName.message(), "release payload missing tag_name");
}

#[test]
fn update_flow_errors() {
    let flow = check_for_update_with_url("1.0.0", "https://m.test/latest.json");
    match next_update_step(flow, Ok(obj(vec![])), Platform::Other) {
        UpdateStep::Done(Err(UpdateError::Fetch(FetchFailure::Release(_)))) => {}
        other => panic!("unexpected step {other:?}"),
    }
    let flow = check_for_update_with_url("1.0.0", "https://m.test/latest.json");
    match next_update_step(flow, Err("down".to_string()), Platform::Other) {
        UpdateStep::Done(Err(UpdateError::Fetch(f))) => assert_eq!(f.message(), "down"),
        other => panic!("unexpected step {other:?}"),
    }
    let flow = check_for_update_with_url("not a version", "https://m.test/latest.json");
    match next_update_step(flow, Ok(obj(vec![("version", s("1.0.0"))])), Platform::Other) {
        UpdateStep::Done(Err(UpdateError::Version(e))) => assert_eq!(e, VersionError::InvalidTag),
        other => panic!("unexpected step {other:?}"),
    }
}

#[test]
fn tags_compare_without_trailing_zeros() {
    assert_eq!(is_newer_version("1.2", "1.2.0"), Ok(false));
    assert_eq!(is_newer_version("1.2.0", "1.2"), Ok(false));
    assert_eq!(is_newer_version("1.2.0.0", "1.1.9"), Ok(true));
    assert_eq!(is_newer_version("v2.0", "v2.0"), Ok(false));
    assert_eq!(is_newer_version("1.3", "1.2"), Ok(true));
    assert_eq!(is_newer_version("1.2", "1.3"), Ok(false));
}
