use codex_manager_core::app_paths::{
    codex_package_version, info_from_app_dir, is_openai_codex_package_name,
    last_greatest, less_versions, package_version_string, package_version_tuple, PackageVersion, package_name_from_app_dir, packaged_app_user_model_id,
    plist_string_value, version_tuple,
};

#[test]
fn builds_packaged_activation_id_from_nested_app_directory() {
    let app_dir =
        r"C:\Program Files\WindowsApps\OpenAI.Codex_26.519.5221.0_x64__2p2nqsd0c76g0\app";

    assert_eq!(
        packaged_app_user_model_id(app_dir).as_deref(),
        Some("OpenAI.Codex_2p2nqsd0c76g0!App")
    );
}

#[test]
fn activation_id_needs_a_codex_package() {
    assert_eq!(packaged_app_user_model_id(r"C:\Apps\Codex\app"), None);
    assert_eq!(packaged_app_user_model_id("/opt/OpenAI.Codex_1_x64__"), None);
    assert_eq!(
        packaged_app_user_model_id("/w/OpenAI.Codex_1.0_x64__pub/"),
        Some("OpenAI.Codex_pub!App".to_string())
    );
}

#[test]
fn package_names_from_paths() {
    assert_eq!(package_name_from_app_dir("C:/a/b/APP").as_deref(), Some("b"));
    assert_eq!(package_name_from_app_dir("//x//").as_deref(), Some("x"));
    assert_eq!(package_name_from_app_dir("app"), None);
    assert_eq!(package_name_from_app_dir(""), None);
    assert!(is_openai_codex_package_name("OpenAI.Codex_1_x__p"));
    assert!(!is_openai_codex_package_name("OpenAI.Codex_1_x_p"));
}

#[test]
fn package_versions_and_tuples() {
    assert_eq!(
        codex_package_version(r"C:\WindowsApps\OpenAI.Codex_26.519.5221.0_x64__2p2nqsd0c76g0")
            .as_deref(),
        Some("26.519.5221.0")
    );
    assert_eq!(codex_package_version("/x/OpenAI.Codex__x64"), None);
    assert_eq!(
        version_tuple("OpenAI.Codex_26.519.5221.0_x64__2p2nqsd0c76g0"),
        Some(vec![26, 519, 5221, 0])
    );
    assert_eq!(version_tuple("OpenAI.Codex_1.+2_x"), Some(vec![1, 2]));
    assert_eq!(version_tuple("OpenAI.Codex_1.x_y"), None);
    assert_eq!(version_tuple("OpenAI.Codex_99999999999_y"), None);
    assert_eq!(version_tuple("Other_1_y"), None);
}

#[test]
fn reads_plist_strings() {
    let plist = "<dict><key>CFBundleShortVersionString</key>\n  <string> 1.2.3 </string><key>E</key><string>  </string></dict>";
    assert_eq!(
        plist_string_value(plist, "CFBundleShortVersionString").as_deref(),
        Some("1.2.3")
    );
    assert_eq!(plist_string_value(plist, "E"), None);
    assert_eq!(plist_string_value(plist, "Missing"), None);
}

#[test]
fn info_carries_activation_id() {
    let info = info_from_app_dir(
        "/w/OpenAI.Codex_1.0_x64__pub/app",
        "/w/OpenAI.Codex_1.0_x64__pub/app/Codex.exe",
        "test",
        Some("1.0".to_string()),
    );
    assert_eq!(info.app_user_model_id, "OpenAI.Codex_pub!App");
    assert_eq!(info.version, "1.0");
    assert_eq!(info.source, "test");
    let plain = info_from_app_dir("/opt/codex", "/opt/codex/codex", "saved", None);
    assert_eq!(plain.app_user_model_id, "");
    assert_eq!(plain.version, "");
}

use codex_manager_core::app_paths::{normalize_codex_app_path, DirFacts, PathFacts};

fn dir(path: &str, name: &str, parent: &str) -> DirFacts {
    DirFacts {
        path: path.to_string(),
        is_app_bundle: false,
        name: Some(name.to_string()),
        parent: Some(parent.to_string()),
        plist: None,
    }
}

/// The facts a Windows machine reports for a package directory that holds no
/// executable where the others are looked for.
fn packaged_facts(root: &str) -> PathFacts {
    let nested = format!(r"{root}\app");
    PathFacts {
        dir: dir(root, "OpenAI.Codex_26.519.5221.0_x64__2p2nqsd0c76g0", r"C:\Program Files\WindowsApps"),
        is_file: false,
        parent_dir: Some(dir(r"C:\Program Files\WindowsApps", "WindowsApps", r"C:\Program Files")),
        nested_dir: dir(&nested, "app", root),
        bundle_executable: format!(r"{root}\Contents\MacOS\Codex"),
        bundle_executable_exists: false,
        upper: format!(r"{root}\Codex.exe"),
        upper_exists: false,
        lower: format!(r"{root}\codex.exe"),
        lower_exists: false,
        nested_upper: format!(r"{nested}\Codex.exe"),
        nested_upper_exists: false,
        nested_lower: format!(r"{nested}\codex.exe"),
        nested_lower_exists: false,
    }
}

#[test]
fn normalizes_packaged_codex_directory_without_reading_executable() {
    let root = r"C:\Program Files\WindowsApps\OpenAI.Codex_26.519.5221.0_x64__2p2nqsd0c76g0";

    let info = normalize_codex_app_path(&packaged_facts(root), "test")
        .expect("package path should resolve");

    assert!(info
        .app_dir
        .ends_with(r"OpenAI.Codex_26.519.5221.0_x64__2p2nqsd0c76g0\app"));
    assert!(info
        .executable_path
        .ends_with(r"OpenAI.Codex_26.519.5221.0_x64__2p2nqsd0c76g0\app\Codex.exe"));
    assert_eq!(info.version, "26.519.5221.0");
    assert_eq!(info.app_user_model_id, "OpenAI.Codex_2p2nqsd0c76g0!App");
}

#[test]
fn locates_executables_in_order() {
    let root = r"D:\Tools\Codex";
    let mut facts = packaged_facts(root);
    facts.dir.name = Some("Codex".to_string());
    assert!(normalize_codex_app_path(&facts, "x").is_none());
    facts.nested_lower_exists = true;
    let info = normalize_codex_app_path(&facts, "x").unwrap();
    assert_eq!(info.executable_path, r"D:\Tools\Codex\app\codex.exe");
    facts.upper_exists = true;
    let info = normalize_codex_app_path(&facts, "x").unwrap();
    assert_eq!(info.executable_path, r"D:\Tools\Codex\Codex.exe");
    assert_eq!(info.app_dir, root);
    facts.dir.name = Some("CODEX.EXE".to_string());
    let info = normalize_codex_app_path(&facts, "x").unwrap();
    assert_eq!(info.app_dir, r"C:\Program Files\WindowsApps");
    assert_eq!(info.executable_path, root);
    facts.dir.path = String::new();
    assert!(normalize_codex_app_path(&facts, "x").is_none());
}

#[test]
fn reads_bundle_versions() {
    let mut facts = packaged_facts("/Applications/Codex.app");
    facts.dir = DirFacts {
        path: "/Applications/Codex.app".to_string(),
        is_app_bundle: true,
        name: Some("Codex.app".to_string()),
        parent: Some("/Applications".to_string()),
        plist: Some("<key>CFBundleVersion</key><string>7</string>".to_string()),
    };
    facts.bundle_executable = "/Applications/Codex.app/Contents/MacOS/Codex".to_string();
    facts.bundle_executable_exists = true;
    let info = normalize_codex_app_path(&facts, "Applications").unwrap();
    assert_eq!(info.version, "7");
    assert_eq!(info.executable_path, "/Applications/Codex.app/Contents/MacOS/Codex");
}

#[test]
fn picks_the_last_greatest_version() {
    let keys = vec![
        Some(vec![1, 2]),
        None,
        Some(vec![1, 10]),
        Some(vec![1, 10]),
        Some(vec![1, 3]),
    ];
    assert_eq!(last_greatest(&keys), Some(3));
    assert_eq!(last_greatest(&vec![None, None]), Some(1));
    assert_eq!(last_greatest(&vec![Some(vec![1, 2, 0]), Some(vec![1, 2])]), Some(0));
    assert_eq!(last_greatest(&vec![Some(vec![]), None]), Some(0));
    assert_eq!(last_greatest(&Vec::new()), None);
}

#[test]
fn versions_order_like_vectors() {
    assert!(less_versions(&[26, 519, 5221, 0], &[26, 519, 5222]));
    assert!(less_versions(&[26, 519], &[26, 519, 0]));
    assert!(!less_versions(&[26, 519, 0], &[26, 519, 0]));
    assert!(!less_versions(&[27], &[26, 999]));
    let versions = ["OpenAI.Codex_26.9.0.0_x64__a", "OpenAI.Codex_26.10.0.0_x64__a"]
        .map(|name| version_tuple(name));
    assert_eq!(last_greatest(&versions.to_vec()), Some(1));
}

#[test]
fn writes_package_versions() {
    let v = PackageVersion { major: 26, minor: 519, build: 5221, revision: 0 };
    assert_eq!(package_version_string(&v), "26.519.5221.0");
    assert_eq!(package_version_tuple(&v), vec![26, 519, 5221, 0]);
    let top = PackageVersion { major: 65535, minor: 0, build: 7, revision: 10 };
    assert_eq!(package_version_string(&top), "65535.0.7.10");
}
