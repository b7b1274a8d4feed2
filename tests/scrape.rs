use project_dashboard::scrape::{compact_json_string, extract_json_string, find_asset_url, parse_repo_list};
use project_dashboard::updater::{platform_asset_name, release_update};

#[test]
fn json_string_field_with_spaces() {
    let body = r#"{"tag_name" :  "v1.4.0", "name": "x"}"#;
    assert_eq!(extract_json_string(body, "tag_name"), Some("v1.4.0".to_string()));
    assert_eq!(extract_json_string(body, "name"), Some("x".to_string()));
    assert_eq!(extract_json_string(body, "missing"), None);
    assert_eq!(extract_json_string(r#"{"n": 3}"#, "n"), None);
    assert_eq!(extract_json_string(r#"{"n": "open"#, "n"), None);
}

#[test]
fn asset_url_search() {
    let body = r#"{"assets": [
        {"browser_download_url": "https://x/app-x86_64-unknown-linux-gnu.tar.gz"},
        {"browser_download_url": "https://x/app-aarch64-apple-darwin.tar.gz"},
        {"browser_download_url": "https://x/app-x86_64-pc-windows-msvc.zip"}
    ]}"#;
    assert_eq!(
        find_asset_url(body, "aarch64-apple-darwin"),
        Some("https://x/app-aarch64-apple-darwin.tar.gz".to_string())
    );
    assert_eq!(find_asset_url(body, "riscv"), None);
    assert_eq!(find_asset_url("{}", "linux"), None);
}

#[test]
fn release_decision() {
    let body = r#"{"tag_name": "v2.0.0", "assets": [
        {"browser_download_url": "https://x/a-x86_64-unknown-linux-gnu.tar.gz"},
        {"browser_download_url": "https://x/b-x86_64-unknown-linux-gnu.tar.gz"}
    ]}"#;
    let info = release_update(body, "1.9.9", "x86_64-unknown-linux-gnu").unwrap();
    assert_eq!(info.version, "2.0.0");
    assert!(info.download_url.contains("x86_64-unknown-linux-gnu"));
    assert!(release_update(body, "2.0.0", "x86_64-unknown-linux-gnu").is_none());
    assert!(release_update(body, "1.0.0", "riscv").is_none());
    assert!(release_update("{}", "1.0.0", "x86_64-unknown-linux-gnu").is_none());
}

#[test]
fn platform_names() {
    assert_eq!(platform_asset_name("windows"), "x86_64-pc-windows-msvc");
    assert_eq!(platform_asset_name("linux"), "x86_64-unknown-linux-gnu");
    assert_eq!(platform_asset_name("macos"), "aarch64-apple-darwin");
    assert_eq!(platform_asset_name("freebsd"), "unknown");
}

#[test]
fn repo_list_parsing() {
    let json = r#"[{"name":"alpha","url":"https://github.com/u/alpha"},{"name":"beta","url":"https://github.com/u/beta"},{"url":"https://github.com/u/nameless"}]"#;
    let repos = parse_repo_list(json);
    assert_eq!(
        repos,
        vec![
            ("alpha".to_string(), "https://github.com/u/alpha.git".to_string()),
            ("beta".to_string(), "https://github.com/u/beta.git".to_string()),
        ]
    );
    assert!(parse_repo_list("[]").is_empty());
    assert_eq!(compact_json_string(r#"{"name":"x"}"#, "name"), Some("x".to_string()));
    assert_eq!(compact_json_string(r#"{"name": "x"}"#, "name"), None);
}

#[test]
fn unicode_space_before_value() {
    assert_eq!(extract_json_string("{\"k\"\u{3000}:\u{a0}\"v\"}", "k"), Some("v".to_string()));
    assert_eq!(extract_json_string("{\"k\" x: \"v\"}", "k"), None);
}
