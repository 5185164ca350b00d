use factorio_crater::catalog::{
    find_release_by_version, needs_metadata_update, FullInfoJson, Release,
};
use factorio_crater::dependency::Dep;
use factorio_crater::engine::{classify, ModRecord};
use factorio_crater::portal::{
    bookmark_list_url, bookmark_toggle_url, mod_download_url, mod_list_url, mod_meta_full_url,
    PlayerCreds,
};
use factorio_crater::report::{broken_released_before, broken_released_on};

fn record(name: &str, deprecated: bool, version: &str, deps: &[&str]) -> ModRecord {
    ModRecord {
        name: name.to_string(),
        deprecated,
        platform_version: version.to_string(),
        dependencies: deps.iter().map(|raw| Dep::parse(raw)).collect(),
    }
}

#[test]
fn threshold_filter_is_lexicographic() {
    // Three broken mods on versions "1.1", "2.0" and "10.0". Lexicographic
    // string order puts "10.0" before "2.0", so the threshold "2.0" keeps
    // it: the documented quirk of plain string comparison.
    let records = vec![
        record("dead", true, "1.0", &[]),
        record("old", false, "1.1", &["dead"]),
        record("current", false, "2.0", &["dead"]),
        record("odd", false, "10.0", &["dead"]),
    ];
    let baseline: Vec<String> = Vec::new();
    let result = classify(&records, &baseline).unwrap();
    assert_eq!(result.broken.len(), 3);
    let before = broken_released_before(&records, &result, "2.0");
    assert_eq!(before, vec!["old".to_string(), "odd".to_string()]);
}

#[test]
fn exact_version_filter() {
    let records = vec![
        record("dead", true, "1.0", &[]),
        record("old", false, "1.1", &["dead"]),
        record("older", false, "1.0", &["dead"]),
        record("legacy", false, "1.1", &["dead"]),
    ];
    let baseline: Vec<String> = Vec::new();
    let result = classify(&records, &baseline).unwrap();
    let on = broken_released_on(&records, &result, "1.1");
    assert_eq!(on, vec!["old".to_string(), "legacy".to_string()]);
}

#[test]
fn release_selection_finds_first_exact_version() {
    let releases: Vec<Release<FullInfoJson>> = vec![
        Release {
            download_url: "/download/demo/1".to_string(),
            file_name: "demo_0.9.zip".to_string(),
            info_json: FullInfoJson {
                dependencies: vec![Dep::parse("base")],
                factorio_version: "1.1".to_string(),
            },
            released_at: "2020".to_string(),
            sha1: "aaa".to_string(),
            version: "0.9".to_string(),
        },
        Release {
            download_url: "/download/demo/2".to_string(),
            file_name: "demo_1.0.zip".to_string(),
            info_json: FullInfoJson {
                dependencies: vec![Dep::parse("base >= 2.0")],
                factorio_version: "2.0".to_string(),
            },
            released_at: "2024".to_string(),
            sha1: "bbb".to_string(),
            version: "1.0".to_string(),
        },
    ];
    assert_eq!(find_release_by_version(&releases, "1.0"), Some(1));
    assert_eq!(find_release_by_version(&releases, "0.9"), Some(0));
    assert_eq!(find_release_by_version(&releases, "3.0"), None);
}

#[test]
fn metadata_update_detection() {
    let a = "aaa".to_string();
    let b = "bbb".to_string();
    // Same checksum and a metadata file on disk: nothing to do.
    assert!(!needs_metadata_update(Some(&a), Some(&a), true));
    // Changed checksum.
    assert!(needs_metadata_update(Some(&a), Some(&b), true));
    // Unknown on either side.
    assert!(needs_metadata_update(None, Some(&a), true));
    assert!(needs_metadata_update(Some(&a), None, true));
    // Known and equal, but the metadata file is missing.
    assert!(needs_metadata_update(Some(&a), Some(&a), false));
}

#[test]
fn portal_urls() {
    let creds = PlayerCreds { username: "aurora".to_string(), token: "tok123".to_string() };
    assert_eq!(mod_list_url(), "https://mods.factorio.com/api/mods?page_size=max");
    assert_eq!(
        mod_meta_full_url("space-exploration"),
        "https://mods.factorio.com/api/mods/space-exploration/full"
    );
    assert_eq!(
        mod_download_url("/download/demo/2", &creds),
        "https://mods.factorio.com//download/demo/2?username=aurora&token=tok123"
    );
    assert_eq!(
        bookmark_list_url(&creds),
        "https://mods.factorio.com/api/bookmarks?username=aurora&token=tok123"
    );
    assert_eq!(
        bookmark_toggle_url(&creds, "flib", true),
        "https://mods.factorio.com/api/bookmarks/toggle?username=aurora&token=tok123&mod=flib&state=on"
    );
    assert_eq!(
        bookmark_toggle_url(&creds, "flib", false),
        "https://mods.factorio.com/api/bookmarks/toggle?username=aurora&token=tok123&mod=flib&state=off"
    );
}
