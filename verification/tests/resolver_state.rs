use mango_launcher::assets::asset_dest;
use mango_launcher::assets::asset_url;
use mango_launcher::assets::expand_asset_tasks;
use mango_launcher::assets::AssetIndex;
use mango_launcher::assets::AssetObject;
use mango_launcher::version::jar_looks_valid;
use mango_launcher::version::manifest_is_stale;
use mango_launcher::version::should_refresh_manifest;
use mango_launcher::version::MinecraftVersion;
use mango_launcher::version::VersionHistory;
use mango_launcher::version::VersionManager;
use mango_launcher::version::VersionManifest;
use mango_launcher::version::VersionView;

fn version_row(id: &str) -> MinecraftVersion {
    MinecraftVersion {
        id: id.to_string(),
        kind: "release".to_string(),
        url: format!("http://meta/{}.json", id),
        time: None,
        release_time: None,
        compliance_level: None,
        sha1: None,
    }
}

#[test]
fn manifest_staleness_threshold() {
    // four hours on the dot is stale, a second less is not
    assert!(manifest_is_stale(14400, 0));
    assert!(!manifest_is_stale(14399, 0));
    assert!(manifest_is_stale(1_700_014_400, 1_700_000_000));
    // a snapshot from the future is not stale
    assert!(!manifest_is_stale(0, 14400));
}

#[test]
fn manifest_refresh_decision() {
    assert!(should_refresh_manifest(false, None, 1000));
    assert!(should_refresh_manifest(true, None, 1000));
    assert!(should_refresh_manifest(true, Some(0), 14400));
    assert!(!should_refresh_manifest(true, Some(0), 14399));
}

#[test]
fn history_moves_recent_to_front_and_trims() {
    let mut h = VersionHistory::new();
    h.mark_version_used("1.16.5".to_string(), 100);
    h.mark_version_used("1.17".to_string(), 200);
    h.mark_version_used("1.18".to_string(), 300);
    assert_eq!(h.recent_versions, vec!["1.18", "1.17", "1.16.5"]);
    // marking an id again moves it to the front, once
    h.mark_version_used("1.16.5".to_string(), 400);
    assert_eq!(h.recent_versions, vec!["1.16.5", "1.18", "1.17"]);
    // the list keeps at most five entries
    h.mark_version_used("a".to_string(), 500);
    h.mark_version_used("b".to_string(), 600);
    h.mark_version_used("c".to_string(), 700);
    assert_eq!(h.recent_versions.len(), 5);
    assert_eq!(h.recent_versions[0], "c");
    // the dropped id is the least recently used one
    assert!(!h.recent_versions.contains(&"1.17".to_string()));
    // last-used times are per id
    let used: Vec<(String, i64)> = h.last_used.clone();
    assert!(used.iter().any(|(id, t)| id == "1.16.5" && *t == 400));
    assert!(used.iter().any(|(id, t)| id == "c" && *t == 700));
}

#[test]
fn manager_state_and_paths() {
    let mut mgr = VersionManager::new("/data/versions".to_string(), 4);
    assert_eq!(mgr.max_concurrent_downloads, 4);
    assert!(mgr.cached_manifest.is_none());
    mgr.set_max_concurrent_downloads(8);
    assert_eq!(mgr.max_concurrent_downloads, 8);
    assert_eq!(mgr.get_version_jar_path("1.20.1"), "/data/versions/1.20.1/1.20.1.jar");
    assert_eq!(mgr.get_version_json_path("1.20.1"), "/data/versions/1.20.1/1.20.1.json");
    assert_eq!(mgr.get_libraries_dir(), "/data/versions/libraries");
}

#[test]
fn manager_applies_manifest_and_toggles_views() {
    let mut mgr = VersionManager::new("/data/versions".to_string(), 4);
    let manifest = VersionManifest {
        latest: None,
        versions: vec![version_row("1.20.1"), version_row("1.19.4")],
    };
    mgr.apply_manifest(manifest);
    assert_eq!(mgr.get_versions().len(), 2);
    assert_eq!(mgr.get_versions()[0].id, "1.20.1");
    assert!(matches!(mgr.current_view, VersionView::Recent));
    mgr.toggle_view();
    assert!(matches!(mgr.current_view, VersionView::All));
    mgr.toggle_view();
    assert!(matches!(mgr.current_view, VersionView::Modded));
    mgr.toggle_view();
    assert!(matches!(mgr.current_view, VersionView::Recent));
    mgr.mark_version_used("1.20.1".to_string(), 1000);
    assert_eq!(mgr.history.recent_versions[0], "1.20.1");
}

#[test]
fn views_filter_the_manifest() {
    let mut mgr = VersionManager::new("/data/versions".to_string(), 4);
    let manifest = VersionManifest {
        latest: None,
        versions: vec![version_row("1.20.1"), version_row("1.19.4"), version_row("1.18.2")],
    };
    mgr.apply_manifest(manifest);
    mgr.mark_version_used("1.19.4".to_string(), 100);
    mgr.mark_version_used("1.20.1".to_string(), 200);
    // an id the manifest no longer knows is skipped
    mgr.mark_version_used("0.0.0".to_string(), 300);
    let recent = mgr.get_recent_versions();
    let recent_ids: Vec<String> = recent.iter().map(|v| v.id.clone()).collect();
    assert_eq!(recent_ids, vec!["1.20.1", "1.19.4"]);
    assert_eq!(mgr.get_all_versions().len(), 3);
    assert!(mgr.get_modded_versions().is_empty());
    // the current view drives what is shown
    assert_eq!(mgr.get_current_versions().len(), 2);
    mgr.toggle_view();
    assert_eq!(mgr.get_current_versions().len(), 3);
    mgr.toggle_view();
    assert!(mgr.get_current_versions().is_empty());
    // an unknown id has no row
    assert!(mgr.find_version("0.0.0").is_none());
    assert_eq!(mgr.find_version("1.18.2").unwrap().id, "1.18.2");
}

#[test]
fn jar_validity_heuristics() {
    let with_main = vec![
        "META-INF/MANIFEST.MF".to_string(),
        "net/minecraft/client/main/Main.class".to_string(),
    ];
    assert!(jar_looks_valid(true, 100, true, &with_main));
    // no main class, few entries: refused
    let few = vec!["META-INF/MANIFEST.MF".to_string()];
    assert!(!jar_looks_valid(true, 100, true, &few));
    // no main class but a large bundle: accepted
    let many: Vec<String> = (0..101).map(|i| format!("entry{}", i)).collect();
    assert!(jar_looks_valid(true, 100, true, &many));
    // a missing, empty, or unparsable file never passes
    assert!(!jar_looks_valid(false, 100, true, &with_main));
    assert!(!jar_looks_valid(true, 0, true, &with_main));
    assert!(!jar_looks_valid(true, 100, false, &with_main));
}

#[test]
fn asset_objects_are_content_addressed() {
    assert_eq!(
        asset_dest("/data/assets", "ab12cd"),
        "/data/assets/objects/ab/ab12cd"
    );
    assert_eq!(
        asset_url("ab12cd"),
        "https://resources.download.minecraft.net/ab/ab12cd"
    );
}

#[test]
fn asset_expansion_skips_present_and_deduplicates() {
    let index = AssetIndex {
        objects: vec![
            ("icons/icon.png".to_string(), AssetObject { hash: "aa11".to_string(), size: 10 }),
            ("lang/en.json".to_string(), AssetObject { hash: "bb22".to_string(), size: 20 }),
            // a second name for the same object: one fetch serves both
            ("lang/en_copy.json".to_string(), AssetObject { hash: "bb22".to_string(), size: 20 }),
            // a digest too short to address a file is not fetchable
            ("broken".to_string(), AssetObject { hash: "x".to_string(), size: 1 }),
        ],
        virtual_: None,
        map_to_resources: None,
    };
    let present = vec!["/data/assets/objects/aa/aa11".to_string()];
    let tasks = expand_asset_tasks(&index, "/data/assets", &present);
    assert_eq!(tasks.len(), 1);
    assert_eq!(tasks[0].0, "https://resources.download.minecraft.net/bb/bb22");
    assert_eq!(tasks[0].1, "/data/assets/objects/bb/bb22");
    assert_eq!(tasks[0].2, Some("bb22".to_string()));
    // with everything on disk nothing is queued
    let all = vec![
        "/data/assets/objects/aa/aa11".to_string(),
        "/data/assets/objects/bb/bb22".to_string(),
    ];
    assert!(expand_asset_tasks(&index, "/data/assets", &all).is_empty());
}
