use snifferlauncher::apps::AppInfo;
use snifferlauncher::vault::{is_vault_file_name, DataVault, QueryAppsParams};

fn app(name: &str, pkg: &str) -> AppInfo {
    AppInfo::from_package_info(name.to_string(), pkg.to_string())
}

#[test]
fn set_then_get_reads_back() {
    let mut v = DataVault::new(None);
    assert_eq!(v.set("shared.theme", "dark".to_string(), "p1"), Ok(()));
    assert_eq!((v.get("shared.theme")), Some("dark".to_string()));
    assert_eq!(v.set("shared.theme", "light".to_string(), "p2"), Ok(()));
    assert_eq!((v.get("shared.theme")), Some("light".to_string()));
}

#[test]
fn get_of_missing_key_is_none() {
    let v = DataVault::default();
    assert!(v.get("shared.nothing").is_none());
}

#[test]
fn own_plugin_namespace_is_writable() {
    let mut v = DataVault::new(None);
    assert_eq!(v.set("plugin.p1.count", "3".to_string(), "p1"), Ok(()));
    assert_eq!((v.get("plugin.p1.count")), Some("3".to_string()));
}

#[test]
fn system_namespace_is_read_only() {
    let mut v = DataVault::new(None);
    assert_eq!(
        v.set("system.apps", "[]".to_string(), "p1"),
        Err("'system.*' namespace is read-only for plugins".to_string())
    );
    assert_eq!(
        v.delete("system.anything", "p1"),
        Err("Cannot delete from 'system.*' namespace".to_string())
    );
}

#[test]
fn foreign_plugin_namespace_is_refused() {
    let mut v = DataVault::new(None);
    assert_eq!(
        v.set("plugin.p2.secret", "x".to_string(), "p1"),
        Err("Plugin is not authorized to write to private namespace 'plugin.p2.secret'".to_string())
    );
    assert!(v.get("plugin.p2.secret").is_none());
    assert_eq!(
        v.delete("plugin.p2.secret", "p1"),
        Err("Cannot delete from another plugin's namespace".to_string())
    );
}

#[test]
fn delete_reports_presence_and_undoes_write() {
    let mut v = DataVault::new(None);
    assert_eq!(v.delete("shared.k", "p1"), Ok(false));
    v.set("shared.k", "1".to_string(), "p1").unwrap();
    assert_eq!(v.delete("shared.k", "p1"), Ok(true));
    assert!(v.get("shared.k").is_none());
    assert!(v.keys(None, "p1").is_empty());
}

#[test]
fn keys_hide_other_plugins_and_filter_by_prefix() {
    let mut v = DataVault::new(None);
    v.set("shared.a", "1".to_string(), "p1").unwrap();
    v.set("plugin.p1.b", "2".to_string(), "p1").unwrap();
    v.set("plugin.p2.c", "3".to_string(), "p2").unwrap();
    let mut mine = v.keys(None, "p1");
    mine.sort();
    assert_eq!(mine, vec!["plugin.p1.b".to_string(), "shared.a".to_string()]);
    let shared = v.keys(Some("shared."), "p1");
    assert_eq!(shared, vec!["shared.a".to_string()]);
    let theirs = v.keys(Some("plugin."), "p2");
    assert_eq!(theirs, vec!["plugin.p2.c".to_string()]);
}

#[test]
fn virtual_system_keys() {
    let mut v = DataVault::new(None);
    v.update_system_apps(vec![app("Camera", "com.cam"), app("Clock", "com.clock")]);
    assert_eq!((v.get("system.app_count")), Some("2".to_string()));
    assert_eq!(
        v.get("system.apps"),
        Some(
            r#"[{"name":"Camera","package_name":"com.cam","icon_bytes":[]},{"name":"Clock","package_name":"com.clock","icon_bytes":[]}]"#
                .to_string()
        )
    );
    let empty = DataVault::new(None);
    assert_eq!((empty.get("system.app_count")), Some("0".to_string()));
}

#[test]
fn app_count_in_decimal() {
    let mut v = DataVault::new(None);
    let apps: Vec<AppInfo> = (0..105).map(|i| app(&format!("A{i}"), &format!("p.{i}"))).collect();
    v.update_system_apps(apps);
    assert_eq!((v.get("system.app_count")), Some("105".to_string()));
    assert_eq!(v.get_system_apps().len(), 105);
}

fn many_apps(n: usize) -> Vec<AppInfo> {
    (0..n).map(|i| app(&format!("App {i}"), &format!("com.example.app{i}"))).collect()
}

#[test]
fn query_defaults_to_first_page_of_28() {
    let mut v = DataVault::new(None);
    v.update_system_apps(many_apps(60));
    let r = v.query_apps(QueryAppsParams::default());
    assert_eq!(r.total_count, 60);
    assert_eq!(r.total_pages, 3);
    assert_eq!(r.page, 0);
    assert_eq!(r.apps.len(), 28);
    assert_eq!(r.apps[0].name, "App 0");
}

#[test]
fn query_last_page_is_partial_and_pages_clamp() {
    let mut v = DataVault::new(None);
    v.update_system_apps(many_apps(60));
    let r = v.query_apps(QueryAppsParams { search: None, page: Some(2), limit: None });
    assert_eq!(r.page, 2);
    assert_eq!(r.apps.len(), 4);
    assert_eq!(r.apps[0].name, "App 56");
    let r = v.query_apps(QueryAppsParams { search: None, page: Some(99), limit: Some(25) });
    assert_eq!(r.total_pages, 3);
    assert_eq!(r.page, 2);
    assert_eq!(r.apps.len(), 10);
    assert_eq!(r.apps[0].name, "App 50");
}

#[test]
fn query_limit_zero_counts_as_one() {
    let mut v = DataVault::new(None);
    v.update_system_apps(many_apps(3));
    let r = v.query_apps(QueryAppsParams { search: None, page: Some(1), limit: Some(0) });
    assert_eq!(r.total_pages, 3);
    assert_eq!(r.page, 1);
    assert_eq!(r.apps.len(), 1);
    assert_eq!(r.apps[0].name, "App 1");
}

#[test]
fn query_of_empty_vault_has_one_empty_page() {
    let v = DataVault::new(None);
    let r = v.query_apps(QueryAppsParams { search: Some("x".to_string()), page: Some(5), limit: None });
    assert_eq!(r.total_count, 0);
    assert_eq!(r.total_pages, 1);
    assert_eq!(r.page, 0);
    assert!(r.apps.is_empty());
}

#[test]
fn query_search_lowercases_trims_and_matches_package() {
    let mut v = DataVault::new(None);
    v.update_system_apps(vec![
        app("Settings", "com.android.settings"),
        app("Camera", "org.photo.cam"),
        app("Calendar", "com.google.calendar"),
    ]);
    let r = v.query_apps(QueryAppsParams { search: Some("  SETT ".to_string()), page: None, limit: None });
    assert_eq!(r.total_count, 1);
    assert_eq!(r.apps[0].name, "Settings");
    let r = v.query_apps(QueryAppsParams { search: Some("photo".to_string()), page: None, limit: None });
    assert_eq!(r.total_count, 1);
    assert_eq!(r.apps[0].name, "Camera");
    let r = v.query_apps(QueryAppsParams { search: Some("ca".to_string()), page: None, limit: None });
    assert_eq!(r.total_count, 2);
    assert_eq!(r.apps[0].name, "Camera");
    assert_eq!(r.apps[1].name, "Calendar");
    let r = v.query_apps(QueryAppsParams { search: Some("   ".to_string()), page: None, limit: None });
    assert_eq!(r.total_count, 3);
}

#[test]
fn every_app_on_exactly_one_page() {
    let mut v = DataVault::new(None);
    v.update_system_apps(many_apps(23));
    let mut seen: Vec<String> = Vec::new();
    for p in 0..5 {
        let r = v.query_apps(QueryAppsParams { search: None, page: Some(p), limit: Some(5) });
        assert_eq!(r.total_pages, 5);
        for a in r.apps {
            seen.push(a.name);
        }
    }
    assert_eq!(seen.len(), 23);
    for i in 0..23 {
        assert_eq!(seen[i], format!("App {i}"));
    }
}

#[test]
fn persist_snapshot_holds_only_own_entries() {
    let mut v = DataVault::new(Some("/cache".to_string()));
    v.set("plugin.p1.a", "1".to_string(), "p1").unwrap();
    v.set("plugin.p1.b", "2".to_string(), "p1").unwrap();
    v.set("plugin.p2.c", "3".to_string(), "p2").unwrap();
    v.set("shared.d", "4".to_string(), "p1").unwrap();
    let req = v.persist_plugin_data("p1").expect("a cache dir is set");
    assert_eq!(req.file_name, "vault_p1.json");
    let map: std::collections::HashMap<String, String> = serde_json::from_str(&req.contents).unwrap();
    let mut entries: Vec<(String, String)> = map.into_iter().collect();
    entries.sort();
    assert_eq!(
        entries,
        vec![("plugin.p1.a".to_string(), "1".to_string()), ("plugin.p1.b".to_string(), "2".to_string())]
    );
}

#[test]
fn persist_without_cache_dir_is_none() {
    let mut v = DataVault::new(None);
    v.set("plugin.p1.a", "1".to_string(), "p1").unwrap();
    assert!(v.persist_plugin_data("p1").is_none());
    assert!(v.write_back("plugin.p1.a", "p1").is_none());
}

#[test]
fn write_back_only_for_plugin_keys() {
    let mut v = DataVault::new(Some("/cache".to_string()));
    v.set("plugin.p1.a", "1".to_string(), "p1").unwrap();
    v.set("shared.x", "1".to_string(), "p1").unwrap();
    assert!(v.write_back("shared.x", "p1").is_none());
    let req = v.write_back("plugin.p1.a", "p1").unwrap();
    assert_eq!(req.file_name, "vault_p1.json");
    assert_eq!(req.contents, "{\"plugin.p1.a\":\"1\"}");
}

#[test]
fn load_persisted_later_entries_win() {
    let mut v = DataVault::new(None);
    v.set("shared.k", "old".to_string(), "p1").unwrap();
    v.load_persisted_data(vec![
        ("plugin.p1.a".to_string(), "1".to_string()),
        ("shared.k".to_string(), "new".to_string()),
        ("plugin.p1.a".to_string(), "2".to_string()),
    ]);
    assert_eq!((v.get("plugin.p1.a")), Some("2".to_string()));
    assert_eq!((v.get("shared.k")), Some("new".to_string()));
    assert_eq!(v.keys(None, "p1").len(), 2);
}

#[test]
fn vault_file_names() {
    assert!(is_vault_file_name("vault_p1.json"));
    assert!(is_vault_file_name("vault_.json"));
    assert!(!is_vault_file_name("vault_p1.txt"));
    assert!(!is_vault_file_name("store_p1.json"));
    assert!(!is_vault_file_name("vault.json"));
}

#[test]
fn snapshot_text_round_trip() {
    let mut v = DataVault::new(Some("/cache".to_string()));
    v.set("plugin.p1.a", "x \"quoted\" \u{e9}".to_string(), "p1").unwrap();
    v.set("plugin.p1.b", "2".to_string(), "p1").unwrap();
    v.set("plugin.p2.c", "3".to_string(), "p2").unwrap();
    let req = v.write_back("plugin.p1.a", "p1").unwrap();
    let mut fresh = DataVault::new(Some("/cache".to_string()));
    fresh.set("shared.k", "keep".to_string(), "p9").unwrap();
    assert!(fresh.load_snapshot_text(&req.contents));
    assert_eq!((fresh.get("plugin.p1.a")), Some("x \"quoted\" \u{e9}".to_string()));
    assert_eq!((fresh.get("plugin.p1.b")), Some("2".to_string()));
    assert!(fresh.get("plugin.p2.c").is_none());
    assert_eq!((fresh.get("shared.k")), Some("keep".to_string()));
}

#[test]
fn load_snapshot_text_wins_and_rejects_non_objects() {
    let mut v = DataVault::new(None);
    v.set("shared.k", "old".to_string(), "p").unwrap();
    assert!(v.load_snapshot_text("{\"shared.k\":\"new\",\"plugin.p.z\":\"1\"}"));
    assert_eq!((v.get("shared.k")), Some("new".to_string()));
    assert_eq!((v.get("plugin.p.z")), Some("1".to_string()));
    assert!(!v.load_snapshot_text("[1, 2]"));
    assert!(!v.load_snapshot_text("{\"a\": 1}"));
    assert!(!v.load_snapshot_text("not json"));
    assert!(v.load_snapshot_text("{}"));
    assert_eq!(v.keys(None, "p").len(), 2);
}

#[test]
fn search_ignores_ascii_case_and_padding() {
    let mut v = DataVault::new(None);
    v.update_system_apps(vec![app("Settings", "com.android.settings"), app("Camera", "org.cam")]);
    let names = |r: snifferlauncher::vault::AppQueryResult| r.apps.iter().map(|a| a.name.clone()).collect::<Vec<_>>();
    let plain = names(v.query_apps(QueryAppsParams { search: Some("set".to_string()), page: None, limit: None }));
    let padded = names(v.query_apps(QueryAppsParams { search: Some("  SET \t".to_string()), page: None, limit: None }));
    assert_eq!(plain, padded);
    assert_eq!(plain, vec!["Settings".to_string()]);
    let blank = names(v.query_apps(QueryAppsParams { search: Some("   ".to_string()), page: None, limit: None }));
    let none = names(v.query_apps(QueryAppsParams::default()));
    assert_eq!(blank, none);
}
