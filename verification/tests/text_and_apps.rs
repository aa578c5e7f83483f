use snifferlauncher::apps::{apps_to_json, AppInfo};
use snifferlauncher::text::{chars_eq, chars_of, contains, decimal_string, starts_with, string_from_chars, trim};

fn cs(s: &str) -> Vec<char> {
    s.chars().collect()
}

#[test]
fn trim_removes_unicode_whitespace() {
    assert_eq!(trim(&cs("  a b \t")), cs("a b"));
    assert_eq!(trim(&cs("\u{2003}x\u{00a0}")), cs("x"));
    assert!(trim(&cs(" \n ")).is_empty());
    assert!(trim(&[]).is_empty());
}

#[test]
fn char_helpers() {
    assert_eq!(chars_of("héllo"), cs("héllo"));
    assert!(starts_with(&cs("plugin.p1.x"), &cs("plugin.")));
    assert!(!starts_with(&cs("plug"), &cs("plugin.")));
    assert!(contains(&cs("settings"), &cs("tt")));
    assert!(contains(&cs("abc"), &[]));
    assert!(!contains(&cs("abc"), &cs("abcd")));
    assert!(chars_eq(&cs("x"), &cs("x")));
    assert!(!chars_eq(&cs("x"), &cs("y")));
    assert_eq!(string_from_chars(&cs("añb")), "añb");
}

#[test]
fn decimal_strings() {
    assert_eq!(decimal_string(0), "0");
    assert_eq!(decimal_string(7), "7");
    assert_eq!(decimal_string(1234567890), "1234567890");
    assert_eq!(decimal_string(usize::MAX), usize::MAX.to_string());
}

fn apps() -> Vec<AppInfo> {
    vec![
        AppInfo::from_package_info("Settings".to_string(), "com.android.settings".to_string()),
        AppInfo::new("Camera".to_string(), "com.cam".to_string(), vec![1, 2]),
        AppInfo::from_package_info("SETTINGS Plus".to_string(), "org.plus".to_string()),
    ]
}

#[test]
fn search_by_name_is_case_insensitive_on_names_only() {
    let all = apps();
    let found = AppInfo::search_by_name(&all, "sett");
    assert_eq!(found.len(), 2);
    assert_eq!(found[0].name, "Settings");
    assert_eq!(found[1].name, "SETTINGS Plus");
    let found = AppInfo::search_by_name(&all, "ANDROID");
    assert!(found.is_empty());
    let found = AppInfo::search_by_name(&all, "");
    assert_eq!(found.len(), 3);
}

#[test]
fn app_info_builders() {
    let a = AppInfo::from_package_info("Clock".to_string(), "com.clock".to_string());
    assert!(a.icon_bytes.is_empty());
    let a = a.with_icon(vec![9, 8, 7]);
    assert_eq!(a.icon_bytes, vec![9, 8, 7]);
    assert_eq!(a.name, "Clock");
    let b = a.duplicate();
    assert_eq!(b.package_name, "com.clock");
    assert_eq!(b.icon_bytes, vec![9, 8, 7]);
}

#[test]
fn white_space_agrees_with_std_on_every_char() {
    for u in 0u32..=0x10FFFF {
        if let Some(c) = char::from_u32(u) {
            assert_eq!(snifferlauncher::text::is_white_space(c), c.is_whitespace(), "U+{u:04X}");
        }
    }
}

#[test]
fn search_by_name_ascii_case_insensitive() {
    let all = apps();
    let found = AppInfo::search_by_name(&all, "SET");
    assert_eq!(found.len(), 2);
    assert_eq!(found[0].name, "Settings");
}

#[test]
fn app_list_json_matches_serde_layout() {
    assert_eq!(apps_to_json(&[]), "[]");
    let name = "Ca\"m\\era\n";
    let apps = vec![
        AppInfo::new(name.to_string(), "com.cam".to_string(), vec![1, 200, 0]),
        AppInfo::new("Ünï".to_string(), "p".to_string(), vec![]),
    ];
    let expected = format!(
        "[{{\"name\":{},\"package_name\":\"com.cam\",\"icon_bytes\":[1,200,0]}},{{\"name\":{},\"package_name\":\"p\",\"icon_bytes\":[]}}]",
        serde_json::to_string(name).unwrap(),
        serde_json::to_string("Ünï").unwrap()
    );
    assert_eq!(apps_to_json(&apps), expected);
    assert!(expected.contains("\"Ca\\\"m\\\\era\\n\""));
}
