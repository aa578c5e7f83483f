use snifferlauncher::apps::AppInfo;
use snifferlauncher::vault::{page_of, search_term_of, select_matching};

fn app(name: &str, pkg: &str) -> AppInfo {
    AppInfo::from_package_info(name.to_string(), pkg.to_string())
}

fn strings(v: &[&str]) -> Vec<String> {
    v.iter().map(|s| s.to_string()).collect()
}

#[test]
fn search_term_trims_and_drops_blank_text() {
    assert_eq!(search_term_of("  cam \t"), Some("cam".chars().collect()));
    assert_eq!(search_term_of("   "), None);
    assert_eq!(search_term_of(""), None);
    // The text is taken as already lowercased.
    assert_eq!(search_term_of("CaM"), Some("CaM".chars().collect()));
}

#[test]
fn select_matching_uses_the_given_lowercased_texts() {
    let apps = vec![app("Alpha", "a.one"), app("Beta", "b.two"), app("Gamma", "g.cam")];
    // Lowercased texts are supplied by the caller; they decide what matches.
    let names = strings(&["alpha", "beta", "gamma"]);
    let pkgs = strings(&["a.one", "b.two", "g.cam"]);
    let term: Vec<char> = "am".chars().collect();
    let picked: Vec<&str> = select_matching(&apps, &names, &pkgs, &term).iter().map(|a| a.name.as_str()).collect();
    assert_eq!(picked, vec!["Gamma"]);
    let term: Vec<char> = "a".chars().collect();
    let picked: Vec<&str> = select_matching(&apps, &names, &pkgs, &term).iter().map(|a| a.name.as_str()).collect();
    assert_eq!(picked, vec!["Alpha", "Beta", "Gamma"]);
    let term: Vec<char> = "two".chars().collect();
    let picked: Vec<&str> = select_matching(&apps, &names, &pkgs, &term).iter().map(|a| a.name.as_str()).collect();
    assert_eq!(picked, vec!["Beta"]);
    let term: Vec<char> = "zz".chars().collect();
    assert!(select_matching(&apps, &names, &pkgs, &term).is_empty());
}

#[test]
fn page_of_clamps_and_slices() {
    let apps: Vec<AppInfo> = (0..7).map(|i| app(&format!("A{i}"), "p")).collect();
    let refs: Vec<&AppInfo> = apps.iter().collect();
    let r = page_of(&refs, 1, 3);
    assert_eq!((r.total_count, r.total_pages, r.page), (7, 3, 1));
    assert_eq!(r.apps.iter().map(|a| a.name.as_str()).collect::<Vec<_>>(), vec!["A3", "A4", "A5"]);
    let r = page_of(&refs, 40, 3);
    assert_eq!(r.page, 2);
    assert_eq!(r.apps.len(), 1);
    let r = page_of(&refs, 0, 7);
    assert_eq!((r.total_pages, r.apps.len()), (1, 7));
    let none: Vec<&AppInfo> = Vec::new();
    let r = page_of(&none, 3, 5);
    assert_eq!((r.total_count, r.total_pages, r.page, r.apps.len()), (0, 1, 0, 0));
}

#[test]
fn select_by_lowercase_uses_the_given_names() {
    let apps = vec![app("Mail", "m"), app("Maps", "p")];
    let lowered = strings(&["mail", "maps"]);
    let found = AppInfo::select_by_lowercase(&apps, &lowered, "ma");
    assert_eq!(found.len(), 2);
    let found = AppInfo::select_by_lowercase(&apps, &lowered, "il");
    assert_eq!(found.len(), 1);
    assert_eq!(found[0].name, "Mail");
    let found = AppInfo::select_by_lowercase(&apps, &lowered, "");
    assert_eq!(found.len(), 2);
    // Names not lowercased by the caller are taken as they are.
    let raw = strings(&["Mail", "Maps"]);
    assert!(AppInfo::select_by_lowercase(&apps, &raw, "mail").is_empty());
}
