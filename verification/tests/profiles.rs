use unjar::{
    default_profile, find_profile, profiles, profiles_in_root, select_discovered, Browser,
    CanonicalPaths, DirInfo, PathInfo, PathProbe, Profile, ProfileDirEntry, RootListing,
    SelectorInfo, same_path,
};

fn probe(path: String, present: bool) -> PathProbe {
    PathProbe { path, present }
}

/// A directory entry as the original's test helper creates it: a profile
/// directory with a cookie database (under `Network/` or not) and optionally
/// a `Preferences` file holding a display name.
fn profile(root: &str, directory: &str, name: Option<&str>, network: bool) -> ProfileDirEntry {
    let path = format!("{root}/{directory}");
    ProfileDirEntry {
        directory: directory.to_string(),
        path: path.clone(),
        is_dir: true,
        is_symlink: false,
        network_cookies: probe(format!("{path}/Network/Cookies"), network),
        plain_cookies: probe(format!("{path}/Cookies"), !network),
        preferences: name.map(|n| format!(r#"{{"profile":{{"name":"{n}"}}}}"#)),
    }
}

fn plain_dir(root: &str, directory: &str) -> ProfileDirEntry {
    let path = format!("{root}/{directory}");
    ProfileDirEntry {
        directory: directory.to_string(),
        path: path.clone(),
        is_dir: true,
        is_symlink: false,
        network_cookies: probe(format!("{path}/Network/Cookies"), false),
        plain_cookies: probe(format!("{path}/Cookies"), false),
        preferences: None,
    }
}

fn dir_info(path: &str, preferences: Option<String>) -> DirInfo {
    DirInfo {
        path: path.to_string(),
        file_name: path.rsplit('/').next().filter(|s| !s.is_empty()).map(str::to_string),
        preferences,
    }
}

fn no_path(selector: &str) -> SelectorInfo {
    SelectorInfo {
        looks_like_path: false,
        exists: false,
        canonical: None,
        path: PathInfo {
            target: dir_info(selector, None),
            is_file: false,
            parent: None,
            grandparent: None,
            network_cookies: probe(format!("{selector}/Network/Cookies"), false),
            plain_cookies: probe(format!("{selector}/Cookies"), false),
        },
    }
}

#[test]
fn discovers_standard_profiles_with_stable_ids_and_names() {
    let root = "/home/u/.config/google-chrome";
    let entries = vec![
        profile(root, "Profile 1", Some("Work"), true),
        profile(root, "Default", Some("Personal"), false),
        plain_dir(root, "System Profile"),
    ];

    let mut found = profiles_in_root(Browser::Chrome, &entries, &None);
    found.sort_by(|a, b| a.id().cmp(b.id()));

    assert_eq!(found.len(), 2);
    assert_eq!(found[0].id(), "Default");
    assert_eq!(found[0].name(), "Personal");
    assert_eq!(found[1].id(), "Profile 1");
    assert_eq!(found[1].name(), "Work");
    assert!(found[0].is_default());
    assert!(!found[1].is_default());
    assert!(found[1].cookie_db().ends_with("Network/Cookies"));
}

#[test]
fn marks_last_used_profile_as_default() {
    let root = "/home/u/.config/google-chrome";
    let entries = vec![
        profile(root, "Default", Some("Personal"), false),
        profile(root, "Profile 1", Some("Work"), false),
    ];
    let local_state = Some(r#"{"profile":{"last_used":"Profile 1"}}"#.to_string());

    let found = profiles_in_root(Browser::Chrome, &entries, &local_state);
    assert!(found.iter().find(|profile| profile.id() == "Profile 1").unwrap().is_default());
    assert!(!found.iter().find(|profile| profile.id() == "Default").unwrap().is_default());
}

#[test]
fn explicit_path_accepts_profile_directory_and_database() {
    let root = "/tmp/t";
    let path = format!("{root}/custom");
    let db = format!("{path}/Network/Cookies");

    let from_dir_info = PathInfo {
        target: dir_info(&path, None),
        is_file: false,
        parent: Some(dir_info(root, None)),
        grandparent: Some(dir_info("/tmp", None)),
        network_cookies: probe(db.clone(), true),
        plain_cookies: probe(format!("{path}/Cookies"), false),
    };
    let from_db_info = PathInfo {
        target: dir_info(&db, None),
        is_file: true,
        parent: Some(dir_info(&format!("{path}/Network"), None)),
        grandparent: Some(dir_info(&path, None)),
        network_cookies: probe(format!("{db}/Network/Cookies"), false),
        plain_cookies: probe(format!("{db}/Cookies"), false),
    };

    let from_dir = Profile::from_path(Browser::Chromium, &from_dir_info).unwrap();
    let from_db = Profile::from_path(Browser::Chromium, &from_db_info).unwrap();
    assert_eq!(from_dir.cookie_db(), db);
    assert_eq!(from_db.cookie_db(), db);
    assert_eq!(from_db.path(), path);
}

#[test]
fn selection_prefers_local_id_and_rejects_duplicate_names() {
    let root = "/home/u/.config/google-chrome";
    let entries = vec![
        profile(root, "Default", Some("Same"), false),
        profile(root, "Profile 1", Some("Same"), false),
    ];
    let found = profiles_in_root(Browser::Chrome, &entries, &None);

    assert_eq!(select_discovered(&found, "Profile 1").unwrap().unwrap().id(), "Profile 1");
    let error = select_discovered(&found, "Same").unwrap_err();
    assert!(error.contains("ambiguous"));
    assert!(error.contains("chrome / Default"));
    assert!(error.contains("use a profile ID or path"));
}

#[test]
fn global_selection_rejects_duplicate_ids_across_browsers() {
    let root = "/home/u/.config/same";
    let entries = vec![profile(root, "Default", Some("Personal"), false)];
    let mut found = profiles_in_root(Browser::Chrome, &entries, &None);
    found.extend(profiles_in_root(Browser::Brave, &entries, &None));

    let error = select_discovered(&found, "Default").unwrap_err();
    assert!(error.contains("chrome / Default"));
    assert!(error.contains("brave / Default"));
    assert!(error.contains("pass --browser"));
}

#[test]
fn ambiguity_message_is_exact() {
    let root = "/r";
    let entries = vec![profile(root, "Default", Some("Same"), false), profile(root, "P", Some("Same"), false)];
    let found = profiles_in_root(Browser::Edge, &entries, &None);
    assert_eq!(
        select_discovered(&found, "Same").unwrap_err(),
        "profile 'Same' is ambiguous (edge / Default, edge / P); use a profile ID or path"
    );
    assert!(select_discovered(&found, "nobody").unwrap().is_none());
    assert_eq!(select_discovered(&found, "Same2"), Ok(None));
}

#[test]
fn default_falls_back_to_default_directory_then_single_profile() {
    let root = "/r";
    // An unlisted last-used profile is ignored: `Default` wins.
    let entries = vec![profile(root, "Profile 2", None, false), profile(root, "Default", None, true)];
    let ls = Some(r#"{"profile":{"last_used":"Gone"}}"#.to_string());
    let found = profiles_in_root(Browser::Chrome, &entries, &ls);
    let defaults: Vec<_> = found.iter().filter(|p| p.is_default()).map(|p| p.id().to_string()).collect();
    assert_eq!(defaults, ["Default"]);

    // A single profile is the default.
    let one = vec![profile(root, "Profile 7", None, false)];
    let found = profiles_in_root(Browser::Chrome, &one, &None);
    assert!(found[0].is_default());
    assert_eq!(found[0].name(), "Profile 7");

    // Several profiles, none named Default and no last used: no default.
    let two = vec![profile(root, "A", None, false), profile(root, "B", None, false)];
    let found = profiles_in_root(Browser::Chrome, &two, &Some("not json".to_string()));
    assert!(found.iter().all(|p| !p.is_default()));
    let e = default_profile(Browser::Chrome, &found).unwrap_err();
    assert_eq!(e, "chrome: multiple profiles found; select one by name or ID");
    assert_eq!(default_profile(Browser::Edge, &found).unwrap_err(), "edge: cookie database not found");
}

#[test]
fn symlinks_files_and_empty_names_are_skipped() {
    let root = "/r";
    let mut link = profile(root, "Link", Some("L"), false);
    link.is_symlink = true;
    let mut file = profile(root, "File", None, false);
    file.is_dir = false;
    let empty_name = profile(root, "Default", Some(""), false);
    let found = profiles_in_root(Browser::Chrome, &vec![link, file, empty_name], &None);
    assert_eq!(found.len(), 1);
    assert_eq!(found[0].id(), "Default");
    assert_eq!(found[0].name(), "Default");
}

#[test]
fn profiles_are_listed_by_browser_then_id() {
    let listings = vec![
        RootListing {
            browser: Browser::Brave,
            entries: vec![profile("/b", "Default", None, false)],
            local_state: None,
        },
        RootListing {
            browser: Browser::Chrome,
            entries: vec![profile("/c", "Profile 1", None, false), profile("/c", "Default", None, false)],
            local_state: None,
        },
    ];
    let all = profiles(&listings);
    let ids: Vec<_> = all.iter().map(|p| (p.browser(), p.id().to_string())).collect();
    assert_eq!(
        ids,
        [
            (Browser::Chrome, "Default".to_string()),
            (Browser::Chrome, "Profile 1".to_string()),
            (Browser::Brave, "Default".to_string())
        ]
    );
}

#[test]
fn browser_selection_and_paths() {
    let entries = vec![profile("/c", "Default", Some("Home"), false)];
    let found = profiles_in_root(Browser::Chrome, &entries, &None);

    let p = Browser::Chrome.find_profile(&found, "Home", &no_path("Home")).unwrap();
    assert_eq!(p.id(), "Default");
    assert_eq!(
        Browser::Edge.find_profile(&found, "Home", &no_path("Home")).unwrap_err(),
        "edge: profile 'Home' not found; run `unjar list`"
    );
    assert_eq!(
        Browser::Firefox.find_profile(&found, "/x/y", &SelectorInfo { looks_like_path: true, ..no_path("/x/y") }).unwrap_err(),
        "firefox: explicit profile paths are not supported yet"
    );
    let mut missing = no_path("/x/y");
    missing.looks_like_path = true;
    assert_eq!(
        Browser::Chrome.find_profile(&found, "/x/y", &missing).unwrap_err(),
        "/x/y: Cookies not found (expected Cookies or Network/Cookies)"
    );
    let mut wrong_file = no_path("/x/y");
    wrong_file.looks_like_path = true;
    wrong_file.path.is_file = true;
    assert_eq!(
        Browser::Chrome.find_profile(&found, "/x/y", &wrong_file).unwrap_err(),
        "/x/y: expected a Cookies database"
    );
}

#[test]
fn global_selection_by_path() {
    let entries = vec![profile("/c", "Default", None, false)];
    let found = profiles_in_root(Browser::Chrome, &entries, &None);
    let canon = vec![CanonicalPaths { path: None, cookie_db: Some("/real/Cookies".to_string()) }];

    let mut by_path = no_path("/c/Default");
    by_path.looks_like_path = true;
    assert_eq!(find_profile(&found, &canon, "/c/Default", &by_path).unwrap().id(), "Default");

    let mut by_canonical = no_path("/link/Cookies");
    by_canonical.looks_like_path = true;
    by_canonical.canonical = Some("/real/Cookies".to_string());
    assert_eq!(find_profile(&found, &canon, "/link/Cookies", &by_canonical).unwrap().id(), "Default");

    let mut unknown = no_path("/else");
    unknown.looks_like_path = true;
    unknown.exists = true;
    assert_eq!(
        find_profile(&found, &canon, "/else", &unknown).unwrap_err(),
        "cannot determine the browser for '/else'; pass --browser"
    );
    unknown.exists = false;
    assert_eq!(find_profile(&found, &canon, "/else", &unknown).unwrap_err(), "/else: path does not exist");
    assert_eq!(
        find_profile(&found, &canon, "nobody", &no_path("nobody")).unwrap_err(),
        "profile 'nobody' not found; run `unjar list`"
    );
}

#[test]
fn explicit_path_names_custom_profiles() {
    // A Cookies file directly under a profile directory, with a display name.
    let info = PathInfo {
        target: dir_info("/p/work/Cookies", None),
        is_file: true,
        parent: Some(dir_info("/p/work", Some(r#"{"profile":{"name":"Office"}}"#.to_string()))),
        grandparent: Some(dir_info("/p", None)),
        network_cookies: probe("/p/work/Cookies/Network/Cookies".to_string(), false),
        plain_cookies: probe("/p/work/Cookies/Cookies".to_string(), false),
    };
    let p = Profile::from_path(Browser::Brave, &info).unwrap();
    assert_eq!(p.id(), "work");
    assert_eq!(p.name(), "Office");
    assert_eq!(p.path(), "/p/work");
    assert!(!p.is_default());
    assert_eq!(p.browser(), Browser::Brave);
}

#[test]
fn default_cookie_db_of_each_browser() {
    let entries = vec![profile("/c", "Default", None, true)];
    let found = profiles_in_root(Browser::Chrome, &entries, &None);
    assert_eq!(
        Browser::Chrome.cookie_db(&found, &None, &None),
        Some("/c/Default/Network/Cookies".to_string())
    );
    assert_eq!(Browser::Edge.cookie_db(&found, &None, &None), None);
    let ff = Some("/f/cookies.sqlite".to_string());
    assert_eq!(Browser::Firefox.cookie_db(&found, &ff, &None), ff);
    assert_eq!(Browser::Safari.cookie_db(&found, &ff, &None), None);
}

#[test]
fn naming_the_browser_disambiguates_shared_ids() {
    let entries = vec![profile("/s", "Default", Some("Personal"), false)];
    let mut found = profiles_in_root(Browser::Chrome, &entries, &None);
    found.extend(profiles_in_root(Browser::Brave, &entries, &None));
    let canon: Vec<CanonicalPaths> = found.iter().map(|_| CanonicalPaths { path: None, cookie_db: None }).collect();

    assert!(find_profile(&found, &canon, "Default", &no_path("Default")).is_err());
    let p = Browser::Brave.find_profile(&found, "Default", &no_path("Default")).unwrap();
    assert_eq!(p.browser(), Browser::Brave);

    let unique = profiles_in_root(Browser::Chrome, &entries, &None);
    let canon = vec![CanonicalPaths { path: None, cookie_db: None }];
    assert_eq!(find_profile(&unique, &canon, "Default", &no_path("Default")).unwrap().id(), "Default");
}

#[test]
fn paths_compare_by_components() {
    assert!(same_path("/c/Default/", "/c/Default", &None, &None));
    assert!(same_path("/c//Default", "/c/Default", &None, &None));
    assert!(same_path("/c/./Default", "/c/Default", &None, &None));
    assert!(!same_path("/c/Default", "/c/Profile 1", &None, &None));
    assert!(!same_path("/c/../c/Default", "/c/Default", &None, &None));
    let real = Some("/real/Cookies".to_string());
    assert!(same_path("/a/Cookies", "/b/Cookies", &real, &Some("/real//Cookies".to_string())));
    assert!(!same_path("/a/Cookies", "/b/Cookies", &real, &None));
}

#[test]
fn profiles_with_equal_browser_and_id_keep_their_order() {
    let listings = vec![
        RootListing {
            browser: Browser::Chrome,
            entries: vec![profile("/first", "Default", None, false)],
            local_state: None,
        },
        RootListing {
            browser: Browser::Brave,
            entries: vec![profile("/b", "Default", None, false)],
            local_state: None,
        },
        RootListing {
            browser: Browser::Chrome,
            entries: vec![profile("/second", "Default", None, false)],
            local_state: None,
        },
    ];
    let all = profiles(&listings);
    let paths: Vec<_> = all.iter().map(|p| p.path().to_string()).collect();
    assert_eq!(paths, ["/first/Default", "/second/Default", "/b/Default"]);
}

#[test]
fn listed_default_is_the_default_profile() {
    let listings = vec![
        RootListing {
            browser: Browser::Chrome,
            entries: vec![profile("/c", "Profile 1", None, false), profile("/c", "Default", None, false)],
            local_state: Some(r#"{"profile":{"last_used":"Profile 1"}}"#.to_string()),
        },
        RootListing {
            browser: Browser::Edge,
            entries: vec![profile("/e", "Profile 2", None, true), profile("/e", "Profile 3", None, true)],
            local_state: None,
        },
    ];
    let all = profiles(&listings);
    let defaults: Vec<_> = all.iter().filter(|p| p.is_default()).collect();
    assert_eq!(defaults.len(), 1);
    assert_eq!(defaults[0].id(), "Profile 1");
    assert_eq!(default_profile(Browser::Chrome, &all).unwrap().path(), "/c/Profile 1");
    assert_eq!(
        default_profile(Browser::Edge, &all).unwrap_err(),
        "edge: multiple profiles found; select one by name or ID"
    );
}

#[test]
fn profile_id_is_its_directory_name() {
    let entries = vec![profile("/c", "Profile 7", Some("Travel"), true)];
    let found = profiles_in_root(Browser::Chrome, &entries, &None);
    assert_eq!(found.len(), 1);
    assert_eq!(found[0].id(), "Profile 7");
    assert_eq!(found[0].name(), "Travel");
    assert!(found[0].path().ends_with(found[0].id()));
    assert_eq!(found[0].cookie_db(), "/c/Profile 7/Network/Cookies");
}
