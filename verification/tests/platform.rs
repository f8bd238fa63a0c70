use unjar::{
    chromium_root, discovered_browsers, firefox_cookie_file, firefox_root, first_existing,
    profile_cookie_db, safari_candidates, BaseDir, Browser, PathProbe, Platform,
};

#[test]
fn chromium_roots_per_platform() {
    let mac = chromium_root(Browser::Chrome, Platform::MacOs).unwrap();
    assert_eq!(mac.base, BaseDir::Config);
    assert_eq!(mac.parts, ["Google", "Chrome"]);
    let linux = chromium_root(Browser::Chrome, Platform::Linux).unwrap();
    assert_eq!(linux.base, BaseDir::ChromeConfigHome);
    assert_eq!(linux.parts, ["google-chrome"]);
    let win = chromium_root(Browser::Edge, Platform::Windows).unwrap();
    assert_eq!(win.base, BaseDir::DataLocal);
    assert_eq!(win.parts, ["Microsoft", "Edge", "User Data"]);
    assert!(chromium_root(Browser::Firefox, Platform::Linux).is_none());
    assert_eq!(
        discovered_browsers(),
        [Browser::Chrome, Browser::Chromium, Browser::Edge, Browser::Brave]
    );
}

#[test]
fn firefox_and_safari_locations() {
    let ff = firefox_root(Platform::Linux);
    assert_eq!(ff.base, BaseDir::Home);
    assert_eq!(ff.parts, [".mozilla", "firefox"]);
    assert_eq!(firefox_cookie_file(), "cookies.sqlite");
    assert_eq!(safari_candidates(Platform::MacOs).len(), 2);
    assert!(safari_candidates(Platform::Linux).is_empty());
}

#[test]
fn first_existing_path_wins() {
    let a = PathProbe { path: "a".to_string(), present: false };
    let b = PathProbe { path: "b".to_string(), present: true };
    let c = PathProbe { path: "c".to_string(), present: true };
    assert_eq!(first_existing(&[a.clone(), b.clone(), c.clone()]), Some("b".to_string()));
    assert_eq!(first_existing(&[a.clone()]), None);
    assert_eq!(profile_cookie_db(&c, &b), Some("c".to_string()));
    assert_eq!(profile_cookie_db(&a, &b), Some("b".to_string()));
}

#[test]
fn selectors_that_look_like_paths() {
    assert!(unjar::looks_like_path(true, 1, false));
    assert!(unjar::looks_like_path(false, 2, false));
    assert!(unjar::looks_like_path(false, 1, true));
    assert!(!unjar::looks_like_path(false, 1, false));
}
