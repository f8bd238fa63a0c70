use unjar::{check_export, export_browser, str_eq, text_less, to_ascii_lower, Browser, Format};

fn strings(v: &[&str]) -> Vec<String> {
    v.iter().map(|s| s.to_string()).collect()
}

#[test]
fn browser_names_round_trip() {
    for b in Browser::ALL {
        assert_eq!(Browser::parse(b.label()), Ok(b));
        assert_eq!(b.label().parse::<Browser>(), Ok(b));
    }
    assert_eq!(Browser::parse("FF"), Ok(Browser::Firefox));
    assert_eq!(Browser::parse("Chrome"), Ok(Browser::Chrome));
    assert_eq!(Browser::parse("Opera"), Err("unknown browser: opera".to_string()));
    assert_eq!(Browser::Brave.label(), "brave");
}

#[test]
fn text_helpers() {
    assert_eq!(to_ascii_lower("AbC-É"), "abc-É");
    assert!(str_eq("Default", "Default"));
    assert!(!str_eq("Default", "default"));
    assert!(text_less("Default", "Profile 1"));
    assert!(text_less("Profile", "Profile 1"));
    assert!(!text_less("b", "a"));
    assert!(!text_less("a", "a"));
}

#[test]
fn export_arguments_conflict_with_list() {
    for (domains, format) in [
        (strings(&["x.com", "list"]), Format::Netscape),
        (strings(&["list"]), Format::Json),
        (strings(&["list"]), Format::Netscape),
    ] {
        assert!(check_export(&domains, format).unwrap_err().contains("`list` is a command"));
    }
}

#[test]
fn all_is_an_explicit_exclusive_target() {
    assert_eq!(check_export(&strings(&["all"]), Format::Netscape), Ok(true));
    assert!(check_export(&strings(&["x.com", "all"]), Format::Netscape)
        .unwrap_err()
        .contains("cannot be combined"));
}

#[test]
fn a_target_is_required_for_export() {
    assert!(check_export(&[], Format::Netscape).unwrap_err().contains("missing domain"));
}

#[test]
fn header_format_requires_one_domain() {
    for domains in [strings(&["all"]), strings(&["x.com", "t.co"])] {
        assert!(check_export(&domains, Format::Header).unwrap_err().contains("exactly one domain"));
    }
    assert_eq!(check_export(&strings(&["x.com"]), Format::Header), Ok(false));
}

#[test]
fn export_reads_chrome_by_default() {
    assert_eq!(export_browser(None), Browser::Chrome);
    assert_eq!(export_browser(Some(Browser::Firefox)), Browser::Firefox);
}
