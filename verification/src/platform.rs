use vstd::prelude::*;

use crate::browser::{spec_kind, Browser, Kind};

verus! {

/// An operating system whose browser layout unjar knows.
#[derive(Debug, Clone, Copy, PartialEq, Eq, Structural)]
pub enum Platform {
    MacOs,
    Linux,
    Windows,
}

/// The user directory a browser path starts from.
#[derive(Debug, Clone, Copy, PartialEq, Eq, Structural)]
pub enum BaseDir {
    /// The user's configuration directory.
    Config,
    /// `CHROME_CONFIG_HOME` when it is set, else the configuration directory.
    ChromeConfigHome,
    /// The user's local data directory.
    DataLocal,
    /// The user's home directory.
    Home,
}

/// A location below one of the user's directories.
pub struct Location {
    pub base: BaseDir,
    /// The path components below `base`.
    pub parts: Vec<&'static str>,
}

/// The texts of path components.
pub open spec fn part_texts(parts: Seq<&'static str>) -> Seq<Seq<char>> {
    parts.map_values(|s: &'static str| s@)
}

/// Where a chromium-family browser keeps its user data on a platform.
pub open spec fn spec_chromium_root(b: Browser, p: Platform) -> Option<(BaseDir, Seq<Seq<char>>)> {
    match p {
        Platform::MacOs => match b {
            Browser::Chrome => Some((BaseDir::Config, seq!["Google"@, "Chrome"@])),
            Browser::Chromium => Some((BaseDir::Config, seq!["Chromium"@])),
            Browser::Edge => Some((BaseDir::Config, seq!["Microsoft Edge"@])),
            Browser::Brave => Some((BaseDir::Config, seq!["BraveSoftware"@, "Brave-Browser"@])),
            _ => None,
        },
        Platform::Linux => match b {
            Browser::Chrome => Some((BaseDir::ChromeConfigHome, seq!["google-chrome"@])),
            Browser::Chromium => Some((BaseDir::Config, seq!["chromium"@])),
            Browser::Edge => Some((BaseDir::Config, seq!["microsoft-edge"@])),
            Browser::Brave => Some((BaseDir::Config, seq!["BraveSoftware"@, "Brave-Browser"@])),
            _ => None,
        },
        Platform::Windows => match b {
            Browser::Chrome => Some((BaseDir::DataLocal, seq!["Google"@, "Chrome"@, "User Data"@])),
            Browser::Chromium => Some((BaseDir::DataLocal, seq!["Chromium"@, "User Data"@])),
            Browser::Edge => Some((BaseDir::DataLocal, seq!["Microsoft"@, "Edge"@, "User Data"@])),
            Browser::Brave => Some((BaseDir::DataLocal, seq!["BraveSoftware"@, "Brave-Browser"@, "User Data"@])),
            _ => None,
        },
    }
}

/// Builds a location from its base and components.
fn location(base: BaseDir, parts: Vec<&'static str>) -> (l: Location)
    ensures
        l.base == base,
        l.parts@ == parts@,
{
    Location { base, parts }
}

/// Where a chromium-family browser keeps its user data on a platform; `None`
/// for other browsers.
pub fn chromium_root(browser: Browser, platform: Platform) -> (r: Option<Location>)
    ensures
        match spec_chromium_root(browser, platform) {
            Some((base, parts)) => r matches Some(l) && l.base == base && part_texts(l.parts@) == parts,
            None => r is None,
        },
{
    let r = match platform {
        Platform::MacOs => match browser {
            Browser::Chrome => Some(location(BaseDir::Config, vec!["Google", "Chrome"])),
            Browser::Chromium => Some(location(BaseDir::Config, vec!["Chromium"])),
            Browser::Edge => Some(location(BaseDir::Config, vec!["Microsoft Edge"])),
            Browser::Brave => Some(location(BaseDir::Config, vec!["BraveSoftware", "Brave-Browser"])),
            _ => None,
        },
        Platform::Linux => match browser {
            Browser::Chrome => Some(location(BaseDir::ChromeConfigHome, vec!["google-chrome"])),
            Browser::Chromium => Some(location(BaseDir::Config, vec!["chromium"])),
            Browser::Edge => Some(location(BaseDir::Config, vec!["microsoft-edge"])),
            Browser::Brave => Some(location(BaseDir::Config, vec!["BraveSoftware", "Brave-Browser"])),
            _ => None,
        },
        Platform::Windows => match browser {
            Browser::Chrome => Some(location(BaseDir::DataLocal, vec!["Google", "Chrome", "User Data"])),
            Browser::Chromium => Some(location(BaseDir::DataLocal, vec!["Chromium", "User Data"])),
            Browser::Edge => Some(location(BaseDir::DataLocal, vec!["Microsoft", "Edge", "User Data"])),
            Browser::Brave => Some(location(BaseDir::DataLocal, vec!["BraveSoftware", "Brave-Browser", "User Data"])),
            _ => None,
        },
    };
    proof {
        if r is Some {
            let (base, parts) = spec_chromium_root(browser, platform)->0;
            assert(part_texts(r->0.parts@) =~= parts);
        }
    }
    r
}

/// The chromium-family browsers whose profiles are discovered, in listing order.
pub fn discovered_browsers() -> (r: Vec<Browser>)
    ensures
        r@ == seq![Browser::Chrome, Browser::Chromium, Browser::Edge, Browser::Brave],
{
    let r = vec![Browser::Chrome, Browser::Chromium, Browser::Edge, Browser::Brave];
    assert(r@ =~= seq![Browser::Chrome, Browser::Chromium, Browser::Edge, Browser::Brave]);
    r
}

/// Where Firefox keeps its profile directories on a platform.
pub open spec fn spec_firefox_root(p: Platform) -> (BaseDir, Seq<Seq<char>>) {
    match p {
        Platform::MacOs => (BaseDir::Config, seq!["Firefox"@, "Profiles"@]),
        Platform::Linux => (BaseDir::Home, seq![".mozilla"@, "firefox"@]),
        Platform::Windows => (BaseDir::Config, seq!["Mozilla"@, "Firefox"@, "Profiles"@]),
    }
}

/// Where Firefox keeps its profile directories on a platform.
pub fn firefox_root(platform: Platform) -> (l: Location)
    ensures
        l.base == spec_firefox_root(platform).0,
        part_texts(l.parts@) == spec_firefox_root(platform).1,
{
    let l = match platform {
        Platform::MacOs => location(BaseDir::Config, vec!["Firefox", "Profiles"]),
        Platform::Linux => location(BaseDir::Home, vec![".mozilla", "firefox"]),
        Platform::Windows => location(BaseDir::Config, vec!["Mozilla", "Firefox", "Profiles"]),
    };
    assert(part_texts(l.parts@) =~= spec_firefox_root(platform).1);
    l
}

/// The name of the cookie database in a Firefox profile directory.
pub fn firefox_cookie_file() -> (s: &'static str)
    ensures
        s@ == "cookies.sqlite"@,
{
    "cookies.sqlite"
}

/// Where Safari may keep its cookie store on a platform, in the order they are
/// tried; Safari exists only on macOS.
pub open spec fn spec_safari_candidates(p: Platform) -> Seq<Seq<char>> {
    match p {
        Platform::MacOs => seq![
            "Library/Containers/com.apple.Safari/Data/Library/Cookies/Cookies.binarycookies"@,
            "Library/Cookies/Cookies.binarycookies"@,
        ],
        _ => Seq::empty(),
    }
}

/// Where Safari may keep its cookie store below the home directory, in the
/// order they are tried.
pub fn safari_candidates(platform: Platform) -> (r: Vec<&'static str>)
    ensures
        part_texts(r@) == spec_safari_candidates(platform),
{
    let r = match platform {
        Platform::MacOs => vec![
            "Library/Containers/com.apple.Safari/Data/Library/Cookies/Cookies.binarycookies",
            "Library/Cookies/Cookies.binarycookies",
        ],
        _ => Vec::new(),
    };
    assert(part_texts(r@) =~= spec_safari_candidates(platform));
    r
}


/// Where each chromium-family browser keeps its user data: a root exists
/// exactly for the chromium-family browsers; on macOS it lies below the
/// configuration directory, on Windows below the local data directory, in the
/// same folders as on macOS (Edge's split as `Microsoft/Edge`) followed by
/// `User Data`; on Linux below the configuration directory (Chrome's below
/// `CHROME_CONFIG_HOME` when set), Brave in the same folders as on macOS.
pub proof fn lemma_chromium_roots(b: Browser)
    ensures
        forall|p: Platform| #[trigger] spec_chromium_root(b, p) is Some <==> spec_kind(b) == Kind::Chromium,
        spec_kind(b) == Kind::Chromium ==> ({
            let mac = spec_chromium_root(b, Platform::MacOs)->0;
            let linux = spec_chromium_root(b, Platform::Linux)->0;
            let win = spec_chromium_root(b, Platform::Windows)->0;
            &&& mac.0 == BaseDir::Config
            &&& win.0 == BaseDir::DataLocal
            &&& linux.0 == (if b == Browser::Chrome { BaseDir::ChromeConfigHome } else { BaseDir::Config })
            &&& b == Browser::Brave ==> mac.1 == seq!["BraveSoftware"@, "Brave-Browser"@] && linux.1 == mac.1
                && win.1 == mac.1.push("User Data"@)
            &&& b == Browser::Chrome ==> mac.1 == seq!["Google"@, "Chrome"@] && linux.1 == seq!["google-chrome"@]
                && win.1 == mac.1.push("User Data"@)
            &&& b == Browser::Chromium ==> mac.1 == seq!["Chromium"@] && linux.1 == seq!["chromium"@]
                && win.1 == mac.1.push("User Data"@)
            &&& b == Browser::Edge ==> mac.1 == seq!["Microsoft Edge"@] && linux.1 == seq!["microsoft-edge"@]
                && win.1 == seq!["Microsoft"@, "Edge"@, "User Data"@]
        }),
{
    assert(seq!["BraveSoftware"@, "Brave-Browser"@].push("User Data"@) =~= seq!["BraveSoftware"@, "Brave-Browser"@, "User Data"@]);
    assert(seq!["Google"@, "Chrome"@].push("User Data"@) =~= seq!["Google"@, "Chrome"@, "User Data"@]);
    assert(seq!["Chromium"@].push("User Data"@) =~= seq!["Chromium"@, "User Data"@]);
}


/// Firefox keeps its profiles in `Firefox/Profiles` below the configuration
/// directory on macOS, in `Mozilla/Firefox/Profiles` there on Windows, and in
/// `.mozilla/firefox` below the home directory on Linux; Safari's cookie store
/// is tried first in Safari's container, then in `Library/Cookies`, both named
/// `Cookies.binarycookies`, and only on macOS.
pub proof fn lemma_firefox_and_safari_locations(p: Platform)
    ensures
        spec_firefox_root(Platform::MacOs) == (BaseDir::Config, seq!["Firefox"@, "Profiles"@]),
        spec_firefox_root(Platform::Windows) == (BaseDir::Config, seq!["Mozilla"@] + spec_firefox_root(Platform::MacOs).1),
        spec_firefox_root(Platform::Linux) == (BaseDir::Home, seq![".mozilla"@, "firefox"@]),
        p != Platform::MacOs ==> spec_safari_candidates(p).len() == 0,
        spec_safari_candidates(Platform::MacOs) == seq![
            "Library/Containers/com.apple.Safari/Data/"@ + "Library/Cookies/Cookies.binarycookies"@,
            "Library/Cookies/Cookies.binarycookies"@,
        ],
{
    reveal_strlit("Library/Containers/com.apple.Safari/Data/");
    reveal_strlit("Library/Cookies/Cookies.binarycookies");
    reveal_strlit("Library/Containers/com.apple.Safari/Data/Library/Cookies/Cookies.binarycookies");
    assert("Library/Containers/com.apple.Safari/Data/Library/Cookies/Cookies.binarycookies"@
        =~= "Library/Containers/com.apple.Safari/Data/"@ + "Library/Cookies/Cookies.binarycookies"@);
    assert(seq!["Mozilla"@] + seq!["Firefox"@, "Profiles"@] =~= seq!["Mozilla"@, "Firefox"@, "Profiles"@]);
    assert(spec_safari_candidates(Platform::MacOs) =~= seq![
        "Library/Containers/com.apple.Safari/Data/"@ + "Library/Cookies/Cookies.binarycookies"@,
        "Library/Cookies/Cookies.binarycookies"@,
    ]);
}

} // verus!
