use vstd::prelude::*;

use crate::text::{lower_text, str_eq, to_ascii_lower};

verus! {

/// A supported browser.
#[derive(Debug, Clone, Copy, PartialEq, Eq, Structural, PartialOrd, Ord, Hash)]
pub enum Browser {
    Chrome,
    Chromium,
    Edge,
    Brave,
    Firefox,
    Safari,
}

/// Which storage engine a browser uses.
#[derive(Debug, Clone, Copy, PartialEq, Eq, Structural)]
pub enum Kind {
    Chromium,
    Firefox,
    Safari,
}

/// The storage engine of a browser.
pub open spec fn spec_kind(b: Browser) -> Kind {
    match b {
        Browser::Firefox => Kind::Firefox,
        Browser::Safari => Kind::Safari,
        _ => Kind::Chromium,
    }
}

/// The position of a browser in the declaration order, which is the order
/// profiles are listed in.
pub open spec fn spec_rank(b: Browser) -> int {
    match b {
        Browser::Chrome => 0,
        Browser::Chromium => 1,
        Browser::Edge => 2,
        Browser::Brave => 3,
        Browser::Firefox => 4,
        Browser::Safari => 5,
    }
}

/// The lower-case name a browser is shown and selected by.
pub open spec fn spec_label(b: Browser) -> Seq<char> {
    match b {
        Browser::Chrome => "chrome"@,
        Browser::Chromium => "chromium"@,
        Browser::Edge => "edge"@,
        Browser::Brave => "brave"@,
        Browser::Firefox => "firefox"@,
        Browser::Safari => "safari"@,
    }
}

/// The browser named by an already lower-cased text, if any.
pub open spec fn spec_browser_named(s: Seq<char>) -> Option<Browser> {
    if s == "chrome"@ {
        Some(Browser::Chrome)
    } else if s == "chromium"@ {
        Some(Browser::Chromium)
    } else if s == "edge"@ {
        Some(Browser::Edge)
    } else if s == "brave"@ {
        Some(Browser::Brave)
    } else if s == "firefox"@ || s == "ff"@ {
        Some(Browser::Firefox)
    } else if s == "safari"@ {
        Some(Browser::Safari)
    } else {
        None
    }
}

impl Browser {
    /// Every supported browser, in declaration order.
    pub const ALL: [Browser; 6] = [
        Browser::Chrome,
        Browser::Chromium,
        Browser::Edge,
        Browser::Brave,
        Browser::Firefox,
        Browser::Safari,
    ];

    /// The storage engine this browser uses.
    pub fn kind(&self) -> (k: Kind)
        ensures
            k == spec_kind(*self),
    {
        match self {
            Browser::Firefox => Kind::Firefox,
            Browser::Safari => Kind::Safari,
            _ => Kind::Chromium,
        }
    }

    /// The position of this browser in declaration order.
    pub fn rank(&self) -> (r: u8)
        ensures
            r as int == spec_rank(*self),
    {
        match self {
            Browser::Chrome => 0,
            Browser::Chromium => 1,
            Browser::Edge => 2,
            Browser::Brave => 3,
            Browser::Firefox => 4,
            Browser::Safari => 5,
        }
    }

    /// The lower-case name of this browser (what `Display` shows).
    pub fn label(&self) -> (s: &'static str)
        ensures
            s@ == spec_label(*self),
    {
        match self {
            Browser::Chrome => "chrome",
            Browser::Chromium => "chromium",
            Browser::Edge => "edge",
            Browser::Brave => "brave",
            Browser::Firefox => "firefox",
            Browser::Safari => "safari",
        }
    }

    /// Parses a browser name, ignoring ASCII case; `ff` names Firefox.
    pub fn parse(s: &str) -> (r: Result<Browser, String>)
        ensures
            match spec_browser_named(lower_text(s@)) {
                Some(b) => r == Ok::<Browser, String>(b),
                None => r is Err && r->Err_0@ == "unknown browser: "@ + lower_text(s@),
            },
    {
        let lower = to_ascii_lower(s);
        let l = lower.as_str();
        if str_eq(l, "chrome") {
            Ok(Browser::Chrome)
        } else if str_eq(l, "chromium") {
            Ok(Browser::Chromium)
        } else if str_eq(l, "edge") {
            Ok(Browser::Edge)
        } else if str_eq(l, "brave") {
            Ok(Browser::Brave)
        } else if str_eq(l, "firefox") || str_eq(l, "ff") {
            Ok(Browser::Firefox)
        } else if str_eq(l, "safari") {
            Ok(Browser::Safari)
        } else {
            let mut msg = String::from_str("unknown browser: ");
            msg.append(l);
            Err(msg)
        }
    }
}

impl core::str::FromStr for Browser {
    type Err = String;

    /// Parses a browser name, ignoring ASCII case (see [`Browser::parse`]).
    fn from_str(s: &str) -> (r: Result<Browser, String>)
        ensures
            match spec_browser_named(lower_text(s@)) {
                Some(b) => r == Ok::<Browser, String>(b),
                None => r is Err && r->Err_0@ == "unknown browser: "@ + lower_text(s@),
            },
    {
        Browser::parse(s)
    }
}

} // verus!

verus! {

/// Every browser's name parses back to that browser (`Display` and `FromStr` agree).
pub proof fn lemma_label_parses_back(b: Browser)
    ensures
        spec_browser_named(lower_text(spec_label(b))) == Some(b),
{
    reveal_strlit("chrome");
    reveal_strlit("chromium");
    reveal_strlit("edge");
    reveal_strlit("brave");
    reveal_strlit("firefox");
    reveal_strlit("ff");
    reveal_strlit("safari");
    assert(lower_text(spec_label(b)) =~= spec_label(b));
    assert("chrome"@.len() == 6 && "chromium"@.len() == 8 && "edge"@.len() == 4);
    assert("brave"@.len() == 5 && "firefox"@.len() == 7 && "ff"@.len() == 2 && "safari"@.len() == 6);
    assert("chrome"@[0] == 'c' && "safari"@[0] == 's');
    assert("chrome"@ != "chromium"@ && "chrome"@ != "edge"@ && "chrome"@ != "brave"@);
    assert("chromium"@ != "edge"@ && "chromium"@ != "brave"@);
    assert("edge"@ != "brave"@);
    assert("firefox"@ != "chrome"@ && "firefox"@ != "chromium"@ && "firefox"@ != "edge"@ && "firefox"@ != "brave"@);
    assert("safari"@ != "chrome"@ && "safari"@ != "chromium"@ && "safari"@ != "edge"@ && "safari"@ != "brave"@);
    assert("safari"@ != "firefox"@ && "safari"@ != "ff"@);
}

/// Lower-casing a text twice changes nothing more, so parsing a browser name
/// ignores ASCII case: a name and its lower-case form parse alike.
pub proof fn lemma_parse_ignores_case(s: Seq<char>)
    ensures
        lower_text(lower_text(s)) == lower_text(s),
        spec_browser_named(lower_text(lower_text(s))) == spec_browser_named(lower_text(s)),
{
    assert(lower_text(lower_text(s)) =~= lower_text(s));
}

} // verus!
