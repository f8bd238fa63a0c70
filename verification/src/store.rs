use vstd::prelude::*;

use crate::browser::{spec_kind, Browser, Kind};
use crate::chromium::{self, spec_chromium_cookies, ChromiumRow};
use crate::cookie::{CookieJar, CookieView};
use crate::error::Error;
use crate::firefox::{self, spec_firefox_cookie, FirefoxRow};
use crate::profile::{
    lemma_default_profile_of_browser, spec_browser_cookie_db, spec_default_profile, Profile, ProfileView,
};
use crate::safari;

verus! {

/// What was read from a browser's cookie database.
#[derive(Debug)]
pub enum StoreContents {
    /// The rows of a chromium-family `Cookies` database and the key that decrypts them.
    Chromium { rows: Vec<ChromiumRow>, key: Vec<u8> },
    /// The rows of a Firefox `cookies.sqlite` database.
    Firefox { rows: Vec<FirefoxRow> },
    /// Safari's store at the given path, which is not read yet.
    Safari { db: String },
}

/// The storage engine contents were read from.
pub open spec fn store_kind(s: StoreContents) -> Kind {
    match s {
        StoreContents::Chromium { .. } => Kind::Chromium,
        StoreContents::Firefox { .. } => Kind::Firefox,
        StoreContents::Safari { .. } => Kind::Safari,
    }
}

/// The cookies that store contents hold, or the message of the error that
/// reading them gives.
pub open spec fn spec_store_cookies(s: StoreContents) -> Result<Seq<CookieView>, Seq<char>> {
    match s {
        StoreContents::Chromium { rows, key } => spec_chromium_cookies(rows@, key@),
        StoreContents::Firefox { rows } => Ok(rows@.map_values(|row: FirefoxRow| spec_firefox_cookie(row))),
        StoreContents::Safari { .. } => Err("safari cookies (binarycookies format) parsing is not implemented yet"@),
    }
}

impl StoreContents {
    /// The storage engine these contents were read from.
    pub fn kind(&self) -> (k: Kind)
        ensures
            k == store_kind(*self),
    {
        match self {
            StoreContents::Chromium { .. } => Kind::Chromium,
            StoreContents::Firefox { .. } => Kind::Firefox,
            StoreContents::Safari { .. } => Kind::Safari,
        }
    }
}

/// Reads the cookies out of what was read from a cookie database.
fn read_store(store: &StoreContents) -> (r: Result<CookieJar, Error>)
    ensures
        match spec_store_cookies(*store) {
            Ok(v) => r is Ok && r->Ok_0@ == v,
            Err(m) => r matches Err(Error::Message(e)) && e@ == m,
        },
{
    let cookies = match store {
        StoreContents::Chromium { rows, key } => chromium::read(rows, key.as_slice())?,
        StoreContents::Firefox { rows } => firefox::read(rows),
        StoreContents::Safari { db } => safari::read(db.as_str())?,
    };
    Ok(CookieJar::new(cookies))
}

impl Browser {
    /// Loads all cookies of this browser's default profile from what was read
    /// from its cookie database.
    pub fn cookies(&self, store: &StoreContents) -> (r: Result<CookieJar, Error>)
        requires
            store_kind(*store) == spec_kind(*self),
        ensures
            match spec_store_cookies(*store) {
                Ok(v) => r is Ok && r->Ok_0@ == v,
                Err(m) => r matches Err(Error::Message(e)) && e@ == m,
            },
    {
        read_store(store)
    }
}

impl Profile {
    /// Loads all cookies of this profile from what was read from its cookie database.
    pub fn cookies(&self, store: &StoreContents) -> (r: Result<CookieJar, Error>)
        requires
            store_kind(*store) == spec_kind(self@.browser),
        ensures
            match spec_store_cookies(*store) {
                Ok(v) => r is Ok && r->Ok_0@ == v,
                Err(m) => r matches Err(Error::Message(e)) && e@ == m,
            },
    {
        read_store(store)
    }
}

} // verus!

verus! {

/// A chromium browser reads the cookie database of the profile it selects by
/// default, and reading the same contents through the browser or through that
/// profile gives the same cookies (the profile belongs to the browser, so the
/// contents fit both); with no default profile the browser has no database.
pub proof fn lemma_browser_reads_default_profile(
    b: Browser,
    ps: Seq<ProfileView>,
    firefox_db: Option<String>,
    safari_db: Option<String>,
)
    requires
        spec_kind(b) == Kind::Chromium,
    ensures
        match spec_default_profile(ps, b) {
            Ok(p) => {
                &&& spec_browser_cookie_db(b, ps, firefox_db, safari_db) == Some(p.cookie_db)
                &&& p.browser == b
                &&& spec_kind(p.browser) == spec_kind(b)
            },
            Err(_) => spec_browser_cookie_db(b, ps, firefox_db, safari_db) is None,
        },
{
    lemma_default_profile_of_browser(ps, b);
}

} // verus!
