//! Read and export cookies from local browser profiles.
//!
//! The library holds what unjar decides: which profiles a browser's user-data
//! directory holds and which one is the default, which profile a selector
//! names, how chromium cookie values are decrypted, and how cookies are
//! filtered and written out. What the file system, the databases and the
//! platform's key store show is handed to it as plain values.
mod browser;
pub mod chromium;
mod cookie;
mod crypto;
mod error;
mod export;
pub mod firefox;
mod json;
mod path;
mod platform;
mod profile;
pub mod safari;
mod store;
mod text;

pub use browser::{Browser, Kind};
pub use cookie::{domain_matches, Cookie, CookieJar};
pub use error::{Error, Result};
pub use export::{check_export, export_browser, format_jar, select_cookies, Format};
pub use platform::{
    chromium_root, discovered_browsers, firefox_cookie_file, firefox_root, safari_candidates, BaseDir,
    Location, Platform,
};
pub use profile::{
    ambiguous_error, chromium_default_profile_id, default_profile, find_profile, first_existing,
    looks_like_path, profile_cookie_db, profile_name, profiles, profiles_in_root, profiles_of, same_path,
    select_discovered, CanonicalPaths, DirInfo, PathInfo, PathProbe, Profile, ProfileDirEntry,
    RootListing, SelectorInfo,
};
pub use store::StoreContents;
pub use text::{decimal, str_eq, text_less, to_ascii_lower};
