use vstd::prelude::*;

use crate::cookie::{cookie_views, Cookie, CookieView};

verus! {

/// One row of the `moz_cookies` table of a Firefox `cookies.sqlite` database.
#[derive(Debug, Clone)]
pub struct FirefoxRow {
    pub host: String,
    pub name: String,
    pub value: String,
    pub path: String,
    /// Unix seconds.
    pub expiry: i64,
    pub is_secure: i64,
    pub is_http_only: i64,
}

/// The cookie a Firefox row stands for: Firefox stores values in plain text.
pub open spec fn spec_firefox_cookie(row: FirefoxRow) -> CookieView {
    CookieView {
        domain: row.host@,
        name: row.name@,
        value: row.value@,
        path: row.path@,
        expires: row.expiry as int,
        secure: row.is_secure != 0,
        http_only: row.is_http_only != 0,
    }
}

/// Reads cookies from the rows of a Firefox `cookies.sqlite` database, in row order.
pub fn read(rows: &Vec<FirefoxRow>) -> (r: Vec<Cookie>)
    ensures
        cookie_views(r@) == rows@.map_values(|row: FirefoxRow| spec_firefox_cookie(row)),
{
    let mut out: Vec<Cookie> = Vec::new();
    let mut i: usize = 0;
    while i < rows.len()
        invariant
            i <= rows@.len(),
            cookie_views(out@) == rows@.take(i as int).map_values(|row: FirefoxRow| spec_firefox_cookie(row)),
        decreases rows@.len() - i,
    {
        let row = &rows[i];
        let c = Cookie {
            domain: row.host.clone(),
            name: row.name.clone(),
            value: row.value.clone(),
            path: row.path.clone(),
            expires: row.expiry,
            secure: row.is_secure != 0,
            http_only: row.is_http_only != 0,
        };
        let ghost prev = out@;
        out.push(c);
        assert(cookie_views(out@) =~= cookie_views(prev).push(c@));
        assert(rows@.take(i + 1).map_values(|row: FirefoxRow| spec_firefox_cookie(row))
            =~= rows@.take(i as int).map_values(|row: FirefoxRow| spec_firefox_cookie(row)).push(spec_firefox_cookie(rows@[i as int])));
        i = i + 1;
    }
    assert(rows@.take(rows@.len() as int) == rows@);
    out
}


/// Reading Firefox rows gives one cookie per row, in row order, each taken
/// from its own columns: the host, name, value and path as stored, the expiry
/// in seconds, `secure` from `isSecure` alone and `http_only` from
/// `isHttpOnly` alone.
pub proof fn lemma_firefox_columns(rows: Seq<FirefoxRow>)
    ensures
        rows.map_values(|row: FirefoxRow| spec_firefox_cookie(row)).len() == rows.len(),
        forall|i: int| #![trigger rows[i]] 0 <= i < rows.len() ==> {
            let c = rows.map_values(|row: FirefoxRow| spec_firefox_cookie(row))[i];
            &&& c.domain == rows[i].host@
            &&& c.name == rows[i].name@
            &&& c.value == rows[i].value@
            &&& c.path == rows[i].path@
            &&& c.expires == rows[i].expiry
            &&& c.secure == (rows[i].is_secure != 0)
            &&& c.http_only == (rows[i].is_http_only != 0)
        },
{
}

} // verus!
