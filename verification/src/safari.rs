use vstd::prelude::*;

use crate::cookie::Cookie;
use crate::error::Error;

verus! {

/// Reads cookies from Safari's `Cookies.binarycookies` store at `db`: the
/// binarycookies format is not parsed yet, so this always fails.
pub fn read(_db: &str) -> (r: Result<Vec<Cookie>, Error>)
    ensures
        r matches Err(Error::Message(m)) && m@ == "safari cookies (binarycookies format) parsing is not implemented yet"@,
{
    Err(Error::message("safari cookies (binarycookies format) parsing is not implemented yet"))
}

} // verus!
