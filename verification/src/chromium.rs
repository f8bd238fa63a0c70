use vstd::prelude::*;
use vstd::utf8::{decode_utf8, encode_utf8, valid_utf8};

use crate::browser::{spec_kind, spec_label, Browser, Kind};
use crate::cookie::{cookie_views, Cookie, CookieView};
use crate::crypto::{
    aes128_cbc_decrypt, aes128_cbc_pkcs7_plaintext, pbkdf2_hmac_sha1_key, pbkdf2_sha1, sha256,
    sha256_digest, trim, trimmed_text, utf8_error_text, utf8_lossy, utf8_lossy_text, utf8_strict,
    CipherError,
};
use crate::error::Error;

verus! {

/// One row of the `cookies` table of a chromium-family `Cookies` database.
#[derive(Debug, Clone)]
pub struct ChromiumRow {
    pub host_key: String,
    pub name: String,
    /// The plaintext value, usually empty.
    pub value: String,
    pub encrypted_value: Vec<u8>,
    pub path: String,
    /// Microseconds since 1601-01-01, or 0.
    pub expires_utc: i64,
    pub is_secure: i64,
    pub is_httponly: i64,
}

/// Microseconds between 1601-01-01 and 1970-01-01.
pub const CHROME_EPOCH_OFFSET_US: i64 = 11_644_473_600_000_000i64;

/// Integer division rounding toward zero, as Rust's `/` does.
pub open spec fn div_toward_zero(x: int, d: int) -> int {
    if x >= 0 {
        x / d
    } else {
        -((-x) / d)
    }
}

/// A chromium timestamp (microseconds since 1601-01-01) in unix seconds; 0 stays 0.
pub open spec fn spec_chrome_epoch(us: int) -> int {
    if us == 0 {
        0
    } else {
        div_toward_zero(us - CHROME_EPOCH_OFFSET_US, 1_000_000)
    }
}

/// Converts a chromium timestamp (microseconds since 1601-01-01) to unix seconds.
pub fn chrome_epoch(us: i64) -> (s: i64)
    ensures
        s as int == spec_chrome_epoch(us as int),
{
    if us == 0 {
        return 0;
    }
    let d: i128 = us as i128 - CHROME_EPOCH_OFFSET_US as i128;
    let q: i128 = if d >= 0 {
        d / 1_000_000i128
    } else {
        let m: i128 = -d;
        -(m / 1_000_000i128)
    };
    assert(-10_000_000_000_000 < q < 10_000_000_000_000);
    q as i64
}

/// The IV chromium uses: sixteen spaces.
pub open spec fn chromium_iv() -> Seq<u8> {
    Seq::new(16, |i: int| 0x20u8)
}

/// The plaintext without the SHA-256 of the cookie's domain that newer
/// chromium versions put in front of it; older plaintexts are kept as they are.
pub open spec fn spec_strip_domain_hash(domain: Seq<char>, pt: Seq<u8>) -> Seq<u8> {
    if pt.len() >= 32 && pt.take(32) == sha256_digest(encode_utf8(domain)) {
        pt.skip(32)
    } else {
        pt
    }
}

/// The text that lossy UTF-8 decoding makes of `bytes`: valid UTF-8 is
/// decoded exactly.
pub open spec fn lossy_decode(bytes: Seq<u8>) -> Seq<char> {
    if valid_utf8(bytes) {
        decode_utf8(bytes)
    } else {
        utf8_lossy_text(bytes)
    }
}

/// The value of an `encrypted_value` blob ("v10"/"v11" prefix, then
/// AES-128-CBC), or the error message that decrypting it gives.
pub open spec fn spec_decrypt_value(key: Seq<u8>, domain: Seq<char>, enc: Seq<u8>) -> Result<Seq<char>, Seq<char>> {
    if enc.len() < 3 {
        Ok(Seq::empty())
    } else if key.len() != 16 {
        Err("cipher init failed: Invalid Length"@)
    } else {
        match aes128_cbc_pkcs7_plaintext(key, chromium_iv(), enc.skip(3)) {
            None => Err("decrypt failed: Padding error"@),
            Some(pt) => Ok(lossy_decode(spec_strip_domain_hash(domain, pt))),
        }
    }
}

/// Whether two byte strings are equal.
fn bytes_eq(a: &[u8], b: &[u8]) -> (r: bool)
    ensures
        r == (a@ == b@),
{
    if a.len() != b.len() {
        return false;
    }
    let mut i: usize = 0;
    while i < a.len()
        invariant
            a@.len() == b@.len(),
            i <= a@.len(),
            forall|j: int| 0 <= j < i ==> a@[j] == b@[j],
        decreases a@.len() - i,
    {
        if a[i] != b[i] {
            return false;
        }
        i = i + 1;
    }
    assert(a@ =~= b@);
    true
}

/// Removes the SHA-256 of `domain` from the front of `pt` when it is there.
pub fn strip_domain_hash<'a>(domain: &str, pt: &'a [u8]) -> (r: &'a [u8])
    ensures
        r@ == spec_strip_domain_hash(domain@, pt@),
{
    let digest = sha256(domain.as_bytes());
    if pt.len() >= 32 && bytes_eq(&pt[0..32], digest.as_slice()) {
        &pt[32..pt.len()]
    } else {
        pt
    }
}

/// Decrypts an `encrypted_value` blob with AES-128-CBC (v10 / v11).
pub fn decrypt_value(key: &[u8], domain: &str, enc: &[u8]) -> (r: Result<String, Error>)
    ensures
        match spec_decrypt_value(key@, domain@, enc@) {
            Ok(v) => r is Ok && r->Ok_0@ == v,
            Err(m) => r matches Err(Error::Message(e)) && e@ == m,
        },
{
    if enc.len() < 3 {
        return Ok(String::new());
    }
    let ct = &enc[3..enc.len()];
    let iv = [0x20u8; 16];
    assert(iv@ =~= chromium_iv());
    match aes128_cbc_decrypt(key, iv.as_slice(), ct) {
        Err(CipherError::InvalidLength) => Err(Error::message("cipher init failed: Invalid Length")),
        Err(CipherError::Padding) => Err(Error::message("decrypt failed: Padding error")),
        Ok(pt) => Ok(utf8_lossy(strip_domain_hash(domain, pt.as_slice()))),
    }
}

/// The cookie a row stands for, or the message of the error that decoding its value gives.
pub open spec fn spec_chromium_cookie(row: ChromiumRow, key: Seq<u8>) -> Result<CookieView, Seq<char>> {
    let value = if row.value@.len() > 0 {
        Ok(row.value@)
    } else {
        spec_decrypt_value(key, row.host_key@, row.encrypted_value@)
    };
    match value {
        Err(e) => Err(e),
        Ok(v) => Ok(
            CookieView {
                domain: row.host_key@,
                name: row.name@,
                value: v,
                path: row.path@,
                expires: spec_chrome_epoch(row.expires_utc as int),
                secure: row.is_secure != 0,
                http_only: row.is_httponly != 0,
            },
        ),
    }
}

/// The cookies that rows stand for, in row order, or the message of the first
/// row that cannot be decoded.
pub open spec fn spec_chromium_cookies(rows: Seq<ChromiumRow>, key: Seq<u8>) -> Result<Seq<CookieView>, Seq<char>>
    decreases rows.len(),
{
    if rows.len() == 0 {
        Ok(Seq::empty())
    } else {
        match spec_chromium_cookies(rows.drop_last(), key) {
            Err(e) => Err(e),
            Ok(prev) => match spec_chromium_cookie(rows.last(), key) {
                Err(e) => Err(e),
                Ok(c) => Ok(prev.push(c)),
            },
        }
    }
}

/// Once a prefix of the rows fails to decode, the whole sequence fails with the same error.
proof fn lemma_first_error_stays(rows: Seq<ChromiumRow>, key: Seq<u8>, k: int)
    requires
        0 <= k <= rows.len(),
        spec_chromium_cookies(rows.take(k), key) is Err,
    ensures
        spec_chromium_cookies(rows, key) == spec_chromium_cookies(rows.take(k), key),
    decreases rows.len(),
{
    if rows.len() == k {
        assert(rows.take(k) == rows);
    } else {
        assert(rows.drop_last().take(k) == rows.take(k));
        lemma_first_error_stays(rows.drop_last(), key, k);
    }
}

/// Decodes one row: the plaintext value when it is not empty, else the decrypted one.
pub fn chromium_cookie(row: &ChromiumRow, key: &[u8]) -> (r: Result<Cookie, Error>)
    ensures
        match spec_chromium_cookie(*row, key@) {
            Ok(c) => r is Ok && r->Ok_0@ == c,
            Err(m) => r matches Err(Error::Message(e)) && e@ == m,
        },
{
    let value = if row.value.unicode_len() > 0 {
        row.value.clone()
    } else {
        decrypt_value(key, row.host_key.as_str(), row.encrypted_value.as_slice())?
    };
    Ok(
        Cookie {
            domain: row.host_key.clone(),
            name: row.name.clone(),
            value,
            path: row.path.clone(),
            expires: chrome_epoch(row.expires_utc),
            secure: row.is_secure != 0,
            http_only: row.is_httponly != 0,
        },
    )
}

/// Reads cookies from the rows of a chromium-family `Cookies` database,
/// decrypting values with `key`.
pub fn read(rows: &Vec<ChromiumRow>, key: &[u8]) -> (r: Result<Vec<Cookie>, Error>)
    ensures
        match spec_chromium_cookies(rows@, key@) {
            Ok(v) => r is Ok && cookie_views(r->Ok_0@) == v,
            Err(m) => r matches Err(Error::Message(e)) && e@ == m,
        },
{
    let mut out: Vec<Cookie> = Vec::new();
    let mut i: usize = 0;
    assert(rows@.take(0) =~= Seq::<ChromiumRow>::empty());
    assert(cookie_views(out@) =~= Seq::<CookieView>::empty());
    while i < rows.len()
        invariant
            i <= rows@.len(),
            spec_chromium_cookies(rows@.take(i as int), key@) == Ok::<Seq<CookieView>, Seq<char>>(cookie_views(out@)),
        decreases rows@.len() - i,
    {
        assert(rows@.take(i + 1).drop_last() == rows@.take(i as int));
        let c = chromium_cookie(&rows[i], key);
        match c {
            Ok(c) => {
                let ghost prev = out@;
                out.push(c);
                assert(cookie_views(out@) =~= cookie_views(prev).push(c@));
            },
            Err(e) => {
                proof {
                    lemma_first_error_stays(rows@, key@, i + 1);
                }
                return Err(e);
            },
        }
        i = i + 1;
    }
    assert(rows@.take(rows@.len() as int) == rows@);
    Ok(out)
}

} // verus!

verus! {

/// The key chromium derives from a password: PBKDF2-HMAC-SHA1 with salt
/// `saltysalt`, 16 bytes long.
pub open spec fn spec_derive_key(password: Seq<u8>, rounds: u32) -> Seq<u8> {
    pbkdf2_hmac_sha1_key(password, encode_utf8("saltysalt"@), rounds, 16)
}

/// Stretches a Safe Storage password into the AES-128 key.
pub fn derive_key(password: &[u8], rounds: u32) -> (k: Vec<u8>)
    ensures
        k@ == spec_derive_key(password@, rounds),
        k@.len() == 16,
{
    pbkdf2_sha1(password, "saltysalt".as_bytes(), rounds, 16)
}

/// The key on Linux (v10): every chromium browser uses the fallback password
/// `peanuts` with one round.
pub fn linux_key() -> (k: Vec<u8>)
    ensures
        k@ == spec_derive_key(encode_utf8("peanuts"@), 1),
{
    derive_key("peanuts".as_bytes(), 1)
}

/// The macOS Keychain entry (account, service) that holds a browser's Safe Storage key.
pub open spec fn spec_keychain_entry(b: Browser) -> Option<(Seq<char>, Seq<char>)> {
    match b {
        Browser::Chrome => Some(("Chrome"@, "Chrome Safe Storage"@)),
        Browser::Chromium => Some(("Chromium"@, "Chromium Safe Storage"@)),
        Browser::Edge => Some(("Microsoft Edge"@, "Microsoft Edge Safe Storage"@)),
        Browser::Brave => Some(("Brave"@, "Brave Safe Storage"@)),
        _ => None,
    }
}

/// The macOS Keychain entry (account, service) that holds a browser's Safe Storage key.
pub fn keychain_entry(browser: Browser) -> (r: Result<(&'static str, &'static str), Error>)
    ensures
        match spec_keychain_entry(browser) {
            Some((account, service)) => r matches Ok((a, s)) && a@ == account && s@ == service,
            None => r matches Err(Error::Message(m)) && m@ == spec_label(browser) + ": no chromium Keychain entry"@,
        },
{
    match browser {
        Browser::Chrome => Ok(("Chrome", "Chrome Safe Storage")),
        Browser::Chromium => Ok(("Chromium", "Chromium Safe Storage")),
        Browser::Edge => Ok(("Microsoft Edge", "Microsoft Edge Safe Storage")),
        Browser::Brave => Ok(("Brave", "Brave Safe Storage")),
        other => {
            let mut m = String::from_str(other.label());
            m.append(": no chromium Keychain entry");
            Err(Error::Message(m))
        },
    }
}

/// The key on macOS, from what `security find-generic-password -w` printed for
/// `service`: the printed password, trimmed, stretched with 1003 rounds.
pub fn keychain_key(service: &str, succeeded: bool, stdout: Vec<u8>) -> (r: Result<Vec<u8>, Error>)
    ensures
        !succeeded ==> (r matches Err(Error::Message(m))
            && m@ == "could not read '"@ + service@ + "' key from Keychain"@),
        succeeded && !valid_utf8(stdout@) ==> (r matches Err(Error::Utf8(t)) && t@ == utf8_error_text(stdout@)),
        succeeded && valid_utf8(stdout@) ==> r is Ok && r->Ok_0@ == spec_derive_key(
            encode_utf8(trimmed_text(decode_utf8(stdout@))),
            1003,
        ),
{
    if !succeeded {
        let mut m = String::from_str("could not read '");
        m.append(service);
        m.append("' key from Keychain");
        return Err(Error::Message(m));
    }
    match utf8_strict(stdout) {
        Err(t) => Err(Error::Utf8(t)),
        Ok(text) => {
            let password = trim(text.as_str());
            Ok(derive_key(password.as_str().as_bytes(), 1003))
        },
    }
}

/// The key on Windows, where chromium decryption is not implemented yet.
pub fn windows_key() -> (r: Result<Vec<u8>, Error>)
    ensures
        r matches Err(Error::Message(m)) && m@ == "chromium decryption on windows is not implemented yet"@,
{
    Err(Error::message("chromium decryption on windows is not implemented yet"))
}

} // verus!

verus! {

/// Reading a chromium database that succeeds gives one cookie per row.
pub proof fn lemma_one_cookie_per_row(rows: Seq<ChromiumRow>, key: Seq<u8>)
    ensures
        spec_chromium_cookies(rows, key) matches Ok(v) ==> v.len() == rows.len(),
    decreases rows.len(),
{
    if rows.len() > 0 {
        lemma_one_cookie_per_row(rows.drop_last(), key);
    }
}

/// A plaintext bound to its domain (the 32-byte SHA-256 of the domain, then
/// the value) loses exactly that hash.
pub proof fn lemma_bound_plaintext(domain: Seq<char>, rest: Seq<u8>)
    requires
        sha256_digest(encode_utf8(domain)).len() == 32,
    ensures
        spec_strip_domain_hash(domain, sha256_digest(encode_utf8(domain)) + rest) == rest,
{
    let h = sha256_digest(encode_utf8(domain));
    assert((h + rest).take(32) =~= h);
    assert((h + rest).skip(32) =~= rest);
}

/// A chromium timestamp that is a whole number of seconds after the unix
/// epoch (or before it) converts to that number of seconds; 0 stays 0.
pub proof fn lemma_whole_seconds(s: int)
    requires
        11_644_473_600_000_000 + s * 1_000_000 != 0,
    ensures
        spec_chrome_epoch(11_644_473_600_000_000 + s * 1_000_000) == s,
        spec_chrome_epoch(0) == 0,
{
    if s >= 0 {
        assert((s * 1_000_000) / 1_000_000 == s) by (nonlinear_arith);
    } else {
        assert(((-s) * 1_000_000) / 1_000_000 == -s) by (nonlinear_arith)
            requires s < 0;
        assert(-(s * 1_000_000) == (-s) * 1_000_000) by (nonlinear_arith);
    }
}


/// A row with no plaintext value is read by decrypting its `encrypted_value`
/// and removing the SHA-256 of the row's host (`host_key`) from the front of
/// the plaintext, whatever the cookie's name; the other fields come from
/// their own columns.
pub proof fn lemma_row_value_loses_host_hash(row: ChromiumRow, key: Seq<u8>, v: Seq<u8>)
    requires
        row.value@.len() == 0,
        key.len() == 16,
        row.encrypted_value@.len() >= 3,
        sha256_digest(encode_utf8(row.host_key@)).len() == 32,
        aes128_cbc_pkcs7_plaintext(key, chromium_iv(), row.encrypted_value@.skip(3))
            == Some(sha256_digest(encode_utf8(row.host_key@)) + v),
        valid_utf8(v),
    ensures
        spec_chromium_cookie(row, key) matches Ok(c) && c.value == decode_utf8(v) && c.domain == row.host_key@
            && c.name == row.name@ && c.path == row.path@ && c.secure == (row.is_secure != 0)
            && c.http_only == (row.is_httponly != 0),
{
    lemma_bound_plaintext(row.host_key@, v);
}

/// A row with a plaintext value is read with that value, untouched, whatever
/// its encrypted value holds; its fields come from their own columns.
pub proof fn lemma_plain_row_value_kept(row: ChromiumRow, key: Seq<u8>)
    requires
        row.value@.len() > 0,
    ensures
        spec_chromium_cookie(row, key) matches Ok(c) && c.value == row.value@ && c.domain == row.host_key@
            && c.name == row.name@ && c.path == row.path@ && c.secure == (row.is_secure != 0)
            && c.http_only == (row.is_httponly != 0),
{
}


/// A chromium timestamp (microseconds since 1601-01-01) converts to the
/// whole seconds since 1970-01-01 it lies in, counted toward 1970: the
/// seconds times a million are within a million microseconds of the time
/// since 1970, on the same side; 0 stands for no expiry and stays 0.
pub proof fn lemma_chrome_epoch_seconds(us: int)
    ensures
        us != 0 ==> ({
            let x = us - 11_644_473_600_000_000;
            let s = spec_chrome_epoch(us);
            &&& x >= 0 ==> 0 <= s * 1_000_000 <= x < s * 1_000_000 + 1_000_000
            &&& x < 0 ==> x + 1_000_000 > s * 1_000_000 >= x && s <= 0
        }),
        spec_chrome_epoch(0) == 0,
{
    if us != 0 {
        let x = us - 11_644_473_600_000_000;
        if x >= 0 {
            assert(0 <= (x / 1_000_000) * 1_000_000 <= x < (x / 1_000_000) * 1_000_000 + 1_000_000) by (nonlinear_arith)
                requires x >= 0;
        } else {
            let m = -x;
            assert(0 <= (m / 1_000_000) * 1_000_000 <= m < (m / 1_000_000) * 1_000_000 + 1_000_000) by (nonlinear_arith)
                requires m > 0;
            assert((-(m / 1_000_000)) * 1_000_000 == -((m / 1_000_000) * 1_000_000)) by (nonlinear_arith);
        }
    }
}

/// A chromium browser's macOS Keychain entry is its account name with the
/// service `<account> Safe Storage`; only chromium browsers have one.
pub proof fn lemma_keychain_entries(b: Browser)
    ensures
        spec_keychain_entry(b) is Some <==> spec_kind(b) == Kind::Chromium,
        spec_keychain_entry(b) matches Some((account, service)) ==> service == account + " Safe Storage"@,
        b == Browser::Chrome ==> (spec_keychain_entry(b) matches Some((a, _)) && a == "Chrome"@),
        b == Browser::Chromium ==> (spec_keychain_entry(b) matches Some((a, _)) && a == "Chromium"@),
        b == Browser::Edge ==> (spec_keychain_entry(b) matches Some((a, _)) && a == "Microsoft Edge"@),
        b == Browser::Brave ==> (spec_keychain_entry(b) matches Some((a, _)) && a == "Brave"@),
{
    reveal_strlit(" Safe Storage");
    reveal_strlit("Chrome");
    reveal_strlit("Chrome Safe Storage");
    reveal_strlit("Chromium");
    reveal_strlit("Chromium Safe Storage");
    reveal_strlit("Microsoft Edge");
    reveal_strlit("Microsoft Edge Safe Storage");
    reveal_strlit("Brave");
    reveal_strlit("Brave Safe Storage");
    assert("Chrome Safe Storage"@ =~= "Chrome"@ + " Safe Storage"@);
    assert("Chromium Safe Storage"@ =~= "Chromium"@ + " Safe Storage"@);
    assert("Microsoft Edge Safe Storage"@ =~= "Microsoft Edge"@ + " Safe Storage"@);
    assert("Brave Safe Storage"@ =~= "Brave"@ + " Safe Storage"@);
}


/// A decrypted plaintext that does not start with the SHA-256 of the row's
/// host (an older chromium value) is read whole.
pub proof fn lemma_row_value_without_host_hash(row: ChromiumRow, key: Seq<u8>, v: Seq<u8>)
    requires
        row.value@.len() == 0,
        key.len() == 16,
        row.encrypted_value@.len() >= 3,
        aes128_cbc_pkcs7_plaintext(key, chromium_iv(), row.encrypted_value@.skip(3)) == Some(v),
        v.len() < 32 || v.take(32) != sha256_digest(encode_utf8(row.host_key@)),
        valid_utf8(v),
    ensures
        spec_chromium_cookie(row, key) matches Ok(c) && c.value == decode_utf8(v),
{
}

} // verus!
