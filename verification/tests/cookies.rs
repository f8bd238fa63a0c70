use cbc::cipher::block_padding::Pkcs7;
use cbc::cipher::{BlockModeEncrypt, KeyIvInit};
use sha2::Digest;
use unjar::chromium::{
    chrome_epoch, decrypt_value, derive_key, keychain_entry, keychain_key, linux_key, read,
    strip_domain_hash, windows_key, ChromiumRow,
};
use unjar::firefox::FirefoxRow;
use unjar::{format_jar, select_cookies, Browser, Cookie, CookieJar, Error, Format, StoreContents};

fn encrypt(key: &[u8], plaintext: &[u8]) -> Vec<u8> {
    let iv = [0x20u8; 16];
    let ct = cbc::Encryptor::<aes::Aes128>::new_from_slices(key, &iv)
        .unwrap()
        .encrypt_padded_vec::<Pkcs7>(plaintext);
    let mut enc = b"v10".to_vec();
    enc.extend(ct);
    enc
}

fn row(host: &str, name: &str, value: &str, enc: Vec<u8>, expires_utc: i64) -> ChromiumRow {
    ChromiumRow {
        host_key: host.to_string(),
        name: name.to_string(),
        value: value.to_string(),
        encrypted_value: enc,
        path: "/".to_string(),
        expires_utc,
        is_secure: 1,
        is_httponly: 0,
    }
}

fn cookie(domain: &str, name: &str, value: &str) -> Cookie {
    Cookie {
        domain: domain.to_string(),
        name: name.to_string(),
        value: value.to_string(),
        path: "/".to_string(),
        expires: 0,
        secure: false,
        http_only: false,
    }
}

#[test]
fn chrome_epoch_converts_to_unix_seconds() {
    assert_eq!(chrome_epoch(0), 0);
    assert_eq!(chrome_epoch(11_644_473_600_000_000), 0);
    assert_eq!(chrome_epoch(11_644_473_600_000_000 + 1_700_000_000_000_000), 1_700_000_000);
    assert_eq!(chrome_epoch(11_644_473_600_000_000 + 1_999_999), 1);
    // Before 1970 the division rounds toward zero.
    assert_eq!(chrome_epoch(1), -11_644_473_599);
    assert_eq!(chrome_epoch(i64::MAX), 9_211_727_563_254);
    assert_eq!(chrome_epoch(i64::MIN), -9_235_016_510_454);
}

#[test]
fn linux_key_is_pbkdf2_of_peanuts() {
    let mut expected = [0u8; 16];
    pbkdf2::pbkdf2_hmac::<sha1::Sha1>(b"peanuts", b"saltysalt", 1, &mut expected);
    assert_eq!(linux_key(), expected.to_vec());
    assert_eq!(derive_key(b"peanuts", 1), expected.to_vec());
    assert_ne!(derive_key(b"peanuts", 2), expected.to_vec());
}

#[test]
fn decrypts_values_and_strips_domain_hash() {
    let key = linux_key();
    let enc = encrypt(&key, b"secret");
    assert_eq!(decrypt_value(&key, "x.com", &enc).unwrap(), "secret");

    let mut bound = sha2::Sha256::digest(b"x.com").to_vec();
    bound.extend_from_slice(b"tok");
    let enc = encrypt(&key, &bound);
    assert_eq!(decrypt_value(&key, "x.com", &enc).unwrap(), "tok");
    // Bound to another domain: the hash stays.
    assert_ne!(decrypt_value(&key, "y.com", &enc).unwrap(), "tok");

    assert_eq!(strip_domain_hash("x.com", &bound), b"tok");
    assert_eq!(strip_domain_hash("x.com", b"short"), b"short");
}

#[test]
fn decrypt_errors() {
    let key = linux_key();
    assert_eq!(decrypt_value(&key, "x.com", b"v1").unwrap(), "");
    assert_eq!(
        decrypt_value(&key[..8], "x.com", &encrypt(&key, b"a")),
        Err(Error::Message("cipher init failed: Invalid Length".to_string()))
    );
    assert_eq!(
        decrypt_value(&key, "x.com", b"v10abc"),
        Err(Error::Message("decrypt failed: Padding error".to_string()))
    );
    assert_eq!(
        decrypt_value(&key, "x.com", b"v10"),
        Err(Error::Message("decrypt failed: Padding error".to_string()))
    );
    let lossy = encrypt(&key, &[0x66, 0xff, 0x6f]);
    assert_eq!(decrypt_value(&key, "x.com", &lossy).unwrap(), "f\u{fffd}o");
}

#[test]
fn reads_chromium_rows() {
    let key = linux_key();
    let rows = vec![
        row("x.com", "plain", "p", vec![], 0),
        row(".x.com", "enc", "", encrypt(&key, b"e"), 11_644_473_600_000_000 + 5_000_000),
    ];
    let cookies = read(&rows, &key).unwrap();
    assert_eq!(cookies.len(), 2);
    assert_eq!(cookies[0].value, "p");
    assert_eq!(cookies[1].value, "e");
    assert_eq!(cookies[1].expires, 5);
    assert!(cookies[1].secure && !cookies[1].http_only);

    let bad = vec![rows[0].clone(), row("y.com", "bad", "", b"v10xyz".to_vec(), 0)];
    assert_eq!(read(&bad, &key), Err(Error::Message("decrypt failed: Padding error".to_string())));
}

#[test]
fn keychain_entries_and_keys() {
    assert_eq!(keychain_entry(Browser::Edge).unwrap(), ("Microsoft Edge", "Microsoft Edge Safe Storage"));
    assert_eq!(
        keychain_entry(Browser::Firefox),
        Err(Error::Message("firefox: no chromium Keychain entry".to_string()))
    );
    assert_eq!(keychain_key("Chrome Safe Storage", true, b"  pw\n".to_vec()), Ok(derive_key(b"pw", 1003)));
    assert_eq!(
        keychain_key("Chrome Safe Storage", false, b"pw".to_vec()),
        Err(Error::Message("could not read 'Chrome Safe Storage' key from Keychain".to_string()))
    );
    assert!(matches!(keychain_key("s", true, vec![0xff]), Err(Error::Utf8(_))));
    assert_eq!(
        windows_key(),
        Err(Error::Message("chromium decryption on windows is not implemented yet".to_string()))
    );
}

#[test]
fn firefox_and_safari_stores() {
    let rows = vec![FirefoxRow {
        host: ".x.com".to_string(),
        name: "n".to_string(),
        value: "v".to_string(),
        path: "/".to_string(),
        expiry: 42,
        is_secure: 0,
        is_http_only: 1,
    }];
    let jar = Browser::Firefox.cookies(&StoreContents::Firefox { rows }).unwrap();
    assert_eq!(jar.len(), 1);
    assert_eq!(jar.cookies()[0].expires, 42);
    assert!(jar.cookies()[0].http_only);

    let err = Browser::Safari.cookies(&StoreContents::Safari { db: "/s/Cookies.binarycookies".to_string() }).unwrap_err();
    assert_eq!(err.text(), "safari cookies (binarycookies format) parsing is not implemented yet");
}

#[test]
fn jar_filters_by_domain() {
    let jar = CookieJar::new(vec![
        cookie(".x.com", "a", "1"),
        cookie("api.x.com", "b", "2"),
        cookie("notx.com", "c", "3"),
        cookie("t.co", "d", "4"),
    ]);
    let x = jar.domain("x.com");
    let names: Vec<_> = x.cookies().iter().map(|c| c.name.clone()).collect();
    assert_eq!(names, ["a", "b"]);
    assert_eq!(x.to_header(), "a=1; b=2");
    // Filtering again by the same host changes nothing.
    assert_eq!(x.domain("x.com").to_header(), "a=1; b=2");
    // One host through `domains` is the same as `domain`.
    assert_eq!(jar.domains(&["x.com"]).to_header(), x.to_header());
    assert_eq!(jar.domains(&["x.com", "t.co"]).len(), 3);
    assert!(jar.domain("example.org").is_empty());
    assert_eq!(jar.domain("example.org").to_header(), "");
}

#[test]
fn jar_writes_netscape_cookies_txt() {
    let mut c = cookie(".x.com", "sid", "abc");
    c.expires = -5;
    c.secure = true;
    let mut h = cookie("x.com", "h", "v");
    h.http_only = true;
    h.expires = 1700000000;
    let jar = CookieJar::new(vec![c, h]);
    assert_eq!(
        jar.to_netscape(),
        "# Netscape HTTP Cookie File\n.x.com\tTRUE\t/\tTRUE\t-5\tsid\tabc\n#HttpOnly_x.com\tFALSE\t/\tFALSE\t1700000000\th\tv\n"
    );
}

#[test]
fn decimal_text_of_integers() {
    for n in [0i64, 7, 10, 99, -1, -120, i64::MAX, i64::MIN] {
        assert_eq!(unjar::decimal(n), n.to_string());
    }
}

#[test]
fn export_selects_and_formats_cookies() {
    let jar = || {
        CookieJar::new(vec![
            cookie(".x.com", "a", "1"),
            cookie("t.co", "d", "4"),
            cookie("other.org", "e", "5"),
        ])
    };
    let all = select_cookies(jar(), &["x.com".to_string()], true);
    assert_eq!(all.len(), 3);
    let some = select_cookies(jar(), &["x.com".to_string(), "t.co".to_string()], false);
    assert_eq!(some.to_header(), "a=1; d=4");
    let none = select_cookies(jar(), &[], false);
    assert!(none.is_empty());

    let one = select_cookies(jar(), &["t.co".to_string()], false);
    assert_eq!(format_jar(&one, Format::Header), Some("d=4".to_string()));
    assert_eq!(
        format_jar(&one, Format::Netscape),
        Some("# Netscape HTTP Cookie File\nt.co\tFALSE\t/\tFALSE\t0\td\t4\n".to_string())
    );
    assert_eq!(format_jar(&one, Format::Json), None);
}

#[test]
fn keychain_password_is_trimmed_of_unicode_white_space() {
    let printed = "\u{3000}\u{a0} pw x\u{2029}\r\n".as_bytes().to_vec();
    assert_eq!(keychain_key("s", true, printed), Ok(derive_key(b"pw x", 1003)));
    assert_eq!(keychain_key("s", true, b"\xc2\xadpw".to_vec()), Ok(derive_key("\u{ad}pw".as_bytes(), 1003)));
}
