use vstd::prelude::*;
use vstd::utf8::{decode_utf8, valid_utf8};

use cbc::cipher::block_padding::Pkcs7;
use cbc::cipher::{BlockModeDecrypt, KeyIvInit};
use sha2::Digest;

verus! {

/// The plaintext that AES-128 in CBC mode with PKCS#7 padding recovers from
/// `ct` under `key` and `iv`, or `None` when the padding is malformed.
pub uninterp spec fn aes128_cbc_pkcs7_plaintext(key: Seq<u8>, iv: Seq<u8>, ct: Seq<u8>) -> Option<Seq<u8>>;

/// The SHA-256 digest of `data`.
pub uninterp spec fn sha256_digest(data: Seq<u8>) -> Seq<u8>;

/// The `len`-byte key that PBKDF2 with HMAC-SHA1 derives from `password` and `salt`.
pub uninterp spec fn pbkdf2_hmac_sha1_key(password: Seq<u8>, salt: Seq<u8>, rounds: u32, len: nat) -> Seq<u8>;

/// The text that lossy UTF-8 decoding makes of `bytes`.
pub uninterp spec fn utf8_lossy_text(bytes: Seq<u8>) -> Seq<char>;

/// The message of the error that strict UTF-8 decoding reports for `bytes`.
pub uninterp spec fn utf8_error_text(bytes: Seq<u8>) -> Seq<char>;

/// Whether `c` has the Unicode `White_Space` property.
pub open spec fn is_white_space(c: char) -> bool {
    let n = c as u32;
    ||| 0x9 <= n <= 0xD
    ||| n == 0x20 || n == 0x85 || n == 0xA0 || n == 0x1680
    ||| 0x2000 <= n <= 0x200A
    ||| n == 0x2028 || n == 0x2029 || n == 0x202F || n == 0x205F || n == 0x3000
}

/// `s` without its leading white space.
pub open spec fn trim_front(s: Seq<char>) -> Seq<char>
    decreases s.len(),
{
    if s.len() > 0 && is_white_space(s[0]) {
        trim_front(s.drop_first())
    } else {
        s
    }
}

/// `s` without its trailing white space.
pub open spec fn trim_back(s: Seq<char>) -> Seq<char>
    decreases s.len(),
{
    if s.len() > 0 && is_white_space(s.last()) {
        trim_back(s.drop_last())
    } else {
        s
    }
}

/// A text with its leading and trailing Unicode white space removed.
pub open spec fn trimmed_text(s: Seq<char>) -> Seq<char> {
    trim_back(trim_front(s))
}

/// Why AES-128-CBC decryption gave no plaintext.
#[derive(Debug, Clone, Copy, PartialEq, Eq, Structural)]
pub enum CipherError {
    /// The key or the IV does not have the cipher's length.
    InvalidLength,
    /// The ciphertext is not a whole number of blocks, or its padding is malformed.
    Padding,
}

/// Decrypts `ct` with AES-128-CBC and removes PKCS#7 padding
/// (`cbc::Decryptor::<aes::Aes128>::new_from_slices`, then
/// `BlockModeDecrypt::decrypt_padded_vec::<Pkcs7>`).
///
/// Claimed of the crate: building the decryptor fails exactly when the key or
/// the IV is not 16 bytes long; otherwise the result is the plaintext that the
/// cipher determines, and decryption fails for an empty ciphertext or one whose
/// length is not a multiple of 16; a plaintext is shorter than the ciphertext by
/// 1 to 16 bytes (the padding).
#[verifier::external_body]
pub(crate) fn aes128_cbc_decrypt(key: &[u8], iv: &[u8], ct: &[u8]) -> (r: Result<Vec<u8>, CipherError>)
    ensures
        r matches Err(CipherError::InvalidLength) <==> (key@.len() != 16 || iv@.len() != 16),
        key@.len() == 16 && iv@.len() == 16 && aes128_cbc_pkcs7_plaintext(key@, iv@, ct@) is None
            ==> r matches Err(CipherError::Padding),
        key@.len() == 16 && iv@.len() == 16 && aes128_cbc_pkcs7_plaintext(key@, iv@, ct@) is Some
            ==> r is Ok && r->Ok_0@ == aes128_cbc_pkcs7_plaintext(key@, iv@, ct@)->0,
        key@.len() == 16 && iv@.len() == 16 && (ct@.len() == 0 || ct@.len() % 16 != 0)
            ==> r matches Err(CipherError::Padding),
        r matches Ok(pt) ==> pt@.len() < ct@.len() <= pt@.len() + 16,
{
    let dec = match cbc::Decryptor::<aes::Aes128>::new_from_slices(key, iv) {
        Ok(dec) => dec,
        Err(_) => return Err(CipherError::InvalidLength),
    };
    match dec.decrypt_padded_vec::<Pkcs7>(ct) {
        Ok(pt) => Ok(pt),
        Err(_) => Err(CipherError::Padding),
    }
}

/// SHA-256 of `data` (`sha2::Sha256::digest`); the digest is 32 bytes long.
#[verifier::external_body]
pub(crate) fn sha256(data: &[u8]) -> (r: Vec<u8>)
    ensures
        r@ == sha256_digest(data@),
        r@.len() == 32,
{
    sha2::Sha256::digest(data).to_vec()
}

/// PBKDF2 with HMAC-SHA1 (`pbkdf2::pbkdf2_hmac::<sha1::Sha1>`), filling a key of `len` bytes.
#[verifier::external_body]
pub(crate) fn pbkdf2_sha1(password: &[u8], salt: &[u8], rounds: u32, len: usize) -> (r: Vec<u8>)
    ensures
        r@ == pbkdf2_hmac_sha1_key(password@, salt@, rounds, len as nat),
        r@.len() == len,
{
    let mut key = vec![0u8; len];
    pbkdf2::pbkdf2_hmac::<sha1::Sha1>(password, salt, rounds, &mut key);
    key
}

/// Lossy UTF-8 decoding (`String::from_utf8_lossy`): valid UTF-8 is decoded as it is.
#[verifier::external_body]
pub(crate) fn utf8_lossy(bytes: &[u8]) -> (r: String)
    ensures
        r@ == utf8_lossy_text(bytes@),
        valid_utf8(bytes@) ==> r@ == decode_utf8(bytes@),
{
    String::from_utf8_lossy(bytes).into_owned()
}

/// Strict UTF-8 decoding (`String::from_utf8`): it fails exactly when `bytes`
/// is not valid UTF-8, and then gives the text of the `FromUtf8Error`.
#[verifier::external_body]
pub(crate) fn utf8_strict(bytes: Vec<u8>) -> (r: Result<String, String>)
    ensures
        r is Ok <==> valid_utf8(bytes@),
        r matches Ok(s) ==> s@ == decode_utf8(bytes@),
        r matches Err(t) ==> t@ == utf8_error_text(bytes@),
{
    match String::from_utf8(bytes) {
        Ok(s) => Ok(s),
        Err(e) => Err(e.to_string()),
    }
}

/// Removes leading and trailing white space (`str::trim`), white space being
/// the characters with the Unicode `White_Space` property.
#[verifier::external_body]
pub(crate) fn trim(s: &str) -> (r: String)
    ensures
        r@ == trimmed_text(s@),
{
    s.trim().to_string()
}

} // verus!
