//! The cryptography of the encrypted credential file: keys derived from a
//! password with Argon2id, secrets sealed with AES-256-GCM under a random
//! nonce, and bytes written as Base64. Reading and writing the file is the
//! caller's part.
use vstd::prelude::*;
use vstd::utf8::encode_utf8;

use aes_gcm::aead::{Aead, KeyInit};
use argon2::password_hash::PasswordHasher;
use base64::Engine;
use rand::Rng;

use crate::error::Error;
use crate::text::{decimal, decimal_text, join2};

verus! {

/// A Base64 digit (standard alphabet) for a value below 64.
pub open spec fn b64_digit(v: int) -> char {
    if v < 26 {
        (65 + v) as char
    } else if v < 52 {
        (97 + v - 26) as char
    } else if v < 62 {
        (48 + v - 52) as char
    } else if v == 62 {
        '+'
    } else {
        '/'
    }
}

/// Standard Base64 with padding: each group of three bytes gives four
/// digits; a last group of one or two bytes is padded with `=`.
pub open spec fn base64_text(b: Seq<u8>) -> Seq<char>
    decreases b.len(),
{
    if b.len() == 0 {
        Seq::empty()
    } else if b.len() == 1 {
        seq![b64_digit((b[0] / 4) as int), b64_digit(((b[0] % 4) * 16) as int), '=', '=']
    } else if b.len() == 2 {
        seq![b64_digit((b[0] / 4) as int), b64_digit(((b[0] % 4) * 16 + b[1] / 16) as int), b64_digit(((b[1] % 16) * 4) as int), '=']
    } else {
        seq![
            b64_digit((b[0] / 4) as int),
            b64_digit(((b[0] % 4) * 16 + b[1] / 16) as int),
            b64_digit(((b[1] % 16) * 4 + b[2] / 64) as int),
            b64_digit((b[2] % 64) as int),
        ] + base64_text(b.subrange(3, b.len() as int))
    }
}

/// `base64::engine::general_purpose::STANDARD.encode`: standard Base64 with
/// padding, as `base64_text` spells it out.
#[verifier::external_body]
fn standard_encode(bytes: &[u8]) -> (r: String)
    ensures
        r@ == base64_text(bytes@),
{
    base64::engine::general_purpose::STANDARD.encode(bytes)
}

/// Bytes in standard Base64 with padding.
pub fn base64_encode(bytes: &[u8]) -> (r: String)
    ensures
        r@ == base64_text(bytes@),
{
    standard_encode(bytes)
}

/// `base64::engine::general_purpose::STANDARD.decode`: the bytes whose
/// standard Base64 is the text. Decoding gives back what encoding was given;
/// the engine requires canonical padding and no trailing bits, so a text it
/// accepts is the encoding of what it returns. Errors are given as their
/// message.
#[verifier::external_body]
fn base64_decode(text: &str) -> (r: Result<Vec<u8>, String>)
    ensures
        (exists|b: Seq<u8>| base64_text(b) == text@) ==> r is Ok,
        r matches Ok(v) ==> base64_text(v@) == text@,
        r matches Ok(v) ==> forall|b: Seq<u8>| base64_text(b) == text@ ==> v@ == b,
{
    base64::engine::general_purpose::STANDARD.decode(text).map_err(|e| e.to_string())
}

/// The Argon2id output (default parameters) for a password and salt:
/// `None` where hashing fails, `Some(None)` where it gives no output bytes.
pub uninterp spec fn argon2_output(password: Seq<u8>, salt: Seq<u8>) -> Option<Option<Seq<u8>>>;

/// Why Argon2id hashing failed: the salt could not be encoded, or hashing
/// itself failed (with the crate's message).
#[derive(Debug, Clone, PartialEq, Eq)]
pub enum HashFailure {
    /// The salt was refused.
    Salt(String),
    /// Hashing failed.
    Hash(String),
}

/// `argon2::Argon2::default().hash_password` on the salt in its B64 form
/// (`SaltString::encode_b64`): its output bytes, if any. The outcome is a
/// function of the password and salt, named by `argon2_output`.
#[verifier::external_body]
fn argon2_hash(password: &[u8], salt: &[u8]) -> (r: Result<Option<Vec<u8>>, HashFailure>)
    ensures
        match r {
            Ok(Some(v)) => argon2_output(password@, salt@) == Some(Some(v@)),
            Ok(None) => argon2_output(password@, salt@) == Some(None::<Seq<u8>>),
            Err(_) => argon2_output(password@, salt@) is None,
        },
{
    let salt_string = match argon2::password_hash::SaltString::encode_b64(salt) {
        Ok(s) => s,
        Err(e) => return Err(HashFailure::Salt(e.to_string())),
    };
    match argon2::Argon2::default().hash_password(password, &salt_string) {
        Ok(h) => Ok(h.hash.map(|o| o.as_bytes().to_vec())),
        Err(e) => Err(HashFailure::Hash(e.to_string())),
    }
}

/// The key derived from a password and salt: the first 32 bytes of the
/// Argon2id output, when there are that many.
pub open spec fn derived_key(password: Seq<char>, salt: Seq<u8>) -> Option<Seq<u8>> {
    match argon2_output(encode_utf8(password), salt) {
        Some(Some(out)) => if out.len() >= 32 {
            Some(out.subrange(0, 32))
        } else {
            None
        },
        _ => None,
    }
}

/// Derive a 32-byte key from a password and salt with Argon2id.
pub fn derive_key(password: &str, salt: &[u8]) -> (r: Result<[u8; 32], Error>)
    ensures
        match derived_key(password@, salt@) {
            Some(k) => (r matches Ok(key) && key@ == k),
            None => r matches Err(Error::Credential(_)),
        },
{
    let bytes = password.as_bytes();
    match argon2_hash(bytes, salt) {
        Err(HashFailure::Salt(e)) => Err(Error::Credential(join2("salt: Invalid salt bytes: ", e.as_str()))),
        Err(HashFailure::Hash(e)) => Err(Error::Credential(join2("password: Argon2 hashing failed: ", e.as_str()))),
        Ok(None) => Err(Error::Credential(crate::text::text("password_hash: Hash output missing"))),
        Ok(Some(out)) => {
            if out.len() < 32 {
                let n = decimal_text(out.len() as u64);
                return Err(Error::Credential(join2("password_hash: Argon2 output too short: ", n.as_str())));
            }
            let mut key = [0u8; 32];
            let mut i: usize = 0;
            while i < 32
                invariant
                    out@.len() >= 32,
                    i <= 32,
                    forall|j: int| 0 <= j < i ==> key@[j] == out@[j],
                decreases 32 - i,
            {
                key.set(i, out[i]);
                i += 1;
            }
            assert(key@ =~= out@.subrange(0, 32));
            Ok(key)
        },
    }
}

/// A fresh random nonce of 12 bytes (`rand::rng().random()`); nothing is
/// promised of its value.
#[verifier::external_body]
fn random_nonce() -> [u8; 12] {
    rand::rng().random()
}

/// The AES-256-GCM ciphertext (with its tag) of a plaintext under a key and
/// nonce, or `None` where encryption fails.
pub uninterp spec fn aes_sealed(key: Seq<u8>, nonce: Seq<u8>, plaintext: Seq<u8>) -> Option<Seq<u8>>;

/// `Aes256Gcm::encrypt` under the key and nonce; the outcome is named by
/// `aes_sealed`, the error given as its message. It fails only for a
/// plaintext longer than 2^36 bytes (the cipher's `P_MAX`; there is no
/// associated data, and a `Vec` buffer always takes the tag).
#[verifier::external_body]
fn aes_seal(key: &[u8; 32], nonce: &[u8; 12], plaintext: &[u8]) -> (r: Result<Vec<u8>, String>)
    ensures
        plaintext@.len() <= 0x1000000000 ==> r is Ok,
        match r {
            Ok(c) => aes_sealed(key@, nonce@, plaintext@) == Some(c@),
            Err(_) => aes_sealed(key@, nonce@, plaintext@) is None,
        },
{
    let cipher = aes_gcm::Aes256Gcm::new(aes_gcm::Key::<aes_gcm::Aes256Gcm>::from_slice(key));
    cipher.encrypt(aes_gcm::Nonce::from_slice(nonce), plaintext).map_err(|e| e.to_string())
}

/// `Aes256Gcm::decrypt` under the key and nonce. Decryption gives back the
/// plaintext that encryption under the same key and nonce sealed; a
/// ciphertext that no plaintext seals to is refused.
#[verifier::external_body]
fn aes_open(key: &[u8; 32], nonce: &[u8; 12], ciphertext: &[u8]) -> (r: Option<Vec<u8>>)
    ensures
        (exists|p: Seq<u8>| aes_sealed(key@, nonce@, p) == Some(ciphertext@)) ==> r is Some,
        r matches Some(v) ==> aes_sealed(key@, nonce@, v@) == Some(ciphertext@),
        r matches Some(v) ==> forall|p: Seq<u8>| aes_sealed(key@, nonce@, p) == Some(ciphertext@) ==> v@ == p,
{
    let cipher = aes_gcm::Aes256Gcm::new(aes_gcm::Key::<aes_gcm::Aes256Gcm>::from_slice(key));
    cipher.decrypt(aes_gcm::Nonce::from_slice(nonce), ciphertext).ok()
}

/// `String::from_utf8`: the text whose UTF-8 encoding the bytes are, if
/// they are valid UTF-8; the error is given as its message.
#[verifier::external_body]
fn utf8_text(bytes: Vec<u8>) -> (r: Result<String, String>)
    ensures
        r matches Ok(s) ==> encode_utf8(s@) == bytes@,
        (exists|s: Seq<char>| encode_utf8(s) == bytes@) ==> r is Ok,
{
    String::from_utf8(bytes).map_err(|e| e.to_string())
}

/// Whether a nonce text and a ciphertext text are what encrypting `text`
/// under `key` writes: a 12-byte nonce and the AES-256-GCM sealing of the
/// text's UTF-8 bytes under it, both in Base64.
pub open spec fn encrypted_as(key: Seq<u8>, text: Seq<char>, nonce_text: Seq<char>, ciphertext_text: Seq<char>) -> bool {
    exists|nonce: Seq<u8>, sealed: Seq<u8>| #![trigger base64_text(nonce), base64_text(sealed)]
        aes_sealed(key, nonce, encode_utf8(text)) == Some(sealed) && nonce.len() == 12
        && nonce_text == base64_text(nonce) && ciphertext_text == base64_text(sealed)
}

/// Encrypt a secret under a key: a fresh nonce and the sealed UTF-8 text,
/// both in Base64. It succeeds for every text of at most 2^36 bytes.
pub fn encrypt_secret(key: &[u8; 32], plaintext: &str) -> (r: Result<(String, String), Error>)
    ensures
        encode_utf8(plaintext@).len() <= 0x1000000000 ==> r is Ok,
        r matches Ok((n, c)) ==> encrypted_as(key@, plaintext@, n@, c@),
        r matches Err(e) ==> e is Credential,
{
    let nonce = random_nonce();
    match aes_seal(key, &nonce, plaintext.as_bytes()) {
        Ok(c) => {
            let n = base64_encode(&nonce);
            let t = base64_encode(c.as_slice());
            assert(aes_sealed(key@, nonce@, encode_utf8(plaintext@)) == Some(c@));
            Ok((n, t))
        },
        Err(e) => Err(Error::Credential(join2("encryption: Encryption failed: ", e.as_str()))),
    }
}

/// Decrypt a secret sealed by `encrypt_secret`: decode the nonce and
/// ciphertext, open them under the key, and read the text. What
/// `encrypt_secret` wrote for a text decrypts to that text.
pub fn decrypt_secret(key: &[u8; 32], nonce_text: &str, ciphertext_text: &str) -> (r: Result<String, Error>)
    ensures
        r matches Ok(s) ==> encrypted_as(key@, s@, nonce_text@, ciphertext_text@),
        forall|t: Seq<char>| #[trigger] encrypted_as(key@, t, nonce_text@, ciphertext_text@) ==> (r matches Ok(s) && s@ == t),
        r matches Err(e) ==> e is Credential,
{
    let nonce_bytes = match base64_decode(nonce_text) {
        Ok(b) => b,
        Err(e) => {
            proof {
                assert forall|t: Seq<char>| #[trigger] encrypted_as(key@, t, nonce_text@, ciphertext_text@) implies false by {
                    let (nonce, sealed) = choose|nonce: Seq<u8>, sealed: Seq<u8>| #![trigger base64_text(nonce), base64_text(sealed)]
                        aes_sealed(key@, nonce, encode_utf8(t)) == Some(sealed) && nonce.len() == 12
                        && nonce_text@ == base64_text(nonce) && ciphertext_text@ == base64_text(sealed);
                    assert(base64_text(nonce) == nonce_text@);
                }
            }
            return Err(Error::Credential(join2("nonce: Invalid nonce: ", e.as_str())));
        },
    };
    let ciphertext = match base64_decode(ciphertext_text) {
        Ok(b) => b,
        Err(e) => {
            proof {
                assert forall|t: Seq<char>| #[trigger] encrypted_as(key@, t, nonce_text@, ciphertext_text@) implies false by {
                    let (nonce, sealed) = choose|nonce: Seq<u8>, sealed: Seq<u8>| #![trigger base64_text(nonce), base64_text(sealed)]
                        aes_sealed(key@, nonce, encode_utf8(t)) == Some(sealed) && nonce.len() == 12
                        && nonce_text@ == base64_text(nonce) && ciphertext_text@ == base64_text(sealed);
                    assert(base64_text(sealed) == ciphertext_text@);
                }
            }
            return Err(Error::Credential(join2("ciphertext: Invalid ciphertext: ", e.as_str())));
        },
    };
    // Every reading of the texts as an encryption has these bytes.
    proof {
        assert forall|t: Seq<char>, nonce: Seq<u8>, sealed: Seq<u8>|
            #![trigger aes_sealed(key@, nonce, encode_utf8(t)), base64_text(nonce), base64_text(sealed)]
            nonce_text@ == base64_text(nonce) && ciphertext_text@ == base64_text(sealed)
            implies nonce == nonce_bytes@ && sealed == ciphertext@ by {}
    }
    if nonce_bytes.len() != 12 {
        proof {
            assert forall|t: Seq<char>| #[trigger] encrypted_as(key@, t, nonce_text@, ciphertext_text@) implies false by {
                let (nonce, sealed) = choose|nonce: Seq<u8>, sealed: Seq<u8>| #![trigger base64_text(nonce), base64_text(sealed)]
                    aes_sealed(key@, nonce, encode_utf8(t)) == Some(sealed) && nonce.len() == 12
                    && nonce_text@ == base64_text(nonce) && ciphertext_text@ == base64_text(sealed);
                assert(aes_sealed(key@, nonce, encode_utf8(t)) == Some(sealed));
                assert(nonce == nonce_bytes@);
            }
        }
        return Err(Error::Credential(crate::text::text("nonce: Invalid nonce: expected 12 bytes")));
    }
    let mut nonce = [0u8; 12];
    let mut i: usize = 0;
    while i < 12
        invariant
            nonce_bytes@.len() == 12,
            i <= 12,
            forall|j: int| 0 <= j < i ==> nonce@[j] == nonce_bytes@[j],
        decreases 12 - i,
    {
        nonce.set(i, nonce_bytes[i]);
        i += 1;
    }
    assert(nonce@ =~= nonce_bytes@);
    let plain = match aes_open(key, &nonce, ciphertext.as_slice()) {
        Some(p) => p,
        None => {
            proof {
                assert forall|t: Seq<char>| #[trigger] encrypted_as(key@, t, nonce_text@, ciphertext_text@) implies false by {
                    let (n1, s1) = choose|nonce: Seq<u8>, sealed: Seq<u8>| #![trigger base64_text(nonce), base64_text(sealed)]
                        aes_sealed(key@, nonce, encode_utf8(t)) == Some(sealed) && nonce.len() == 12
                        && nonce_text@ == base64_text(nonce) && ciphertext_text@ == base64_text(sealed);
                    assert(aes_sealed(key@, n1, encode_utf8(t)) == Some(s1));
                    assert(n1 == nonce_bytes@ && s1 == ciphertext@);
                    assert(aes_sealed(key@, nonce@, encode_utf8(t)) == Some(ciphertext@));
                }
            }
            return Err(Error::Credential(crate::text::text("decryption: Decryption failed (wrong key?)")));
        },
    };
    let ghost pb = plain@;
    proof {
        assert forall|t: Seq<char>| #[trigger] encrypted_as(key@, t, nonce_text@, ciphertext_text@) implies pb == encode_utf8(t) by {
            let (n1, s1) = choose|nonce: Seq<u8>, sealed: Seq<u8>| #![trigger base64_text(nonce), base64_text(sealed)]
                aes_sealed(key@, nonce, encode_utf8(t)) == Some(sealed) && nonce.len() == 12
                && nonce_text@ == base64_text(nonce) && ciphertext_text@ == base64_text(sealed);
            assert(aes_sealed(key@, n1, encode_utf8(t)) == Some(s1));
            assert(n1 == nonce_bytes@ && s1 == ciphertext@);
            assert(aes_sealed(key@, nonce@, encode_utf8(t)) == Some(ciphertext@));
        }
    }
    match utf8_text(plain) {
        Ok(s) => {
            assert(aes_sealed(key@, nonce_bytes@, encode_utf8(s@)) == Some(ciphertext@));
            assert(base64_text(nonce_bytes@) == nonce_text@);
            assert(base64_text(ciphertext@) == ciphertext_text@);
            proof {
                assert forall|t: Seq<char>| #[trigger] encrypted_as(key@, t, nonce_text@, ciphertext_text@) implies s@ == t by {
                    assert(pb == encode_utf8(t));
                    vstd::utf8::encode_utf8_decode_utf8(s@);
                    vstd::utf8::encode_utf8_decode_utf8(t);
                }
            }
            Ok(s)
        },
        Err(e) => {
            proof {
                assert forall|t: Seq<char>| #[trigger] encrypted_as(key@, t, nonce_text@, ciphertext_text@) implies false by {
                    assert(pb == encode_utf8(t));
                }
            }
            Err(Error::Credential(join2("utf8: Invalid UTF-8: ", e.as_str())))
        },
    }
}

/// Check a salt read back from the file: it must be 16 bytes.
pub fn check_salt(salt: Vec<u8>) -> (r: Result<[u8; 16], Error>)
    ensures
        salt@.len() == 16 ==> (r matches Ok(s) && s@ == salt@),
        salt@.len() != 16 ==> (r matches Err(Error::Credential(m))
            && m@ == "salt: Invalid salt length: expected 16, got "@ + decimal(salt@.len() as nat)),
{
    if salt.len() != 16 {
        let n = decimal_text(salt.len() as u64);
        return Err(Error::Credential(join2("salt: Invalid salt length: expected 16, got ", n.as_str())));
    }
    let mut out = [0u8; 16];
    let mut i: usize = 0;
    while i < 16
        invariant
            salt@.len() == 16,
            i <= 16,
            forall|j: int| 0 <= j < i ==> out@[j] == salt@[j],
        decreases 16 - i,
    {
        out.set(i, salt[i]);
        i += 1;
    }
    assert(out@ =~= salt@);
    Ok(out)
}

/// Decode and check the salt stored in the file, in Base64.
pub fn decode_salt(text: &str) -> (r: Result<[u8; 16], Error>)
    ensures
        forall|b: Seq<u8>| #[trigger] base64_text(b) == text@ && b.len() == 16 ==> (r matches Ok(s) && s@ == b),
{
    match base64_decode(text) {
        Ok(b) => check_salt(b),
        Err(e) => Err(Error::Credential(join2("salt: Invalid salt encoding: ", e.as_str()))),
    }
}

/// A fresh random salt of 16 bytes (`rand::rng().random()`); nothing is
/// promised of its value.
#[verifier::external_body]
pub fn generate_salt() -> [u8; 16] {
    rand::rng().random()
}

/// A fresh random key of 32 bytes (`rand::rng().random()`); nothing is
/// promised of its value.
#[verifier::external_body]
pub fn generate_key() -> [u8; 32] {
    rand::rng().random()
}

} // verus!
