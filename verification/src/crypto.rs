//! Key derivation, the per-file cipher and the content hash.

use vstd::prelude::*;
use vstd::utf8::encode_utf8;
use crate::error::PasswordError;
use crate::text::{hex_encode, hex_text};

verus! {

/// The shortest salt the key derivation takes.
pub const MIN_SALT_LEN: usize = 8;

/// The longest password, and the longest salt, the key derivation takes.
pub const MAX_KDF_INPUT_LEN: u64 = 0xFFFF_FFFF;

/// The length of a key.
pub const KEY_LEN: usize = 32;

/// The length of the tag that the cipher appends.
pub const TAG_LEN: usize = 16;

/// The longest plaintext the cipher takes.
pub const MAX_PLAINTEXT_LEN: u64 = 0x10_0000_0000;

/// The key that Argon2id derives from a password and a salt. Stands for what
/// `argon2_key` returns.
pub uninterp spec fn derived_key(password: Seq<char>, salt: Seq<u8>) -> Seq<u8>;

/// The ciphertext of `data` under `key` and `nonce`, tag included. Stands for
/// what `seal` returns.
pub uninterp spec fn sealed(key: Seq<u8>, nonce: Seq<u8>, data: Seq<u8>) -> Seq<u8>;

/// The plaintext of `ciphertext` under `key` and `nonce`, or `None` where the
/// tag does not authenticate it. Stands for what `open` returns.
pub uninterp spec fn opened(key: Seq<u8>, nonce: Seq<u8>, ciphertext: Seq<u8>) -> Option<
    Seq<u8>,
>;

/// The SHA-256 digest of `data`. Stands for what `sha256_digest` returns.
pub uninterp spec fn sha256(data: Seq<u8>) -> Seq<u8>;

/// Whether the key derivation takes this password and salt.
pub open spec fn kdf_takes(password: Seq<char>, salt: Seq<u8>) -> bool {
    &&& encode_utf8(password).len() <= MAX_KDF_INPUT_LEN
    &&& MIN_SALT_LEN <= salt.len() <= MAX_KDF_INPUT_LEN
}

/// Derives 32 bytes from a password and a salt.
///
/// Calls `Argon2::default().hash_password_into` with a 32-byte output. Its
/// source refuses a password or salt longer than 0xFFFFFFFF bytes and a salt
/// shorter than 8, and nothing else for this output length; the contract says
/// so and gives the key its name. The crate's own conversion turns its error
/// into that of `password-hash`.
#[verifier::external_body]
fn argon2_key(password: &str, salt: &[u8]) -> (r: Result<[u8; 32], argon2::password_hash::Error>)
    ensures
        r is Ok <==> kdf_takes(password@, salt@),
        r is Ok ==> r.unwrap()@ == derived_key(password@, salt@),
{
    let mut key = [0u8; 32];
    argon2::Argon2::default().hash_password_into(password.as_bytes(), salt, &mut key)?;
    Ok(key)
}

/// Twelve random bytes.
///
/// Calls `rand::random`; nothing is claimed of the bytes.
#[verifier::external_body]
fn random_nonce() -> [u8; 12] {
    rand::random()
}

/// Sixteen random bytes.
///
/// Calls `rand::random`; nothing is claimed of the bytes.
#[verifier::external_body]
fn random_salt() -> [u8; 16] {
    rand::random()
}

/// Encrypts `data` with AES-256-GCM.
///
/// Calls `Aes256Gcm::new_from_slice`, which takes a key of exactly 32 bytes,
/// and `Aead::encrypt`, which refuses a plaintext longer than 2^36 bytes and
/// otherwise returns the encrypted bytes followed by a 16-byte tag. The
/// contract names the ciphertext and adds what the crate's usage notes show:
/// decrypting it with the same key and nonce gives the plaintext back.
#[verifier::external_body]
fn seal(key: &[u8], nonce: &[u8; 12], data: &[u8]) -> (r: Option<Vec<u8>>)
    ensures
        r is Some <==> (key@.len() == KEY_LEN && data@.len() <= MAX_PLAINTEXT_LEN),
        r is Some ==> r.unwrap()@ == sealed(key@, nonce@, data@),
        r is Some ==> r.unwrap()@.len() == data@.len() + TAG_LEN,
        r is Some ==> opened(key@, nonce@, r.unwrap()@) == Some(data@),
{
    let cipher = <aes_gcm::Aes256Gcm as aes_gcm::KeyInit>::new_from_slice(key).ok()?;
    aes_gcm::aead::Aead::encrypt(&cipher, aes_gcm::Nonce::from_slice(nonce), data).ok()
}

/// Decrypts `ciphertext` with AES-256-GCM.
///
/// Calls `Aes256Gcm::new_from_slice` and `Aead::decrypt`, which returns the
/// plaintext only where the tag authenticates the ciphertext. The contract
/// gives the outcome its name; a key of another length opens nothing.
#[verifier::external_body]
fn open(key: &[u8], nonce: &[u8; 12], ciphertext: &[u8]) -> (r: Option<Vec<u8>>)
    ensures
        key@.len() != KEY_LEN ==> r is None,
        key@.len() == KEY_LEN ==> match r {
            Some(p) => opened(key@, nonce@, ciphertext@) == Some(p@),
            None => opened(key@, nonce@, ciphertext@) is None,
        },
{
    let cipher = <aes_gcm::Aes256Gcm as aes_gcm::KeyInit>::new_from_slice(key).ok()?;
    aes_gcm::aead::Aead::decrypt(&cipher, aes_gcm::Nonce::from_slice(nonce), ciphertext).ok()
}

/// The SHA-256 digest of `data`.
///
/// Calls `Sha256::digest`; the contract gives the 32 bytes their name.
#[verifier::external_body]
fn sha256_digest(data: &[u8]) -> (r: Vec<u8>)
    ensures
        r@ == sha256(data@),
        r@.len() == 32,
{
    <sha2::Sha256 as sha2::Digest>::digest(data).to_vec()
}

/// Derives the 256-bit key of a destination from the password and the
/// destination's salt.
pub fn derive_key(password: &str, salt: &[u8]) -> (key: [u8; 32])
    requires
        kdf_takes(password@, salt@),
    ensures
        key@ == derived_key(password@, salt@),
{
    match argon2_key(password, salt) {
        Ok(key) => key,
        Err(_) => [0u8; 32],
    }
}

/// Derives the key where the key derivation takes the inputs, and reports a
/// hashing error where it does not.
pub fn try_derive_key(password: &str, salt: &[u8]) -> (r: Result<[u8; 32], PasswordError>)
    ensures
        r is Ok <==> kdf_takes(password@, salt@),
        r matches Ok(key) ==> key@ == derived_key(password@, salt@),
        r matches Err(e) ==> e is HashError,
{
    match argon2_key(password, salt) {
        Ok(key) => Ok(key),
        Err(e) => Err(PasswordError::HashError(e)),
    }
}

/// Encrypts `data` under `key` with a fresh random nonce; returns the
/// ciphertext and the nonce. Decrypting the ciphertext with the same key and
/// nonce gives `data` back.
pub fn encrypt_file_bytes(data: &[u8], key: &[u8]) -> (out: (Vec<u8>, [u8; 12]))
    requires
        key@.len() == KEY_LEN,
        data@.len() <= MAX_PLAINTEXT_LEN,
    ensures
        out.0@ == sealed(key@, out.1@, data@),
        out.0@.len() == data@.len() + TAG_LEN,
        opened(key@, out.1@, out.0@) == Some(data@),
{
    let nonce_bytes = random_nonce();
    match seal(key, &nonce_bytes, data) {
        Some(ciphertext) => (ciphertext, nonce_bytes),
        None => (Vec::new(), nonce_bytes),
    }
}

/// Encrypts `data` under `key` with a fresh random nonce, where the cipher
/// takes them: a key of 32 bytes and at most 2^36 bytes of data.
pub fn try_encrypt_file_bytes(data: &[u8], key: &[u8]) -> (r: Option<(Vec<u8>, [u8; 12])>)
    ensures
        r is Some <==> (key@.len() == KEY_LEN && data@.len() <= MAX_PLAINTEXT_LEN),
        r matches Some(out) ==> out.0@ == sealed(key@, out.1@, data@) && out.0@.len()
            == data@.len() + TAG_LEN && opened(key@, out.1@, out.0@) == Some(data@),
{
    let nonce_bytes = random_nonce();
    match seal(key, &nonce_bytes, data) {
        Some(ciphertext) => Some((ciphertext, nonce_bytes)),
        None => None,
    }
}

/// What a failed decryption reports.
pub open spec fn decrypt_failure() -> Seq<char> {
    "Decryption failed: aead::Error"@
}

/// Decrypts `ciphertext` under `key` and `nonce_bytes`. Fails where the
/// ciphertext does not authenticate: wrong key, wrong nonce or changed bytes.
pub fn decrypt_file_bytes(ciphertext: &[u8], key: &[u8], nonce_bytes: &[u8; 12]) -> (r: Result<
    Vec<u8>,
    String,
>)
    requires
        key@.len() == KEY_LEN,
    ensures
        match opened(key@, nonce_bytes@, ciphertext@) {
            Some(p) => r matches Ok(v) && v@ == p,
            None => r matches Err(m) && m@ == decrypt_failure(),
        },
{
    match open(key, nonce_bytes, ciphertext) {
        Some(plain) => Ok(plain),
        None => Err(String::from_str("Decryption failed: aead::Error")),
    }
}

/// The name under which content is stored: the SHA-256 digest in lower-case
/// hexadecimal.
pub open spec fn content_hash(data: Seq<u8>) -> Seq<char> {
    hex_text(sha256(data))
}

/// Computes the name under which `data` is stored.
pub fn hash_content(data: &[u8]) -> (s: String)
    ensures
        s@ == content_hash(data@),
{
    let digest = sha256_digest(data);
    hex_encode(digest.as_slice())
}

/// The SHA-256 digest of a password's UTF-8 bytes, in lower-case hexadecimal.
pub fn hash_password(pw: &str) -> (s: String)
    ensures
        s@ == content_hash(encode_utf8(pw@)),
{
    hash_content(pw.as_bytes())
}

/// The salt of a destination: the one it already has, or sixteen fresh random
/// bytes. The flag says whether the salt is new and has to be stored.
pub fn get_salt(existing: Option<Vec<u8>>) -> (out: (Vec<u8>, bool))
    ensures
        match existing {
            Some(s) => out.0@ == s@ && !out.1,
            None => out.0@.len() == 16 && out.1,
        },
{
    match existing {
        Some(salt) => (salt, false),
        None => {
            let new_salt = random_salt();
            let mut v: Vec<u8> = Vec::new();
            let mut i: usize = 0;
            while i < 16
                invariant
                    i <= 16,
                    v@.len() == i,
                decreases 16 - i,
            {
                v.push(new_salt[i]);
                i += 1;
            }
            (v, true)
        },
    }
}

} // verus!
