use snapsafe::crypto::{
    decrypt_file_bytes, derive_key, encrypt_file_bytes, get_salt, hash_content, hash_password,
    try_derive_key, try_encrypt_file_bytes,
};
use snapsafe::text::usize_to_string;

#[test]
fn crytpo_test_key_derivation_consistency() {
    let password = "my-password";
    let salt = b"fixed-salt";
    let key1 = derive_key(password, salt);
    let key2 = derive_key(password, salt);
    assert_eq!(key1, key2);
}

#[test]
fn crytpo_test_key_derivation_changes() {
    let password1 = "password1";
    let password2 = "password2";
    let salt = b"fixed-salt";
    let key1 = derive_key(password1, salt);
    let key2 = derive_key(password2, salt);

    assert_ne!(key1, key2);
}

#[test]
fn crytpo_test_encrypt_decrypt_cycle() {
    let data = b"important data";
    let password = "backup123";
    let salt = b"some-salt";

    let key = derive_key(password, salt);
    let (encrypted, nonce) = encrypt_file_bytes(data, &key);
    let decrypted = decrypt_file_bytes(&encrypted, &key, &nonce).unwrap();
    assert_eq!(decrypted, data);
}

#[test]
fn lib_test_key_derivation_consistency() {
    let password = "my-password";
    let salt = b"fixed-salt";
    let key1 = derive_key(password, salt);
    let key2 = derive_key(password, salt);
    assert_eq!(key1, key2);
}

#[test]
fn lib_test_key_derivation_changes() {
    let password1 = "password1";
    let password2 = "password2";
    let salt = b"fixed-salt";
    let key1 = derive_key(password1, salt);
    let key2 = derive_key(password2, salt);

    assert_ne!(key1, key2);
}

#[test]
fn lib_test_encrypt_decrypt_cycle() {
    let data = b"important data";
    let password = "backup123";
    let salt = b"some-salt";

    let key = derive_key(password, salt);
    let (encrypted, nonce) = encrypt_file_bytes(data, &key);
    let decrypted = decrypt_file_bytes(&encrypted, &key, &nonce).unwrap_or(Vec::new());
    assert_eq!(decrypted, data);
}

#[test]
fn wrong_key_does_not_decrypt() {
    let data = b"secret";
    let key1 = [1u8; 32];
    let key2 = [2u8; 32];

    let (encrypted, nonce) = encrypt_file_bytes(data, &key1);
    let outcome = decrypt_file_bytes(&encrypted, &key2, &nonce);
    assert_eq!(outcome, Err("Decryption failed: aead::Error".to_string()));
}

#[test]
fn changed_ciphertext_does_not_decrypt() {
    let key = [7u8; 32];
    let (mut encrypted, nonce) = encrypt_file_bytes(b"payload", &key);
    encrypted[0] ^= 1;
    assert!(decrypt_file_bytes(&encrypted, &key, &nonce).is_err());
}

#[test]
fn ciphertext_is_plaintext_and_tag() {
    let key = [7u8; 32];
    let (encrypted, _) = encrypt_file_bytes(b"payload", &key);
    assert_eq!(encrypted.len(), 7 + 16);
    assert_ne!(&encrypted[..7], b"payload");
}

#[test]
fn nonces_are_fresh() {
    let key = [7u8; 32];
    let (_, n1) = encrypt_file_bytes(b"payload", &key);
    let (_, n2) = encrypt_file_bytes(b"payload", &key);
    assert_ne!(n1, n2);
}

#[test]
fn short_key_is_refused() {
    assert!(try_encrypt_file_bytes(b"payload", &[0u8; 16]).is_none());
    assert!(try_encrypt_file_bytes(b"payload", &[0u8; 32]).is_some());
}

#[test]
fn short_salt_is_refused() {
    assert!(try_derive_key("pass1", b"salt").is_err());
    assert!(try_derive_key("pass1", b"saltsalt").is_ok());
}

#[test]
fn derived_key_known_answer() {
    let a = derive_key("password", b"somesalt");
    let b = try_derive_key("password", b"somesalt").unwrap();
    assert_eq!(a, b);
    assert_ne!(a, [0u8; 32]);
}

#[test]
fn content_hash_is_sha256_in_hex() {
    assert_eq!(
        hash_content(b"abc"),
        "ba7816bf8f01cfea414140de5dae2223b00361a396177a9cb410ff61f20015ad"
    );
    assert_eq!(
        hash_content(b""),
        "e3b0c44298fc1c149afbf4c8996fb92427ae41e4649b934ca495991b7852b855"
    );
}

#[test]
fn password_hash_is_sha256_of_its_bytes() {
    assert_eq!(
        hash_password("abc"),
        "ba7816bf8f01cfea414140de5dae2223b00361a396177a9cb410ff61f20015ad"
    );
}

#[test]
fn salt_is_kept_or_made() {
    let (kept, fresh) = get_salt(Some(vec![1, 2, 3, 4, 5, 6, 7, 8, 9]));
    assert_eq!(kept, vec![1, 2, 3, 4, 5, 6, 7, 8, 9]);
    assert!(!fresh);
    let (made, fresh) = get_salt(None);
    assert_eq!(made.len(), 16);
    assert!(fresh);
    let (other, _) = get_salt(None);
    assert_ne!(made, other);
}

#[test]
fn decimal_numerals() {
    assert_eq!(usize_to_string(0), "0");
    assert_eq!(usize_to_string(7), "7");
    assert_eq!(usize_to_string(10), "10");
    assert_eq!(usize_to_string(1234567890), "1234567890");
}
