use password_manager::{
    decrypt_password, encrypt_bytes, encrypt_bytes_with_nonce, encrypt_password, provision_key, retrieve_password,
    save_password, CipherError, KeyError, MasterKey, Vault,
};

fn key_of(byte: u8) -> MasterKey {
    MasterKey::from_bytes(vec![byte; 32]).unwrap()
}

fn hex(s: &str) -> Vec<u8> {
    (0..s.len() / 2).map(|i| u8::from_str_radix(&s[2 * i..2 * i + 2], 16).unwrap()).collect()
}

#[test]
fn round_trip_ascii() {
    let key = key_of(7);
    let mut vault = Vault::new();
    save_password(&mut vault, "mail", "hunter2", &key).unwrap();
    assert_eq!(retrieve_password(&vault, "mail", &key), Ok(Some("hunter2".to_string())));
}

#[test]
fn round_trip_empty_password() {
    let key = key_of(7);
    let mut vault = Vault::new();
    save_password(&mut vault, "bank", "", &key).unwrap();
    assert_eq!(retrieve_password(&vault, "bank", &key), Ok(Some(String::new())));
    assert_eq!(vault.get("bank").unwrap().len(), 12 + 16);
}

#[test]
fn round_trip_non_ascii() {
    let key = MasterKey::generate().unwrap();
    let mut vault = Vault::new();
    let secret = "pässwörd-密码-🔑";
    save_password(&mut vault, "ünïcode", secret, &key).unwrap();
    assert_eq!(retrieve_password(&vault, "ünïcode", &key), Ok(Some(secret.to_string())));
}

#[test]
fn blob_layout_length() {
    let key = key_of(1);
    let blob = encrypt_password("abc", &key).unwrap();
    assert_eq!(blob.len(), 12 + 3 + 16);
    let blob = encrypt_password("é", &key).unwrap();
    assert_eq!(blob.len(), 12 + 2 + 16);
}

#[test]
fn ciphertext_differs_from_plaintext() {
    let key = key_of(1);
    let plain = b"a fairly long plaintext that must not appear in clear";
    let blob = encrypt_bytes(plain, &key).unwrap();
    assert_eq!(blob.len(), 12 + plain.len() + 16);
    assert_ne!(&blob[12..12 + plain.len()], &plain[..]);
}

#[test]
fn nonces_differ_and_both_decrypt() {
    let key = key_of(3);
    let a = encrypt_password("same", &key).unwrap();
    let b = encrypt_password("same", &key).unwrap();
    assert_ne!(a, b);
    assert_ne!(&a[..12], &b[..12]);
    assert_eq!(decrypt_password(&a, &key), Ok("same".to_string()));
    assert_eq!(decrypt_password(&b, &key), Ok("same".to_string()));
}

#[test]
fn any_single_bit_flip_is_rejected() {
    let key = key_of(9);
    let blob = encrypt_password("hunter2", &key).unwrap();
    for i in 0..blob.len() {
        for bit in 0..8 {
            let mut tampered = blob.clone();
            tampered[i] ^= 1 << bit;
            assert_eq!(decrypt_password(&tampered, &key), Err(CipherError::Authentication));
        }
    }
}

#[test]
fn truncated_blob_is_rejected() {
    let key = key_of(9);
    let blob = encrypt_password("hunter2", &key).unwrap();
    assert_eq!(decrypt_password(&blob[..blob.len() - 1], &key), Err(CipherError::Authentication));
}

#[test]
fn wrong_key_is_rejected() {
    let blob = encrypt_password("hunter2", &key_of(1)).unwrap();
    assert_eq!(decrypt_password(&blob, &key_of(2)), Err(CipherError::Authentication));
}

#[test]
fn short_blobs_are_malformed() {
    let key = key_of(1);
    assert_eq!(decrypt_password(&[], &key), Err(CipherError::Malformed));
    assert_eq!(decrypt_password(&[0u8; 11], &key), Err(CipherError::Malformed));
    assert_eq!(decrypt_password(&[0u8; 12], &key), Err(CipherError::Authentication));
    assert_eq!(decrypt_password(&[0u8; 27], &key), Err(CipherError::Authentication));
}

#[test]
fn non_utf8_plaintext_is_an_encoding_error() {
    let key = key_of(4);
    let blob = encrypt_bytes(&[0xff, 0xfe, 0x80], &key).unwrap();
    assert_eq!(decrypt_password(&blob, &key), Err(CipherError::Encoding));
}

#[test]
fn known_answer_empty_plaintext() {
    // AES-256-GCM, zero key, zero nonce, empty plaintext.
    let key = key_of(0);
    let mut blob = vec![0u8; 12];
    blob.extend(hex("530f8afbc74536b9a963b4f1c4cb738b"));
    assert_eq!(decrypt_password(&blob, &key), Ok(String::new()));
}

#[test]
fn known_answer_one_block() {
    // AES-256-GCM, zero key, zero nonce, sixteen zero bytes.
    let key = key_of(0);
    let mut blob = vec![0u8; 12];
    blob.extend(hex("cea7403d4d606b6e074ec5d3baf39d18"));
    blob.extend(hex("d0d1c8a799996bf0265b98b5d48ab919"));
    assert_eq!(decrypt_password(&blob, &key), Ok("\0".repeat(16)));
}

#[test]
fn overwrite_keeps_last_password_only() {
    let key = key_of(5);
    let mut vault = Vault::new();
    save_password(&mut vault, "other", "untouched", &key).unwrap();
    let other_blob = vault.get("other").unwrap().clone();
    save_password(&mut vault, "mail", "first", &key).unwrap();
    save_password(&mut vault, "mail", "second", &key).unwrap();
    assert_eq!(retrieve_password(&vault, "mail", &key), Ok(Some("second".to_string())));
    assert_eq!(retrieve_password(&vault, "other", &key), Ok(Some("untouched".to_string())));
    assert_eq!(vault.get("other").unwrap(), &other_blob);
    assert_eq!(vault.entries().len(), 2);
}

#[test]
fn missing_service_in_empty_vault() {
    let key = key_of(5);
    let vault = Vault::new();
    assert_eq!(retrieve_password(&vault, "nothing", &key), Ok(None));
}

#[test]
fn missing_service_in_populated_vault() {
    let key = key_of(5);
    let mut vault = Vault::new();
    save_password(&mut vault, "mail", "pw", &key).unwrap();
    assert_eq!(retrieve_password(&vault, "Mail", &key), Ok(None));
    assert_eq!(retrieve_password(&vault, "", &key), Ok(None));
}

#[test]
fn retrieve_reports_corrupt_record() {
    let key = key_of(5);
    let mut vault = Vault::new();
    vault.upsert("mail", vec![1, 2, 3]);
    assert_eq!(retrieve_password(&vault, "mail", &key), Err(CipherError::Malformed));
    let mut blob = encrypt_password("pw", &key).unwrap();
    blob[20] ^= 0x40;
    vault.upsert("mail", blob);
    assert_eq!(retrieve_password(&vault, "mail", &key), Err(CipherError::Authentication));
}

#[test]
fn upsert_and_entries_list_each_service_once() {
    let mut vault = Vault::new();
    vault.upsert("a", vec![1]);
    vault.upsert("b", vec![2]);
    vault.upsert("a", vec![3]);
    let entries = vault.entries();
    assert_eq!(entries.len(), 2);
    let a = entries.iter().find(|e| e.service == "a").unwrap();
    assert_eq!(a.encrypted_password, vec![3]);
    assert_eq!(vault.get("b"), Some(&vec![2]));
    assert_eq!(vault.get("c"), None);
}

#[test]
fn key_from_bytes_checks_length() {
    assert_eq!(MasterKey::from_bytes(vec![0; 31]).err(), Some(KeyError::WrongLength));
    assert_eq!(MasterKey::from_bytes(vec![0; 33]).err(), Some(KeyError::WrongLength));
    assert_eq!(MasterKey::from_bytes(Vec::new()).err(), Some(KeyError::WrongLength));
    let bytes: Vec<u8> = (0..32).collect();
    assert_eq!(MasterKey::from_bytes(bytes.clone()).unwrap().as_bytes(), &bytes[..]);
}

#[test]
fn provisioning_is_stable() {
    let (first, created) = provision_key(None).unwrap();
    assert!(created);
    assert_eq!(first.as_bytes().len(), 32);
    let stored = first.as_bytes().to_vec();
    let (second, created_again) = provision_key(Some(stored.clone())).unwrap();
    assert!(!created_again);
    assert_eq!(second.as_bytes(), &stored[..]);
}

#[test]
fn provisioning_refuses_short_key() {
    assert_eq!(provision_key(Some(vec![1; 5])).err(), Some(KeyError::WrongLength));
}

#[test]
fn generated_keys_differ() {
    assert_ne!(MasterKey::generate().unwrap().as_bytes(), MasterKey::generate().unwrap().as_bytes());
}

#[test]
fn known_answer_encrypt_with_nonce() {
    let key = key_of(0);
    let blob = encrypt_bytes_with_nonce(&[0u8; 16], &[0u8; 12], &key);
    let mut expected = vec![0u8; 12];
    expected.extend(hex("cea7403d4d606b6e074ec5d3baf39d18"));
    expected.extend(hex("d0d1c8a799996bf0265b98b5d48ab919"));
    assert_eq!(blob, expected);
    let empty = encrypt_bytes_with_nonce(&[], &[0u8; 12], &key);
    let mut expected = vec![0u8; 12];
    expected.extend(hex("530f8afbc74536b9a963b4f1c4cb738b"));
    assert_eq!(empty, expected);
}

#[test]
fn blob_shorter_than_nonce_and_tag_fails_authentication() {
    let key = key_of(6);
    let blob = encrypt_password("hunter2", &key).unwrap();
    for m in 12..28 {
        assert_eq!(decrypt_password(&blob[..m], &key), Err(CipherError::Authentication));
    }
    for m in 0..12 {
        assert_eq!(decrypt_password(&blob[..m], &key), Err(CipherError::Malformed));
    }
}
