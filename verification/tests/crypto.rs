use base64::Engine;
use sha2::Digest;
use sheldrive::crypto::{
    decrypt, decrypt_with_key, download_payload, encrypt, encrypt_with_key,
    folder_key_from_plaintext, generate_folder_key, hashed_local_cid, key_address, pin_payload,
    retrieved_bytes, unwrap_folder_key, unwrap_shared_folder_key, upload_payload, wrap_folder_key,
    wrap_folder_key_for_recipient,
};

#[test]
fn test_encrypt_decrypt_roundtrip() {
    let data = b"Hello, Shelby!";
    let passphrase = "my-secret-key";
    let encrypted = encrypt(data, passphrase).unwrap();
    assert_ne!(encrypted, data);
    let decrypted = decrypt(&encrypted, passphrase).unwrap();
    assert_eq!(decrypted, data);
}

#[test]
fn test_wrong_passphrase_fails() {
    let data = b"secret data";
    let encrypted = encrypt(data, "correct-key").unwrap();
    assert!(decrypt(&encrypted, "wrong-key").is_err());
}

#[test]
fn test_different_encryptions_produce_different_output() {
    let data = b"same data";
    let e1 = encrypt(data, "key").unwrap();
    let e2 = encrypt(data, "key").unwrap();
    assert_ne!(e1, e2);
}

#[test]
fn test_folder_key_generation() {
    let k1 = generate_folder_key();
    let k2 = generate_folder_key();
    assert_ne!(k1, k2);
    assert_eq!(k1.len(), 32);
}

#[test]
fn test_folder_key_wrap_unwrap() {
    let folder_key = generate_folder_key();
    let private_key = "0xabc123";
    let wrapped = wrap_folder_key(&folder_key, private_key).unwrap();
    let unwrapped = unwrap_folder_key(&wrapped, private_key).unwrap();
    assert_eq!(folder_key, unwrapped);
}

#[test]
fn test_folder_key_wrong_key_fails() {
    let folder_key = generate_folder_key();
    let wrapped = wrap_folder_key(&folder_key, "owner-key").unwrap();
    assert!(unwrap_folder_key(&wrapped, "wrong-key").is_err());
}

#[test]
fn test_encrypt_decrypt_with_folder_key() {
    let folder_key = generate_folder_key();
    let data = b"file content here";
    let encrypted = encrypt_with_key(data, &folder_key).unwrap();
    let decrypted = decrypt_with_key(&encrypted, &folder_key).unwrap();
    assert_eq!(decrypted, data);
}

#[test]
fn encrypted_layout_is_nonce_ciphertext_and_tag() {
    let key = [7u8; 32];
    let out = encrypt_with_key(b"abc", &key).unwrap();
    assert_eq!(out.len(), 12 + 3 + 16);
    let empty = encrypt_with_key(b"", &key).unwrap();
    assert_eq!(empty.len(), 28);
    assert_eq!(decrypt_with_key(&empty, &key).unwrap(), Vec::<u8>::new());
}

#[test]
fn short_input_is_rejected_with_message() {
    let key = [1u8; 32];
    let err = decrypt_with_key(&[0u8; 11], &key).unwrap_err();
    assert_eq!(err, "Data too short to contain nonce");
}

#[test]
fn tampered_ciphertext_is_rejected_with_message() {
    let key = [2u8; 32];
    let mut out = encrypt_with_key(b"payload", &key).unwrap();
    let last = out.len() - 1;
    out[last] ^= 1;
    assert_eq!(decrypt_with_key(&out, &key).unwrap_err(), "Decrypt error: aead::Error");
}

#[test]
fn bad_base64_reports_prefix() {
    let err = unwrap_folder_key("not base64!", "pk").unwrap_err();
    assert!(err.starts_with("Base64 decode error: "));
}

#[test]
fn wrong_key_length_is_reported() {
    assert_eq!(
        folder_key_from_plaintext(vec![0u8; 31], " (expected 32)").unwrap_err(),
        "Invalid key length: 31 (expected 32)"
    );
    assert_eq!(folder_key_from_plaintext(vec![5u8; 32], "").unwrap(), [5u8; 32]);
}

fn address(private_key: &str) -> String {
    hex::encode(&sha2::Sha256::digest(private_key.as_bytes())[..20])
}

#[test]
fn shared_key_reaches_its_recipient() {
    let folder_key = [9u8; 32];
    let owner_private_key = "owner-secret";
    let my_private_key = "recipient-secret";
    let wrapped =
        wrap_folder_key_for_recipient(&folder_key, owner_private_key, &address(my_private_key))
            .unwrap();
    let unwrapped =
        unwrap_shared_folder_key(&wrapped, &address(owner_private_key), my_private_key).unwrap();
    assert_eq!(unwrapped, folder_key);
    assert!(unwrap_shared_folder_key(&wrapped, &address("someone-else"), my_private_key).is_err());
    assert!(unwrap_shared_folder_key(&wrapped, &address(owner_private_key), "intruder").is_err());
}

#[test]
fn addresses_are_hex_of_the_hash_head() {
    assert_eq!(key_address("pk"), address("pk"));
    assert_eq!(key_address("pk").len(), 40);
}

#[test]
fn decryption_is_28_bytes_shorter() {
    let key = [4u8; 32];
    for n in [0usize, 1, 100] {
        let data = vec![7u8; n];
        let sealed = encrypt_with_key(&data, &key).unwrap();
        assert_eq!(sealed.len(), n + 28);
        assert_eq!(decrypt_with_key(&sealed, &key).unwrap().len(), sealed.len() - 28);
    }
    assert_eq!(decrypt_with_key(&[0u8; 20], &key).unwrap_err(), "Decrypt error: aead::Error");
}

#[test]
fn retrieved_content_is_decoded_or_empty() {
    let b64 = base64::engine::general_purpose::STANDARD.encode(b"hello");
    assert_eq!(retrieved_bytes(&b64), b"hello".to_vec());
    assert!(retrieved_bytes("not base64!").is_empty());
    assert!(retrieved_bytes("").is_empty());
}

#[test]
fn pinned_content_is_base64() {
    assert_eq!(pin_payload(b"hello"), "aGVsbG8=");
    assert_eq!(pin_payload(b""), "");
}

#[test]
fn hashed_local_identifier() {
    let expected = format!(
        "local:{}",
        hex::encode(&sha2::Sha256::digest("C:\\docs\\a.txt".as_bytes())[..16])
    );
    assert_eq!(hashed_local_cid("C:\\docs\\a.txt"), expected);
    assert_eq!(hashed_local_cid("x").len(), 6 + 32);
}

#[test]
fn upload_and_download_payloads_roundtrip() {
    let content = b"document body".to_vec();
    let pk = "owner-key";
    let folder_key = [3u8; 32];
    let wrapped = wrap_folder_key(&folder_key, pk).unwrap();

    let up = upload_payload(&content, Some(&wrapped), Some(pk));
    assert_ne!(up, content);
    assert_eq!(download_payload(up, Some(&wrapped), Some(pk)), content);

    let up = upload_payload(&content, None, Some(pk));
    assert_eq!(up.len(), content.len() + 28);
    assert_eq!(download_payload(up, None, Some(pk)), content);

    assert_eq!(upload_payload(&content, Some(&wrapped), None), content);
    assert_eq!(upload_payload(&content, None, None), content);
    assert_eq!(download_payload(content.clone(), None, None), content);
    assert_eq!(upload_payload(&content, Some("%%%"), Some(pk)), content);
}

#[test]
fn passphrase_key_is_sha256_of_domain_and_passphrase() {
    let encrypted = encrypt(b"payload", "pass").unwrap();
    let mut hasher = sha2::Sha256::new();
    hasher.update(b"sheldrive-keywrap-v1:");
    hasher.update(b"pass");
    let key: [u8; 32] = hasher.finalize().into();
    assert_eq!(decrypt_with_key(&encrypted, &key).unwrap(), b"payload".to_vec());
}

#[test]
fn wrapped_key_is_standard_base64_of_sixty_bytes() {
    let wrapped = wrap_folder_key(&[4u8; 32], "pk").unwrap();
    let raw = base64::engine::general_purpose::STANDARD.decode(&wrapped).unwrap();
    assert_eq!(raw.len(), 12 + 32 + 16);
}
