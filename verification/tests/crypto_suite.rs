use spectre_tunnel::crypto::{
    decrypt, decrypt_with_counter, derive_nonce, encrypt, encrypt_with_counter,
};

/// Helper to generate a random 32-byte key as hex
fn generate_test_key() -> String {
    let mut key = [0u8; 32];
    getrandom::getrandom(&mut key).unwrap();
    hex::encode(key)
}

/// Helper to generate a random 12-byte nonce as hex
fn generate_test_nonce() -> String {
    let mut nonce = [0u8; 12];
    getrandom::getrandom(&mut nonce).unwrap();
    hex::encode(nonce)
}

#[test]
fn test_encrypt_decrypt_roundtrip() {
    let key = generate_test_key();
    let nonce = generate_test_nonce();
    let plaintext = b"Hello, Spectre Network!";

    let encrypted = encrypt(&key, &nonce, plaintext).expect("Encryption should succeed");
    let decrypted = decrypt(&key, &encrypted).expect("Decryption should succeed");

    assert_eq!(decrypted, plaintext.as_slice());
}

#[test]
fn test_encrypt_decrypt_roundtrip_with_counter() {
    let key = generate_test_key();
    let nonce = generate_test_nonce();
    let plaintext = b"Counter-mode encryption test";

    for counter in 0..5u64 {
        let encrypted = encrypt_with_counter(&key, &nonce, counter, plaintext)
            .expect("Encryption should succeed");
        let decrypted = decrypt_with_counter(&key, &nonce, counter, &encrypted)
            .expect("Decryption should succeed");

        assert_eq!(
            decrypted,
            plaintext.as_slice(),
            "Roundtrip failed for counter {}",
            counter
        );
    }
}

#[test]
fn test_different_nonces_produce_different_ciphertext() {
    let key = generate_test_key();
    let plaintext = b"Same plaintext, different nonces";

    let nonce1 = generate_test_nonce();
    let nonce2 = generate_test_nonce();

    assert_ne!(nonce1, nonce2, "Test setup: nonces should be different");

    let encrypted1 = encrypt(&key, &nonce1, plaintext).expect("Encryption 1 should succeed");
    let encrypted2 = encrypt(&key, &nonce2, plaintext).expect("Encryption 2 should succeed");

    assert_ne!(
        encrypted1, encrypted2,
        "Different nonces should produce different ciphertexts"
    );

    let decrypted1 = decrypt(&key, &encrypted1).expect("Decryption 1 should succeed");
    let decrypted2 = decrypt(&key, &encrypted2).expect("Decryption 2 should succeed");

    assert_eq!(decrypted1, plaintext.as_slice());
    assert_eq!(decrypted2, plaintext.as_slice());
}

#[test]
fn test_nonce_derivation_with_counter() {
    let base_nonce = [
        0x01, 0x02, 0x03, 0x04, 0x05, 0x06, 0x07, 0x08, 0x09, 0x0A, 0x0B, 0x0C,
    ];

    let derived_0 = derive_nonce(&base_nonce, 0);
    assert_eq!(
        derived_0.as_slice(),
        &base_nonce[..],
        "Counter 0 should produce same nonce"
    );

    let derived_1 = derive_nonce(&base_nonce, 1);
    assert_ne!(
        derived_0, derived_1,
        "Counter 1 should produce different nonce"
    );

    let derived_2 = derive_nonce(&base_nonce, 2);
    assert_ne!(
        derived_0, derived_2,
        "Counter 2 should produce different nonce"
    );
    assert_ne!(
        derived_1, derived_2,
        "Counter 2 should differ from counter 1"
    );

    assert_eq!(derived_0[..4], base_nonce[..4]);
    assert_eq!(derived_1[..4], base_nonce[..4]);
    assert_eq!(derived_2[..4], base_nonce[..4]);

    let derived_256 = derive_nonce(&base_nonce, 256);
    assert_ne!(
        derived_256, derived_0,
        "Counter 256 should produce different nonce"
    );
}

#[test]
fn test_invalid_key_fails() {
    let key1 = generate_test_key();
    let key2 = generate_test_key();
    let nonce = generate_test_nonce();
    let plaintext = b"This should fail with wrong key";

    assert_ne!(key1, key2, "Test setup: keys should be different");

    let encrypted = encrypt(&key1, &nonce, plaintext).expect("Encryption should succeed");

    let decrypt_result = decrypt(&key2, &encrypted);
    assert!(
        decrypt_result.is_err(),
        "Decryption with wrong key should fail"
    );

    let encrypted_counter = encrypt_with_counter(&key1, &nonce, 0, plaintext)
        .expect("Counter encryption should succeed");
    let decrypt_counter_result = decrypt_with_counter(&key2, &nonce, 0, &encrypted_counter);
    assert!(
        decrypt_counter_result.is_err(),
        "Counter decryption with wrong key should fail"
    );
}

#[test]
fn test_tampered_ciphertext_fails() {
    let key = generate_test_key();
    let nonce = generate_test_nonce();
    let plaintext = b"Tamper detection test";

    let encrypted = encrypt(&key, &nonce, plaintext).expect("Encryption should succeed");

    let mut tampered = encrypted.clone();
    if tampered.len() > 13 {
        tampered[13] ^= 0xFF;
    }

    let decrypt_result = decrypt(&key, &tampered);
    assert!(
        decrypt_result.is_err(),
        "Tampered ciphertext should fail authentication"
    );

    let encrypted_counter =
        encrypt_with_counter(&key, &nonce, 0, plaintext).expect("Counter encryption should succeed");

    let mut tampered_counter = encrypted_counter.clone();
    if tampered_counter.len() > 0 {
        tampered_counter[0] ^= 0xFF;
    }

    let decrypt_counter_result = decrypt_with_counter(&key, &nonce, 0, &tampered_counter);
    assert!(
        decrypt_counter_result.is_err(),
        "Tampered counter ciphertext should fail"
    );
}

#[test]
fn test_empty_plaintext() {
    let key = generate_test_key();
    let nonce = generate_test_nonce();
    let plaintext = b"";

    let encrypted = encrypt(&key, &nonce, plaintext).expect("Empty encryption should succeed");
    let decrypted = decrypt(&key, &encrypted).expect("Empty decryption should succeed");

    assert_eq!(decrypted, plaintext.as_slice());
}

#[test]
fn test_large_plaintext() {
    let key = generate_test_key();
    let nonce = generate_test_nonce();
    let plaintext = vec![0x42u8; 10000];

    let encrypted = encrypt(&key, &nonce, &plaintext).expect("Large encryption should succeed");
    let decrypted = decrypt(&key, &encrypted).expect("Large decryption should succeed");

    assert_eq!(decrypted, plaintext);
}

#[test]
fn test_counter_sequence_uniqueness() {
    let base_nonce = [0xAA; 12];
    let mut derived_nonces = std::collections::HashSet::new();

    for counter in 0..1000u64 {
        let derived = derive_nonce(&base_nonce, counter);
        assert!(
            derived_nonces.insert(derived),
            "Nonce collision at counter {}",
            counter
        );
    }
}

#[test]
fn test_decrypt_too_short() {
    let key = generate_test_key();
    let short_data = vec![0x00u8; 5];

    let result = decrypt(&key, &short_data);
    assert!(result.is_err());
    assert!(result.unwrap_err().message().contains("too short"));
}

#[test]
fn test_invalid_hex_key() {
    let invalid_key = "not_valid_hex!@#$";
    let nonce = generate_test_nonce();
    let plaintext = b"Test";

    let result = encrypt(invalid_key, &nonce, plaintext);
    assert!(result.is_err());
    assert!(result.unwrap_err().message().contains("bad key hex"));
}

#[test]
fn test_invalid_hex_nonce() {
    let key = generate_test_key();
    let invalid_nonce = "not_valid_hex!@#$";
    let plaintext = b"Test";

    let result = encrypt(&key, invalid_nonce, plaintext);
    assert!(result.is_err());
    assert!(result.unwrap_err().message().contains("bad nonce hex"));
}

#[test]
fn test_counter_roundtrip_fixed_vectors() {
    // All-zero key and base nonce, counter 0: encrypt then decrypt recovers
    // the plaintext; the same inputs with counter 1 give a different blob.
    let key = "00".repeat(32);
    let nonce = "00".repeat(12);
    let plaintext = b"spectre";

    let c0 = encrypt_with_counter(&key, &nonce, 0, plaintext).expect("encrypt at counter 0");
    let back = decrypt_with_counter(&key, &nonce, 0, &c0).expect("decrypt at counter 0");
    assert_eq!(back, plaintext.as_slice());

    let c1 = encrypt_with_counter(&key, &nonce, 1, plaintext).expect("encrypt at counter 1");
    assert_ne!(c0, c1, "distinct counters must give distinct ciphertexts");
}

#[test]
fn test_wrong_counter_fails() {
    // A flipped bit in the counter means a different derived nonce, so
    // decryption must fail.
    let key = generate_test_key();
    let nonce = generate_test_nonce();
    let sealed = encrypt_with_counter(&key, &nonce, 7, b"payload").expect("encrypt");
    assert!(decrypt_with_counter(&key, &nonce, 6, &sealed).is_err());
    assert!(decrypt_with_counter(&key, &nonce, 7 | (1 << 40), &sealed).is_err());
    assert!(decrypt_with_counter(&key, &nonce, 7, &sealed).is_ok());
}

#[test]
fn test_error_messages() {
    let key = generate_test_key();
    let nonce = generate_test_nonce();
    let bad = "zz";

    // Each error variant, with the input that brings it.
    assert!(encrypt_with_counter(bad, &nonce, 0, b"x")
        .unwrap_err()
        .message()
        .contains("bad key hex"));
    assert!(encrypt_with_counter(&key, bad, 0, b"x")
        .unwrap_err()
        .message()
        .contains("bad nonce hex"));
    assert!(decrypt(&key, &[0u8; 3]).unwrap_err().message().contains("too short"));
    let garbage = vec![0u8; 64];
    assert!(decrypt_with_counter(&key, &nonce, 0, &garbage)
        .unwrap_err()
        .message()
        .contains("AES-GCM"));
}
