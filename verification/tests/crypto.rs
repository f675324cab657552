use inkstone::crypto::{
    decode_encrypted_file, derive_index_key, derive_kek_from_password, derive_kek_from_recovery,
    encode_encrypted_file, format_recovery_code, generate_recovery_code, open, parse_recovery_code, random_bytes,
    random_token_hex, seal, Argon2Params, MK_LEN, SALT_LEN,
};

// Fast, insecure Argon2 parameters for tests only.
const TEST_ARGON2_PARAMS: Argon2Params = Argon2Params {
    memory_kib: 8,
    iterations: 1,
    parallelism: 1,
};

#[test]
fn seal_open_roundtrip() {
    let key = random_bytes::<32>();
    let envelope = seal(&key, b"hello inkstone");
    let plaintext = open(&key, &envelope.nonce, &envelope.ciphertext).unwrap();
    assert_eq!(plaintext, b"hello inkstone");
}

#[test]
fn open_rejects_wrong_key() {
    let key = random_bytes::<32>();
    let other_key = random_bytes::<32>();
    let envelope = seal(&key, b"secret");
    assert!(open(&other_key, &envelope.nonce, &envelope.ciphertext).is_err());
}

#[test]
fn open_rejects_tampered_ciphertext() {
    let key = random_bytes::<32>();
    let mut envelope = seal(&key, b"secret");
    let last = envelope.ciphertext.len() - 1;
    envelope.ciphertext[last] ^= 0xFF;
    assert!(open(&key, &envelope.nonce, &envelope.ciphertext).is_err());
}

#[test]
fn nonces_are_not_reused() {
    let key = random_bytes::<32>();
    let a = seal(&key, b"one");
    let b = seal(&key, b"two");
    assert_ne!(a.nonce, b.nonce);
}

#[test]
fn password_kek_is_deterministic_for_same_inputs() {
    let salt = random_bytes::<SALT_LEN>();
    let params = TEST_ARGON2_PARAMS;
    let a = derive_kek_from_password("correct horse", &salt, &params).unwrap();
    let b = derive_kek_from_password("correct horse", &salt, &params).unwrap();
    assert_eq!(a, b);
}

#[test]
fn password_kek_differs_for_different_passwords() {
    let salt = random_bytes::<SALT_LEN>();
    let params = TEST_ARGON2_PARAMS;
    let a = derive_kek_from_password("password one", &salt, &params).unwrap();
    let b = derive_kek_from_password("password two", &salt, &params).unwrap();
    assert_ne!(a, b);
}

#[test]
fn recovery_kek_matches_between_generation_and_reentry() {
    let salt = random_bytes::<SALT_LEN>();
    let (code_str, code_bytes) = generate_recovery_code();
    let reparsed = parse_recovery_code(&code_str).unwrap();
    assert_eq!(code_bytes, reparsed);

    let a = derive_kek_from_recovery(&code_bytes, &salt);
    let b = derive_kek_from_recovery(&reparsed, &salt);
    assert_eq!(a, b);
}

#[test]
fn recovery_code_parse_is_case_and_whitespace_tolerant() {
    let (code_str, code_bytes) = generate_recovery_code();
    let messy = format!("  {} \n", code_str.to_lowercase());
    assert_eq!(parse_recovery_code(&messy).unwrap(), code_bytes);
}

#[test]
fn recovery_code_parse_rejects_garbage() {
    assert!(parse_recovery_code("not-a-real-code").is_err());
}

#[test]
fn encrypted_file_roundtrip() {
    let mk = random_bytes::<MK_LEN>();
    let encoded = encode_encrypted_file(&mk, b"top secret document body");
    let decoded = decode_encrypted_file(&mk, &encoded).unwrap();
    assert_eq!(decoded, b"top secret document body");
}

#[test]
fn encrypted_file_rejects_wrong_mk() {
    let mk = random_bytes::<MK_LEN>();
    let other_mk = random_bytes::<MK_LEN>();
    let encoded = encode_encrypted_file(&mk, b"secret");
    assert!(decode_encrypted_file(&other_mk, &encoded).is_err());
}

#[test]
fn encrypted_file_rejects_truncated_input() {
    let mk = random_bytes::<MK_LEN>();
    let encoded = encode_encrypted_file(&mk, b"secret");
    assert!(decode_encrypted_file(&mk, &encoded[..10]).is_err());
}

#[test]
fn encrypted_file_rejects_bad_magic() {
    let mk = random_bytes::<MK_LEN>();
    let mut encoded = encode_encrypted_file(&mk, b"secret");
    encoded[0] = b'X';
    assert!(decode_encrypted_file(&mk, &encoded).is_err());
}

#[test]
fn encrypted_file_each_dek_is_independent() {
    let mk = random_bytes::<MK_LEN>();
    let a = encode_encrypted_file(&mk, b"same plaintext");
    let b = encode_encrypted_file(&mk, b"same plaintext");
    // Independent random DEK + nonces per file, even for identical plaintext.
    assert_ne!(a, b);
}

#[test]
fn index_key_differs_per_vault_id() {
    let mk = random_bytes::<MK_LEN>();
    let a = derive_index_key(&mk, "vault-a");
    let b = derive_index_key(&mk, "vault-b");
    assert_ne!(a, b);
}

#[test]
fn decode_reports_each_header_error_exactly() {
    let mk = random_bytes::<MK_LEN>();
    assert_eq!(
        decode_encrypted_file(&mk, &[0u8; 100]).unwrap_err(),
        "corrupted encrypted file: too short"
    );
    let mut encoded = encode_encrypted_file(&mk, b"body");
    assert_eq!(encoded.len(), 101 + 4 + 16);
    assert_eq!(&encoded[0..5], b"INKD\x01");
    encoded[4] = 2;
    assert_eq!(
        decode_encrypted_file(&mk, &encoded).unwrap_err(),
        "encrypted file requires a newer version of Inkstone (formatVersion 2)"
    );
    encoded[1] = b'X';
    assert_eq!(
        decode_encrypted_file(&mk, &encoded).unwrap_err(),
        "corrupted encrypted file: bad magic"
    );
}

#[test]
fn open_failure_message_is_fixed() {
    let key = random_bytes::<32>();
    let envelope = seal(&key, b"secret");
    assert_eq!(envelope.ciphertext.len(), 6 + 16);
    let wrong = random_bytes::<32>();
    assert_eq!(
        open(&wrong, &envelope.nonce, &envelope.ciphertext).unwrap_err(),
        "decryption failed: wrong key or corrupted data"
    );
}

#[test]
fn invalid_argon2_parameters_are_reported() {
    let salt = random_bytes::<SALT_LEN>();
    let params = Argon2Params {
        memory_kib: 8,
        iterations: 0,
        parallelism: 1,
    };
    let error = derive_kek_from_password("pw", &salt, &params).unwrap_err();
    assert!(error.starts_with("invalid Argon2 parameters: "));
}

#[test]
fn default_argon2_parameters() {
    let params = Argon2Params::default();
    assert_eq!(params.memory_kib, 65536);
    assert_eq!(params.iterations, 3);
    assert_eq!(params.parallelism, 4);
}

#[test]
fn recovery_code_of_zero_bytes() {
    let code = format_recovery_code(&[0u8; 20]);
    assert_eq!(code, "0000-0000-0000-0000-0000-0000-0000-0000");
    assert_eq!(parse_recovery_code(&code).unwrap(), [0u8; 20]);
}

#[test]
fn recovery_code_shape_and_confusables() {
    let code = format_recovery_code(&[0xFFu8; 20]);
    assert_eq!(code, "ZZZZ-ZZZZ-ZZZZ-ZZZZ-ZZZZ-ZZZZ-ZZZZ-ZZZZ");
    // O reads as 0, and I and L as 1; dashes may go anywhere.
    let mut bytes = [0u8; 20];
    bytes[19] = 1;
    let code = format_recovery_code(&bytes);
    assert_eq!(code, "0000-0000-0000-0000-0000-0000-0000-0001");
    assert_eq!(
        parse_recovery_code("OOOO0000-oooo-0000-0000-0000-0000-000l").unwrap(),
        bytes
    );
    assert_eq!(
        parse_recovery_code("0000-0000-0000-0000-0000-0000-0000-000I").unwrap(),
        bytes
    );
}

#[test]
fn recovery_code_wrong_length_is_rejected() {
    assert_eq!(
        parse_recovery_code("0000-0000").unwrap_err(),
        "invalid recovery code length"
    );
    assert_eq!(parse_recovery_code("U000").unwrap_err(), "invalid recovery code");
}

#[test]
fn random_token_is_lowercase_hex() {
    let token = random_token_hex();
    assert_eq!(token.len(), 32);
    assert!(token.chars().all(|c| c.is_ascii_digit() || ('a'..='f').contains(&c)));
}

#[test]
fn generated_code_is_eight_groups_of_crockford_symbols() {
    let (code, bytes) = generate_recovery_code();
    assert_eq!(code, format_recovery_code(&bytes));
    assert_eq!(code.len(), 39);
    let groups: Vec<&str> = code.split('-').collect();
    assert_eq!(groups.len(), 8);
    for group in groups {
        assert_eq!(group.len(), 4);
        assert!(group.chars().all(|c| "0123456789ABCDEFGHJKMNPQRSTVWXYZ".contains(c)));
    }
}
