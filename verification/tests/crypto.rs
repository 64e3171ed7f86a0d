use haven_transfer::crypto::{
    build_iv, decrypt_chunk, derive_aes_key, derive_session_key, encrypt_chunk,
    encrypt_chunk_with_nonce, make_nonce, DecryptError, EncryptError, KeyError, TransferCrypto,
    IV_SIZE, KEY_SIZE, TAG_SIZE,
};
use haven_transfer::hashing::{sha256, sha256_hex, FileHasher};

fn unhex(s: &str) -> Vec<u8> {
    hex::decode(s).unwrap()
}

fn test_key() -> [u8; KEY_SIZE] {
    let mut key = [0u8; KEY_SIZE];
    key[0] = 0xAA;
    key[31] = 0xBB;
    key
}

#[test]
fn crypto_encrypt_decrypt_roundtrip() {
    let master = test_key();
    let salt = TransferCrypto::random_salt();
    let crypto = TransferCrypto::new(&master, &salt);

    let plaintext = b"hello haven transfer protocol";
    let encrypted = crypto.encrypt(1, 42, plaintext).unwrap();

    // Encrypted should be IV(12) + ciphertext(29) + tag(16) = 57 bytes
    assert_eq!(encrypted.len(), IV_SIZE + plaintext.len() + TAG_SIZE);

    let decrypted = crypto.decrypt(1, 42, &encrypted).unwrap();
    assert_eq!(decrypted, plaintext);
}

#[test]
fn wrong_sequence_fails() {
    let master = test_key();
    let salt = TransferCrypto::random_salt();
    let crypto = TransferCrypto::new(&master, &salt);

    let encrypted = crypto.encrypt(1, 42, b"data").unwrap();
    // Try decrypting with wrong sequence — IV mismatch
    assert!(crypto.decrypt(1, 43, &encrypted).is_err());
}

#[test]
fn tampered_data_fails() {
    let master = test_key();
    let salt = TransferCrypto::random_salt();
    let crypto = TransferCrypto::new(&master, &salt);

    let mut encrypted = crypto.encrypt(1, 1, b"sensitive data").unwrap();
    // Flip a byte in the ciphertext
    let mid = IV_SIZE + 5;
    encrypted[mid] ^= 0xFF;
    assert!(crypto.decrypt(1, 1, &encrypted).is_err());
}

#[test]
fn different_sessions_different_ciphertext() {
    let master = test_key();
    let salt1 = TransferCrypto::random_salt();
    let salt2 = TransferCrypto::random_salt();
    let c1 = TransferCrypto::new(&master, &salt1);
    let c2 = TransferCrypto::new(&master, &salt2);

    let e1 = c1.encrypt(1, 1, b"same data").unwrap();
    let e2 = c2.encrypt(1, 1, b"same data").unwrap();
    // Different salts → different session keys → different ciphertext
    assert_ne!(e1, e2);
}

#[test]
fn empty_plaintext() {
    let master = test_key();
    let salt = TransferCrypto::random_salt();
    let crypto = TransferCrypto::new(&master, &salt);

    let encrypted = crypto.encrypt(1, 0, b"").unwrap();
    assert_eq!(encrypted.len(), IV_SIZE + TAG_SIZE); // just IV + tag
    let decrypted = crypto.decrypt(1, 0, &encrypted).unwrap();
    assert!(decrypted.is_empty());
}

#[test]
fn chunk_nonce_is_zero_prefix_and_big_endian_index() {
    assert_eq!(make_nonce(0), [0u8; 12]);
    assert_eq!(make_nonce(1), [0, 0, 0, 0, 0, 0, 0, 0, 0, 0, 0, 1]);
    assert_eq!(make_nonce(0x01020304), [0, 0, 0, 0, 0, 0, 0, 0, 1, 2, 3, 4]);
    assert_eq!(make_nonce(u32::MAX), [0, 0, 0, 0, 0, 0, 0, 0, 0xFF, 0xFF, 0xFF, 0xFF]);
}

#[test]
fn chunk_nonces_differ_for_different_indices() {
    let indices = [0u32, 1, 2, 255, 256, 65535, 65536, 0x0100_0000, u32::MAX - 1, u32::MAX];
    for (a, i) in indices.iter().enumerate() {
        for (b, j) in indices.iter().enumerate() {
            assert_eq!(make_nonce(*i) == make_nonce(*j), a == b);
        }
    }
}

#[test]
fn packet_iv_is_session_then_sequence() {
    assert_eq!(build_iv(1, 42), [0, 0, 0, 1, 0, 0, 0, 0, 0, 0, 0, 42]);
    assert_eq!(
        build_iv(0xDEADBEEF, 0x0102030405060708),
        [0xDE, 0xAD, 0xBE, 0xEF, 1, 2, 3, 4, 5, 6, 7, 8]
    );
    assert_ne!(build_iv(1, 2), build_iv(2, 1));
}

#[test]
fn sealed_chunk_matches_aes_256_gcm_vectors() {
    let zero = [0u8; 32];
    // empty plaintext under the zero key and nonce: the tag alone
    assert_eq!(
        encrypt_chunk(&zero, &[], 0).unwrap(),
        unhex("000000000000000000000000530f8afbc74536b9a963b4f1c4cb738b")
    );
    // one zero block
    assert_eq!(
        encrypt_chunk(&zero, &[0u8; 16], 0).unwrap(),
        unhex("000000000000000000000000cea7403d4d606b6e074ec5d3baf39d18d0d1c8a799996bf0265b98b5d48ab919")
    );
    assert_eq!(
        encrypt_chunk(&zero, b"hello", 5).unwrap(),
        unhex("00000000000000000000000589a17287d279961f47b89099e63d052a58d2158af5")
    );
    assert_eq!(
        encrypt_chunk_with_nonce(&zero, b"hello", make_nonce(5)).unwrap(),
        encrypt_chunk(&zero, b"hello", 5).unwrap()
    );
}

#[test]
fn sealed_chunk_opens_to_its_plaintext() {
    let key = derive_session_key(&test_key(), "00000001");
    let plaintext: Vec<u8> = (0..5000u32).map(|i| (i % 251) as u8).collect();
    let sealed = encrypt_chunk(&key, &plaintext, 3).unwrap();
    assert_eq!(sealed.len(), plaintext.len() + 28);
    assert_eq!(&sealed[..12], &make_nonce(3));
    assert_ne!(&sealed[12..12 + plaintext.len()], &plaintext[..]);
    assert_eq!(decrypt_chunk(&key, &sealed, 3).unwrap(), plaintext);
}

#[test]
fn chunk_open_errors() {
    let key = [7u8; 32];
    let sealed = encrypt_chunk(&key, b"payload", 9).unwrap();
    assert_eq!(decrypt_chunk(&key, &sealed[..27], 9), Err(DecryptError::TooShort));
    assert_eq!(decrypt_chunk(&key, &[], 9), Err(DecryptError::TooShort));
    // the nonce in front is not the one of the index asked for
    assert_eq!(decrypt_chunk(&key, &sealed, 10), Err(DecryptError::IvMismatch));
    let mut forged = sealed.clone();
    forged[20] ^= 1;
    assert_eq!(decrypt_chunk(&key, &forged, 9), Err(DecryptError::AuthFailed));
    let other = [8u8; 32];
    assert_eq!(decrypt_chunk(&other, &sealed, 9), Err(DecryptError::AuthFailed));
    assert_eq!(decrypt_chunk(&key, &sealed, 9).unwrap(), b"payload");
}

#[test]
fn packet_sealing_exact_bytes_and_errors() {
    let crypto = TransferCrypto::from_session_key(&[0u8; 32]);
    let sealed = crypto.encrypt(1, 42, b"data").unwrap();
    assert_eq!(sealed, unhex("00000001000000000000002a097225ef75f55161b9d13312db72fd8439988869"));
    assert_eq!(crypto.decrypt(1, 42, &sealed).unwrap(), b"data");
    assert_eq!(crypto.decrypt(1, 43, &sealed), Err(DecryptError::IvMismatch));
    assert_eq!(crypto.decrypt(2, 42, &sealed), Err(DecryptError::IvMismatch));
    assert_eq!(crypto.decrypt(1, 42, &sealed[..27]), Err(DecryptError::TooShort));
    let mut forged = sealed.clone();
    forged[31] ^= 0x80;
    assert_eq!(crypto.decrypt(1, 42, &forged), Err(DecryptError::AuthFailed));
    let other = TransferCrypto::from_session_key(&[1u8; 32]);
    assert_eq!(other.decrypt(1, 42, &sealed), Err(DecryptError::AuthFailed));
}

#[test]
fn packet_key_is_hkdf_with_the_transfer_info() {
    // HKDF-SHA256(salt = 32 zero bytes, ikm = key, info = "haven-transfer")
    let crypto = TransferCrypto::new(&test_key(), &[0u8; 32]);
    let sealed = crypto.encrypt(1, 42, b"data").unwrap();
    assert_eq!(sealed, unhex("00000001000000000000002a0447f13d1c4639b95dd826947ea8aca5c7c0a4e8"));
    let same = TransferCrypto::from_session_key(
        &unhex("436633c6388cafc17c85eab1ec5783711ad1fcc49856c9034e17ef2d4ad357a6")
            .try_into()
            .unwrap(),
    );
    assert_eq!(same.decrypt(1, 42, &sealed).unwrap(), b"data");
}

#[test]
fn session_key_is_hkdf_with_zero_salt_and_file_info() {
    let mut master = [0u8; 32];
    master[0] = 0xDE;
    master[31] = 0xAD;
    assert_eq!(
        derive_session_key(&master, "00000001").to_vec(),
        unhex("8f4bc0f0c586a79067ee54e396c7a5e5b9c8b1f6a1e1ea273269dd28a72e7b08")
    );
    assert_eq!(
        derive_session_key(&master, "abc").to_vec(),
        unhex("a6adf8980c1ff78e96515c8df1a5ed18025e85e35610c38826af2a0b70bdb100")
    );
    assert_eq!(
        derive_session_key(&master, "0123456789abcdef0123456789abcdef").to_vec(),
        unhex("2165f3e4ccdb35928a896e9b95fac6b56cca96b163a8ddb73d01e2e9cbe3a807")
    );
    assert_ne!(derive_session_key(&master, "abc").to_vec(), master.to_vec());
}

#[test]
fn session_key_from_base64() {
    let mut master = [0u8; 32];
    master[0] = 0xDE;
    master[31] = 0xAD;
    let text = "3gAAAAAAAAAAAAAAAAAAAAAAAAAAAAAAAAAAAAAAAK0=";
    assert_eq!(derive_aes_key(text, "abc"), Ok(derive_session_key(&master, "abc")));
    assert_eq!(derive_aes_key("not base64!", "abc"), Err(KeyError::InvalidBase64));
    assert_eq!(derive_aes_key("3gAAA", "abc"), Err(KeyError::InvalidBase64));
    // the key material is the decoded bytes, not the text
    assert_ne!(
        derive_aes_key(text, "abc").unwrap(),
        derive_session_key(text.as_bytes(), "abc")
    );
}

#[test]
fn random_salts_differ() {
    let a = TransferCrypto::random_salt();
    let b = TransferCrypto::random_salt();
    assert_ne!(a, b);
    assert_ne!(a, [0u8; 32]);
}

#[test]
fn error_messages() {
    assert_eq!(EncryptError.message(), "encryption failed");
    assert_eq!(DecryptError::TooShort.message(), "encrypted payload too short");
    assert_eq!(
        DecryptError::IvMismatch.message(),
        "IV does not match expected session/sequence"
    );
    assert_eq!(
        DecryptError::AuthFailed.message(),
        "GCM authentication failed — data corrupted or tampered"
    );
}

#[test]
fn sha256_known_answers() {
    assert_eq!(
        sha256_hex(b"abc"),
        "ba7816bf8f01cfea414140de5dae2223b00361a396177a9cb410ff61f20015ad"
    );
    assert_eq!(
        sha256_hex(b""),
        "e3b0c44298fc1c149afbf4c8996fb92427ae41e4649b934ca495991b7852b855"
    );
    assert_eq!(
        sha256(b"abc").to_vec(),
        unhex("ba7816bf8f01cfea414140de5dae2223b00361a396177a9cb410ff61f20015ad")
    );
}

#[test]
fn streaming_hash_is_hash_of_concatenation() {
    let mut h = FileHasher::new();
    h.update(b"a");
    h.update(b"");
    h.update(b"bc");
    assert_eq!(h.finish(), sha256(b"abc"));
    assert_eq!(FileHasher::new().finish(), sha256(b""));
}
