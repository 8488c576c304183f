use vaultsync::crypto::aead::{aead_decrypt, aead_decrypt_with_aad, aead_encrypt, aead_encrypt_with_aad};
use vaultsync::crypto::kdf::{argon2id_derive, hkdf_sha256_derive, hkdf_sha256_extract_expand, Argon2Params};
use vaultsync::crypto::{
    hash_sha256, hex_decode, hex_encode, hmac_sha256_hex, random_bytes, random_key, Sha256,
    AES_GCM_NONCE_LEN, AES_GCM_TAG_LEN,
};

#[test]
fn hex_roundtrip() {
    let data = [0u8, 0x0f, 0xa5, 0xff];
    let hex = hex_encode(&data);
    assert_eq!(hex, "000fa5ff");
    assert_eq!(hex_decode(&hex).as_deref(), Some(data.as_slice()));
    assert_eq!(hex_decode("0f5"), None);
    assert_eq!(hex_decode("zz"), None);
}

#[test]
fn skeleton_ready_is_true() {
    assert!(random_bytes(8).len() == 8);
}

#[test]
fn roundtrip_and_tamper() {
    let key = random_key();
    let mut nonce = [0u8; AES_GCM_NONCE_LEN];
    nonce.copy_from_slice(&random_bytes(AES_GCM_NONCE_LEN));
    let pt = b"master key material 32 bytes!!!!";
    let blob = match aead_encrypt(&key, &nonce, pt) {
        Ok(b) => b,
        Err(e) => panic!("encrypt failed: {e}"),
    };
    assert_eq!(blob.len(), AES_GCM_NONCE_LEN + pt.len() + AES_GCM_TAG_LEN);
    assert_eq!(aead_decrypt(&key, &blob).as_deref(), Some(&pt[..]));
    let mut tampered = blob.clone();
    tampered[AES_GCM_NONCE_LEN] ^= 1;
    assert_eq!(aead_decrypt(&key, &tampered), None);
    assert_eq!(aead_decrypt(&random_key(), &blob), None);
}

#[test]
fn too_short_blob_rejected() {
    let key = random_key();
    assert_eq!(aead_decrypt(&key, &[0u8; 20]), None);
}

#[test]
fn aad_binds_ciphertext() {
    let key = [5u8; 32];
    let nonce = [6u8; 12];
    let blob = aead_encrypt_with_aad(&key, &nonce, b"chunk", b"ctr-0").unwrap();
    assert_eq!(&blob[..12], &nonce);
    assert_eq!(aead_decrypt_with_aad(&key, &blob, b"ctr-0").as_deref(), Some(&b"chunk"[..]));
    assert_eq!(aead_decrypt_with_aad(&key, &blob, b"ctr-1"), None);
}

#[test]
fn rfc5869_test_vector_1() {
    let ikm = [0x0b_u8; 22];
    let salt = [0x00, 0x01, 0x02, 0x03, 0x04, 0x05, 0x06, 0x07, 0x08, 0x09, 0x0a, 0x0b, 0x0c];
    let info = [0xf0_u8, 0xf1, 0xf2, 0xf3, 0xf4, 0xf5, 0xf6, 0xf7, 0xf8, 0xf9];
    let okm = hkdf_sha256_extract_expand(&ikm, &salt, &info);
    let expected: [u8; 32] = [
        0x3c, 0xb2, 0x5f, 0x25, 0xfa, 0xac, 0xd5, 0x7a, 0x90, 0x43, 0x4f, 0x64, 0xd0, 0x36, 0x2f,
        0x2a, 0x2d, 0x2d, 0x0a, 0x90, 0xcf, 0x1a, 0x5a, 0x4c, 0x5d, 0xb0, 0x2d, 0x56, 0xec, 0xc4,
        0xc5, 0xbf,
    ];
    assert_eq!(okm.as_ref(), &expected);
}

#[test]
fn rfc5869_test_vector_3() {
    let ikm = [0x0b_u8; 22];
    let okm = hkdf_sha256_extract_expand(&ikm, &[], &[]);
    let expected: [u8; 32] = [
        0x8d, 0xa4, 0xe7, 0x75, 0xa5, 0x63, 0xc1, 0x8f, 0x71, 0x5f, 0x80, 0x2a, 0x06, 0x3c, 0x5a,
        0x31, 0xb8, 0xa1, 0x1f, 0x5c, 0x5e, 0xe1, 0x87, 0x9e, 0xc3, 0x45, 0x4e, 0x5f, 0x3c, 0x73,
        0x8d, 0x2d,
    ];
    assert_eq!(okm.as_ref(), &expected);
}

#[test]
fn hkdf_context_separation() {
    let ikm = [1u8; 32];
    let fsk = hkdf_sha256_derive(&ikm, b"folder/2026");
    let fsk2 = hkdf_sha256_derive(&ikm, b"folder/2026");
    let other = hkdf_sha256_derive(&ikm, b"folder/2027");
    assert_eq!(fsk.as_ref(), fsk2.as_ref());
    assert_ne!(fsk.as_ref(), other.as_ref());
}

#[test]
fn argon2id_deterministic() {
    let salt = [7u8; 16];
    let derive = |pwd: &str| argon2id_derive(pwd, &salt, &Argon2Params::for_test());
    let a = match derive("correct horse") {
        Ok(k) => k,
        Err(e) => panic!("derive failed: {e}"),
    };
    let b = match derive("correct horse") {
        Ok(k) => k,
        Err(e) => panic!("derive failed: {e}"),
    };
    assert_eq!(a.as_ref(), b.as_ref());
    let c = match derive("wrong") {
        Ok(k) => k,
        Err(e) => panic!("derive failed: {e}"),
    };
    assert_ne!(a.as_ref(), c.as_ref());
}

#[test]
fn argon2_rejects_bad_params() {
    let salt = [7u8; 16];
    let bad = Argon2Params { m_kib: 4, t: 1, p: 1 };
    assert_eq!(argon2id_derive("x", &salt, &bad).unwrap_err(), "invalid argon2 params");
}

#[test]
fn sha256_known_vector() {
    assert_eq!(
        hash_sha256(b"abc"),
        "ba7816bf8f01cfea414140de5dae2223b00361a396177a9cb410ff61f20015ad"
    );
    let mut h = Sha256::new();
    h.update(b"a");
    h.update(b"bc");
    assert_eq!(h.finalize_hex(), hash_sha256(b"abc"));
}

#[test]
fn hmac_sha256_rfc4231_case_2() {
    assert_eq!(
        hmac_sha256_hex(b"Jefe", b"what do ya want for nothing?"),
        "5bdcc146bf60754e6a042426089575c75a003f089d2739839dec58b964ec3843"
    );
}
