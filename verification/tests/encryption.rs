use ya_relay_client::encryption::{
    new, supported_encryptions, Aes256GcmSivEncryption, Encryption, EncryptionFeatures,
    EncryptionType, SessionEncryption, AES_256_GCM_SIV_CIPHERTEXT_EXPANSION,
};

const DISABLED: EncryptionFeatures = EncryptionFeatures {
    enabled: false,
    strict: false,
};
const ENABLED: EncryptionFeatures = EncryptionFeatures {
    enabled: true,
    strict: false,
};
const STRICT: EncryptionFeatures = EncryptionFeatures {
    enabled: true,
    strict: true,
};

#[test]
fn does_not_negotiate_encryption_when_feature_is_disabled() {
    let encryption = new(DISABLED, &vec!["Aes256GcmSiv".to_string()], Some([7; 32]));
    let encryption = match encryption {
        Ok(e) => e,
        Err(_) => panic!("refused"),
    };

    assert!(!encryption.encryption_flag());
}

#[test]
fn negotiates_supported_encryption_when_feature_is_enabled() {
    let encryption = new(ENABLED, &vec!["Aes256GcmSiv".to_string()], Some([7; 32]));
    let encryption = match encryption {
        Ok(e) => e,
        Err(_) => panic!("refused"),
    };

    assert!(encryption.encryption_flag());
}

#[test]
fn falls_back_to_plaintext_when_peer_does_not_support_encryption() {
    let encryption = match new(ENABLED, &vec![], None) {
        Ok(e) => e,
        Err(_) => panic!("refused"),
    };

    assert!(!encryption.encryption_flag());
    let packet = vec![1, 2, 3];
    assert_eq!(encryption.encrypt(packet.clone()).ok(), Some(packet.clone()));
    assert_eq!(encryption.decrypt(packet.clone()).ok(), Some(packet));
}

#[test]
fn rejects_peer_without_session_encryption() {
    match new(STRICT, &vec![], None) {
        Ok(_) => panic!("accepted"),
        Err(e) => assert_eq!(
            e.to_text(),
            "Peer does not support required session encryption"
        ),
    }
}

#[test]
fn rejects_peer_that_offers_other_encryption() {
    assert!(new(STRICT, &vec!["Rot13".to_string()], Some([1; 32])).is_err());
    assert!(new(STRICT, &vec!["Aes256GcmSiv".to_string()], None).is_err());
    assert!(new(STRICT, &vec!["Aes256GcmSiv".to_string()], Some([1; 32])).is_ok());
}

#[test]
fn rejects_truncated_encrypted_payloads() {
    let encryption = Aes256GcmSivEncryption::new([42; 32]);

    for len in [0, 11, 12, 27] {
        let result = encryption.decrypt(vec![0; len]);
        assert!(result.is_err(), "payload of length {} was accepted", len);
        let text = result.err().map(|e| e.to_text());
        assert_eq!(
            text,
            Some(format!(
                "Encrypted payload is too short: expected at least 28 bytes, got {}",
                len
            ))
        );
    }
}

#[test]
fn encrypts_and_decrypts_payload() {
    let encryption = Aes256GcmSivEncryption::new([42; 32]);
    let plaintext = b"hello".to_vec();

    let encrypted = match encryption.encrypt(plaintext.clone()) {
        Ok(e) => e,
        Err(_) => panic!("not encrypted"),
    };
    assert_eq!(
        encrypted.len(),
        plaintext.len() + AES_256_GCM_SIV_CIPHERTEXT_EXPANSION
    );
    assert_ne!(&encrypted[12..17], plaintext.as_slice());
    let decrypted = encryption.decrypt(encrypted).ok();

    assert_eq!(decrypted, Some(plaintext));
}

#[test]
fn refuses_payload_with_wrong_tag() {
    let encryption = Aes256GcmSivEncryption::new([42; 32]);
    let mut encrypted = match encryption.encrypt_with_nonce([3; 12], b"hello".to_vec()) {
        Ok(e) => e,
        Err(_) => panic!("not encrypted"),
    };
    assert_eq!(&encrypted[..12], &[3; 12]);
    let last = encrypted.len() - 1;
    encrypted[last] ^= 1;
    assert_eq!(
        encryption.decrypt(encrypted.clone()).err().map(|e| e.to_text()),
        Some("aead::Error".to_string())
    );
    encrypted[last] ^= 1;
    let other = Aes256GcmSivEncryption::new([43; 32]);
    assert!(other.decrypt(encrypted.clone()).is_err());
    assert_eq!(
        SessionEncryption::Aes256GcmSiv(encryption).decrypt(encrypted).ok(),
        Some(b"hello".to_vec())
    );
}

#[test]
fn nonces_are_fresh() {
    let encryption = Aes256GcmSivEncryption::new([42; 32]);
    let first = encryption.encrypt(b"hello".to_vec()).ok();
    let second = encryption.encrypt(b"hello".to_vec()).ok();
    assert_ne!(first, second);
}

#[test]
fn offers_encryption_only_when_enabled() {
    assert_eq!(
        supported_encryptions(ENABLED),
        vec![EncryptionType::Aes256GcmSiv.as_str().to_string()]
    );
    assert!(supported_encryptions(DISABLED).is_empty());
}

#[test]
fn both_sides_of_an_agreement_open_what_the_other_sealed() {
    let agree = |secret| {
        new(ENABLED, &supported_encryptions(STRICT), Some(secret)).ok().unwrap()
    };
    let (here, there, other) = (agree([7; 32]), agree([7; 32]), agree([8; 32]));
    let packet = here.encrypt(vec![1, 2, 3]).ok().unwrap();
    assert_eq!(there.decrypt(packet.clone()).ok(), Some(vec![1, 2, 3]));
    assert_eq!(other.decrypt(packet).err().map(|e| e.to_text()), Some("aead::Error".to_string()));
}
