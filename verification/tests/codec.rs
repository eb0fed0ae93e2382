//! End-to-end tests of the encrypted container codec: round trips, random
//! header freshness, rejection of wrong passwords, tampering and truncation,
//! and first-use creation.

use wallet::{CodecError, Wallet};

fn sample_wallet() -> Wallet {
    let mut w = Wallet::new();
    w.add("email".to_string(), "a@b.com".to_string());
    w.add("token".to_string(), "xyz123".to_string());
    w
}

#[test]
fn round_trip_empty_collection() {
    let w = Wallet::new();
    let bytes = w.to_encrypted_bytes("pw").unwrap();
    assert_eq!(bytes.len(), 44);
    let loaded = Wallet::from_encrypted_bytes(&bytes, "pw").unwrap();
    assert!(loaded.get_keys().is_empty());
}

#[test]
fn round_trip_keeps_all_entries() {
    let mut w = Wallet::new();
    w.add("alpha".to_string(), "1".to_string());
    w.add("beta".to_string(), "two".to_string());
    w.add("gamma".to_string(), "-3-".to_string());
    let bytes = w.to_encrypted_bytes("secret").unwrap();
    let loaded = Wallet::from_encrypted_bytes(&bytes, "secret").unwrap();
    assert_eq!(loaded.get_keys(), vec!["alpha", "beta", "gamma"]);
    assert_eq!(loaded.get(&"alpha".to_string()), Some(&"1".to_string()));
    assert_eq!(loaded.get(&"beta".to_string()), Some(&"two".to_string()));
    assert_eq!(loaded.get(&"gamma".to_string()), Some(&"-3-".to_string()));
}

#[test]
fn round_trip_non_ascii_text() {
    let mut w = Wallet::new();
    w.add("greeting".to_string(), "grüß dich wörld ✓".to_string());
    let bytes = w.to_encrypted_bytes("pässword").unwrap();
    let loaded = Wallet::from_encrypted_bytes(&bytes, "pässword").unwrap();
    assert_eq!(
        loaded.get(&"greeting".to_string()),
        Some(&"grüß dich wörld ✓".to_string())
    );
}

#[test]
fn round_trip_empty_value() {
    let mut w = Wallet::new();
    w.add("empty".to_string(), "".to_string());
    let bytes = w.to_encrypted_bytes("pw").unwrap();
    let loaded = Wallet::from_encrypted_bytes(&bytes, "pw").unwrap();
    assert_eq!(loaded.get(&"empty".to_string()), Some(&"".to_string()));
}

#[test]
fn output_length_is_header_plus_plaintext_plus_tag() {
    let w = sample_wallet();
    // plaintext: "email:a@b.com\n" (14) + "token:xyz123\n" (13)
    let bytes = w.to_encrypted_bytes("pw").unwrap();
    assert_eq!(bytes.len(), 28 + 14 + 13 + 16);
}

#[test]
fn successive_saves_differ_everywhere() {
    let w = sample_wallet();
    let a = w.to_encrypted_bytes("pw").unwrap();
    let b = w.to_encrypted_bytes("pw").unwrap();
    assert_eq!(a.len(), b.len());
    assert_ne!(&a[0..16], &b[0..16], "salts must be fresh per save");
    assert_ne!(&a[16..28], &b[16..28], "nonces must be fresh per save");
    assert_ne!(&a[28..], &b[28..], "ciphertexts must differ byte-for-byte");
}

#[test]
fn wrong_password_is_rejected() {
    let w = sample_wallet();
    let bytes = w.to_encrypted_bytes("right-password").unwrap();
    let r = Wallet::from_encrypted_bytes(&bytes, "wrong-password");
    assert!(matches!(r, Err(CodecError::Unauthentic)));
}

#[test]
fn any_flipped_ciphertext_byte_is_detected() {
    let mut w = Wallet::new();
    w.add("k".to_string(), "v".to_string());
    let bytes = w.to_encrypted_bytes("pw").unwrap();
    for i in 28..bytes.len() {
        let mut corrupted = bytes.clone();
        corrupted[i] ^= 0x01;
        let r = Wallet::from_encrypted_bytes(&corrupted, "pw");
        assert!(
            matches!(r, Err(CodecError::Unauthentic)),
            "flipping byte {} went undetected",
            i
        );
    }
}

#[test]
fn truncation_is_detected_before_decryption() {
    let w = sample_wallet();
    let bytes = w.to_encrypted_bytes("pw").unwrap();
    for len in [0, 1, 5, 15, 16, 27] {
        let r = Wallet::from_encrypted_bytes(&bytes[..len], "pw");
        assert!(
            matches!(r, Err(CodecError::Truncated)),
            "length {} must be refused as truncated",
            len
        );
    }
    // 28 bytes reach the cipher, which then refuses the empty ciphertext
    let r = Wallet::from_encrypted_bytes(&bytes[..28], "pw");
    assert!(matches!(r, Err(CodecError::Unauthentic)));
}

#[test]
fn first_use_creates_empty_store() {
    let (w, file) = wallet::crypto::load_or_init(None, "pw").unwrap();
    assert!(w.get_keys().is_empty());
    let file = file.expect("a fresh save must be handed back");
    let again = Wallet::from_encrypted_bytes(&file, "pw").unwrap();
    assert!(again.get_keys().is_empty());
    let r = Wallet::from_encrypted_bytes(&file, "other");
    assert!(matches!(r, Err(CodecError::Unauthentic)));
}

#[test]
fn load_or_init_reads_existing_file() {
    let w = sample_wallet();
    let bytes = w.to_encrypted_bytes("pw").unwrap();
    let (loaded, file) = wallet::crypto::load_or_init(Some(&bytes), "pw").unwrap();
    assert!(file.is_none());
    assert_eq!(loaded.get(&"token".to_string()), Some(&"xyz123".to_string()));
    let r = wallet::crypto::load_or_init(Some(&bytes), "nope");
    assert!(matches!(r, Err(CodecError::Unauthentic)));
}

#[test]
fn ambiguous_value_line_is_skipped_on_reload() {
    let mut w = Wallet::new();
    w.add("plain".to_string(), "fine".to_string());
    w.add("odd".to_string(), "a:b".to_string());
    let bytes = w.to_encrypted_bytes("pw").unwrap();
    let loaded = Wallet::from_encrypted_bytes(&bytes, "pw").unwrap();
    assert_eq!(loaded.get(&"plain".to_string()), Some(&"fine".to_string()));
    assert_eq!(loaded.get(&"odd".to_string()), None);
}

#[test]
fn saved_file_does_not_leak_plaintext() {
    let w = sample_wallet();
    let bytes = w.to_encrypted_bytes("pw").unwrap();
    let needle = b"email:a@b.com";
    let leaked = bytes.windows(needle.len()).any(|win| win == needle);
    assert!(!leaked, "serialized plaintext must not appear in the file");
}

#[test]
fn concrete_scenario() {
    let mut w = Wallet::new();
    w.add("email".to_string(), "a@b.com".to_string());
    w.add("token".to_string(), "xyz123".to_string());
    let bytes = w.to_encrypted_bytes("correct-horse").unwrap();

    let loaded = Wallet::from_encrypted_bytes(&bytes, "correct-horse").unwrap();
    assert_eq!(loaded.get(&"email".to_string()), Some(&"a@b.com".to_string()));
    assert_eq!(loaded.get(&"token".to_string()), Some(&"xyz123".to_string()));

    let r = Wallet::from_encrypted_bytes(&bytes, "wrong-password");
    assert!(matches!(r, Err(CodecError::Unauthentic)));

    let mut corrupted = bytes.clone();
    corrupted[30] ^= 0xff;
    let r = Wallet::from_encrypted_bytes(&corrupted, "correct-horse");
    assert!(matches!(r, Err(CodecError::Unauthentic)));
}
