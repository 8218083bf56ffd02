use std::collections::HashSet;

use flowsync_core::codec::{deserialize_task, serialize_task};
use flowsync_core::{
    DecryptError, EncryptionService, Key, Task, TaskPriority, TaskStatus,
};

fn key_a() -> Key {
    Key::from_bytes([0x11; 32])
}

fn key_b() -> Key {
    Key::from_bytes([0x22; 32])
}

#[test]
fn encrypt_decrypt_round_trip() {
    let payloads: [&[u8]; 4] = [b"", b"x", b"Buy milk", &[0u8; 1000]];
    for p in payloads {
        let blob = EncryptionService::encrypt(p, &key_a()).unwrap();
        assert_eq!(blob.len(), p.len() + 28);
        let back = EncryptionService::decrypt(&blob, &key_a()).unwrap();
        assert_eq!(back, p.to_vec());
    }
}

#[test]
fn concrete_scenario_buy_milk() {
    let blob = EncryptionService::encrypt(b"Buy milk", &key_a()).unwrap();
    let back = EncryptionService::decrypt(&blob, &key_a()).unwrap();
    assert_eq!(back, b"Buy milk".to_vec());
    assert_eq!(
        EncryptionService::decrypt(&blob, &key_b()),
        Err(DecryptError::AuthenticationFailed)
    );
}

#[test]
fn wrong_key_is_rejected() {
    let blob = EncryptionService::encrypt(b"secret notes", &key_a()).unwrap();
    let r = EncryptionService::decrypt(&blob, &key_b());
    assert_eq!(r, Err(DecryptError::AuthenticationFailed));
}

#[test]
fn ciphertext_is_not_the_plaintext() {
    let p = b"sensitive description";
    let blob = EncryptionService::encrypt(p, &key_a()).unwrap();
    assert!(!blob
        .windows(p.len())
        .any(|w| w == p.as_slice()));
}

#[test]
fn nonces_are_unique_across_many_calls() {
    let key = key_a();
    let mut seen: HashSet<[u8; 12]> = HashSet::new();
    for _ in 0..10_000 {
        let blob = EncryptionService::encrypt(b"same payload", &key).unwrap();
        let mut nonce = [0u8; 12];
        nonce.copy_from_slice(&blob[..12]);
        assert!(seen.insert(nonce), "nonce repeated across encrypt calls");
    }
}

#[test]
fn any_single_bit_flip_is_detected() {
    let p = b"tamper with me";
    let key = key_a();
    let blob = EncryptionService::encrypt(p, &key).unwrap();
    for byte in 0..blob.len() {
        for bit in 0..8 {
            let mut tampered = blob.clone();
            tampered[byte] ^= 1 << bit;
            let r = EncryptionService::decrypt(&tampered, &key);
            assert_eq!(
                r,
                Err(DecryptError::AuthenticationFailed),
                "flipping bit {bit} of byte {byte} was not detected"
            );
        }
    }
}

#[test]
fn truncation_is_never_accepted() {
    let blob = EncryptionService::encrypt(b"a payload long enough", &key_a()).unwrap();
    for cut in 28..blob.len() {
        let r = EncryptionService::decrypt(&blob[..cut], &key_a());
        assert_eq!(r, Err(DecryptError::AuthenticationFailed));
    }
}

#[test]
fn short_blobs_are_malformed() {
    for len in 0..28 {
        let blob = vec![0u8; len];
        assert_eq!(
            EncryptionService::decrypt(&blob, &key_a()),
            Err(DecryptError::Malformed)
        );
    }
    // 28 bytes is no longer structurally malformed, only unauthenticated.
    assert_eq!(
        EncryptionService::decrypt(&[0u8; 28], &key_a()),
        Err(DecryptError::AuthenticationFailed)
    );
}

#[test]
fn serialized_task_round_trips_through_encryption() {
    let t = Task {
        id: String::from("t-enc"),
        title: String::from("protect at rest"),
        description: Some(String::from("business sensitive")),
        status: TaskStatus::Blocked,
        priority: TaskPriority::Medium,
        ai_insights: None,
    };
    let bytes = serialize_task(&t);
    let blob = EncryptionService::encrypt(&bytes, &key_a()).unwrap();
    let back_bytes = EncryptionService::decrypt(&blob, &key_a()).unwrap();
    let back = deserialize_task(&back_bytes).unwrap();
    assert_eq!(back, t);
}
