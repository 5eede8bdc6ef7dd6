use learning_progress::identity::{record_key, Identity};

#[test]
fn record_key_exact_bytes() {
    let id = Identity { w0: 0x0807060504030201, w1: 0, w2: 0, w3: u64::MAX };
    let key = record_key(&id);
    let mut expected: Vec<u8> = Vec::new();
    expected.extend_from_slice(b"user-progress");
    expected.extend_from_slice(&[1, 2, 3, 4, 5, 6, 7, 8]);
    expected.extend_from_slice(&[0; 8]);
    expected.extend_from_slice(&[0; 8]);
    expected.extend_from_slice(&[0xff; 8]);
    assert_eq!(key, expected);
}

#[test]
fn record_key_has_tag_and_length() {
    let id = Identity { w0: 11, w1: 22, w2: 33, w3: 44 };
    let key = record_key(&id);
    assert_eq!(key.len(), 13 + 32);
    assert_eq!(&key[..13], b"user-progress");
}

#[test]
fn record_keys_of_distinct_identities_differ() {
    let a = Identity { w0: 1, w1: 2, w2: 3, w3: 4 };
    let b = Identity { w0: 1, w1: 2, w2: 3, w3: 5 };
    let c = Identity { w0: 2, w1: 2, w2: 3, w3: 4 };
    assert_ne!(record_key(&a), record_key(&b));
    assert_ne!(record_key(&a), record_key(&c));
    assert_eq!(record_key(&a), record_key(&a));
}
