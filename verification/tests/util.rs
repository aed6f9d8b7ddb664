use freenet_wiki_common::util::{fast_hash, line_hash, sign_message, verify_message, FastHash, SigningKey};

#[test]
fn test_fast_hash_deterministic() {
    let data = b"test content";
    let hash1 = fast_hash(data);
    let hash2 = fast_hash(data);
    assert_eq!(hash1, hash2);
}

#[test]
fn test_line_hash_trims_whitespace() {
    let hash1 = line_hash("  hello  ");
    let hash2 = line_hash("hello");
    assert_eq!(hash1, hash2);
}

#[test]
fn fast_hash_of_empty_input() {
    assert_eq!(fast_hash(b""), FastHash(0xa6a1_f9f5_b949_13af));
}

#[test]
fn fast_hash_is_not_the_input() {
    let data = b"12345678";
    assert_ne!(fast_hash(data), FastHash(u64::from_le_bytes(*data)));
    assert_ne!(fast_hash(b"a"), fast_hash(b"b"));
}

#[test]
fn line_hash_trims_unicode_whitespace() {
    assert_eq!(line_hash("\u{3000}x\t"), line_hash("x"));
    assert_ne!(line_hash("x y"), line_hash("xy"));
    assert_eq!(line_hash("  x "), fast_hash(b"x"));
}

#[test]
fn sign_and_verify_bytes() {
    let key = SigningKey([42u8; 32]);
    let vk = key.verifying_key();
    assert_ne!(vk.0, key.0);
    let sig = sign_message(b"Hello, wiki!", &key);
    assert!(verify_message(b"Hello, wiki!", &sig, &vk, "bad: ").is_ok());
    let err = verify_message(b"Hello, wiki?", &sig, &vk, "bad: ").unwrap_err();
    assert!(err.starts_with("bad: "));
    assert!(err.len() > "bad: ".len());
    let other = SigningKey([43u8; 32]).verifying_key();
    assert!(verify_message(b"Hello, wiki!", &sig, &other, "bad: ").is_err());
}

#[test]
fn signatures_are_deterministic() {
    let key = SigningKey([1u8; 32]);
    assert_eq!(sign_message(b"m", &key).0, sign_message(b"m", &key).0);
    assert_ne!(sign_message(b"m", &key).0, sign_message(b"n", &key).0);
}

#[test]
fn test_sign_verify_roundtrip() {
    let signing_key = SigningKey([77u8; 32]);
    let verifying_key = signing_key.verifying_key();

    // The CBOR encoding of the record { content: "Hello, wiki!", value: 42 }.
    let message = ciborium::value::Value::Map(vec![
        (
            ciborium::value::Value::Text("content".to_string()),
            ciborium::value::Value::Text("Hello, wiki!".to_string()),
        ),
        (ciborium::value::Value::Text("value".to_string()), ciborium::value::Value::Integer(42u64.into())),
    ]);
    let mut data = Vec::new();
    ciborium::ser::into_writer(&message, &mut data).unwrap();

    let signature = sign_message(&data, &signing_key);
    assert!(verify_message(&data, &signature, &verifying_key, "").is_ok());
}
