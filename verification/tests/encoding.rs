use ciborium::value::Value;
use ed25519_dalek::Signer;
use freenet_wiki_common::contributor::{Contributor, ContributorId, SignedContributor};
use freenet_wiki_common::page::{Patch, Revision, SignedPatch, SignedRevision};
use freenet_wiki_common::patch_ops::PatchOp;
use freenet_wiki_common::state::WikiConfig;
use freenet_wiki_common::util::{FastHash, Signature, SigningKey, Timestamp, VerifyingKey};

fn cbor(v: &Value) -> Vec<u8> {
    let mut out = Vec::new();
    ciborium::ser::into_writer(v, &mut out).unwrap();
    out
}

fn text(s: &str) -> Value {
    Value::Text(s.to_string())
}

fn uint(n: u64) -> Value {
    Value::Integer(n.into())
}

fn record(fields: Vec<(&str, Value)>) -> Value {
    Value::Map(fields.into_iter().map(|(k, v)| (text(k), v)).collect())
}

/// The value chrono's own `Serialize` gives a UTC time.
fn time_value(secs: i64, nanos: u32) -> Value {
    Value::serialized(&chrono::DateTime::from_timestamp(secs, nanos).unwrap()).unwrap()
}

fn id(n: u64) -> ContributorId {
    ContributorId(FastHash(n))
}

#[test]
fn revision_bytes_are_cbor_of_the_record() {
    let r = Revision {
        version: 3,
        content: "# Title\n\nBody with ümlaut".to_string(),
        author: id(0xdead_beef_0123_4567),
        created_at: Timestamp { secs: 1_700_000_000, nanos: 123_456_789 },
    };
    let expected = record(vec![
        ("version", uint(3)),
        ("content", text("# Title\n\nBody with ümlaut")),
        ("author", uint(0xdead_beef_0123_4567)),
        ("created_at", time_value(1_700_000_000, 123_456_789)),
    ]);
    assert_eq!(r.signing_bytes(), cbor(&expected));
}

#[test]
fn patch_bytes_are_cbor_of_the_record() {
    let p = Patch {
        target_version: 300,
        author: id(24),
        created_at: Timestamp { secs: 86_400 * 365, nanos: 0 },
        operations: vec![
            PatchOp::Insert { anchor_hash: None, lines: vec!["a".to_string(), "b".to_string()] },
            PatchOp::Insert { anchor_hash: Some(FastHash(70_000)), lines: vec![] },
            PatchOp::Delete { line_hashes: vec![FastHash(1), FastHash(u64::MAX)] },
            PatchOp::Replace { original_hash: FastHash(255), new_content: "new".to_string() },
        ],
        message: Some("edit".to_string()),
    };
    let insert = |anchor: Value, lines: Vec<Value>| {
        record(vec![("Insert", record(vec![("anchor_hash", anchor), ("lines", Value::Array(lines))]))])
    };
    let expected = record(vec![
        ("target_version", uint(300)),
        ("author", uint(24)),
        ("created_at", time_value(86_400 * 365, 0)),
        (
            "operations",
            Value::Array(vec![
                insert(Value::Null, vec![text("a"), text("b")]),
                insert(uint(70_000), vec![]),
                record(vec![(
                    "Delete",
                    record(vec![("line_hashes", Value::Array(vec![uint(1), uint(u64::MAX)]))]),
                )]),
                record(vec![(
                    "Replace",
                    record(vec![("original_hash", uint(255)), ("new_content", text("new"))]),
                )]),
            ]),
        ),
        ("message", text("edit")),
    ]);
    assert_eq!(p.signing_bytes(), cbor(&expected));

    let without_message = Patch { message: None, operations: vec![], ..p };
    let expected = record(vec![
        ("target_version", uint(300)),
        ("author", uint(24)),
        ("created_at", time_value(86_400 * 365, 0)),
        ("operations", Value::Array(vec![])),
        ("message", Value::Null),
    ]);
    assert_eq!(without_message.signing_bytes(), cbor(&expected));
}

#[test]
fn contributor_bytes_are_cbor_of_the_record() {
    let c = Contributor {
        wiki_owner_id: id(1),
        invited_by: id(65_536),
        contributor_vk: VerifyingKey([7u8; 32]),
        invited_at: Timestamp { secs: -1, nanos: 500 },
    };
    let expected = record(vec![
        ("wiki_owner_id", uint(1)),
        ("invited_by", uint(65_536)),
        ("contributor_vk", Value::Bytes(vec![7u8; 32])),
        ("invited_at", time_value(-1, 500)),
    ]);
    assert_eq!(c.signing_bytes(), cbor(&expected));
}

#[test]
fn config_bytes_are_cbor_of_the_record() {
    let c = WikiConfig {
        version: 2,
        name: "My Wiki".to_string(),
        description: None,
        max_pages: 1000,
        max_page_size: 1024 * 1024,
        max_patches_per_page: 100,
        max_contributors: 23,
    };
    let expected = record(vec![
        ("version", uint(2)),
        ("name", text("My Wiki")),
        ("description", Value::Null),
        ("max_pages", uint(1000)),
        ("max_page_size", uint(1024 * 1024)),
        ("max_patches_per_page", uint(100)),
        ("max_contributors", uint(23)),
    ]);
    assert_eq!(c.signing_bytes(), cbor(&expected));
    let described = WikiConfig { description: Some("about".to_string()), ..c };
    let expected = record(vec![
        ("version", uint(2)),
        ("name", text("My Wiki")),
        ("description", text("about")),
        ("max_pages", uint(1000)),
        ("max_page_size", uint(1024 * 1024)),
        ("max_patches_per_page", uint(100)),
        ("max_contributors", uint(23)),
    ]);
    assert_eq!(described.signing_bytes(), cbor(&expected));
}

#[test]
fn signature_made_by_dalek_over_cbor_verifies_in_the_library() {
    let secret = [9u8; 32];
    let dalek_key = ed25519_dalek::SigningKey::from_bytes(&secret);
    let vk = VerifyingKey(dalek_key.verifying_key().to_bytes());
    let r = Revision {
        version: 1,
        content: "hello".to_string(),
        author: id(5),
        created_at: Timestamp { secs: 1_600_000_000, nanos: 0 },
    };
    let bytes = cbor(&record(vec![
        ("version", uint(1)),
        ("content", text("hello")),
        ("author", uint(5)),
        ("created_at", time_value(1_600_000_000, 0)),
    ]));
    let signed = SignedRevision { revision: r.clone(), signature: Signature(dalek_key.sign(&bytes).to_bytes()) };
    assert!(signed.verify(&vk).is_ok());

    let ours = SignedRevision::new(r, &SigningKey(secret));
    assert_eq!(ours.signature.0, dalek_key.sign(&bytes).to_bytes());

    let patch = Patch {
        target_version: 1,
        author: id(5),
        created_at: Timestamp { secs: 1_600_000_001, nanos: 0 },
        operations: vec![],
        message: None,
    };
    let sp = SignedPatch::new(patch, &SigningKey(secret));
    assert!(sp.verify(&vk).is_ok());

    let c = Contributor {
        wiki_owner_id: id(5),
        invited_by: id(5),
        contributor_vk: VerifyingKey([3u8; 32]),
        invited_at: Timestamp { secs: 0, nanos: 0 },
    };
    let sc = SignedContributor { signature: Signature(dalek_key.sign(&c.signing_bytes()).to_bytes()), contributor: c };
    assert!(sc.verify_signature(&vk).is_ok());
}
