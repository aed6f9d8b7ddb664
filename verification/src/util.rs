//! Hashing, key material, signatures and timestamps.

use vstd::prelude::*;
use ed25519_dalek::Signer;
use crate::text::{chars_of, string_of, trim_whitespace, trim_ws};

verus! {

/// A fast 64-bit hash for content addressing.
#[derive(Clone, Copy, Debug, PartialEq, Eq, Structural, Hash)]
pub struct FastHash(pub u64);

/// Hash a line of text for content-addressed operations.
pub type LineHash = FastHash;

/// The 32-byte BLAKE3 digest of `data`.
pub uninterp spec fn blake3_digest(data: Seq<u8>) -> Seq<u8>;

/// `blake3::hash`: the BLAKE3 digest of `data`.
/// Claims only that the 32 digest bytes are the named function of the input.
#[verifier::external_body]
fn blake3_hash(data: &[u8]) -> (res: [u8; 32])
    ensures
        res@ == blake3_digest(data@),
{
    *blake3::hash(data).as_bytes()
}

/// The little-endian value of the first eight bytes of `b`.
pub open spec fn le_u64(b: Seq<u8>) -> u64 {
    (b[0] as u64) | ((b[1] as u64) << 8u64) | ((b[2] as u64) << 16u64) | ((b[3] as u64) << 24u64)
        | ((b[4] as u64) << 32u64) | ((b[5] as u64) << 40u64) | ((b[6] as u64) << 48u64) | ((
    b[7] as u64) << 56u64)
}

/// The fast hash of a byte string: the first 64 bits (little endian) of its BLAKE3 digest.
pub open spec fn spec_fast_hash(data: Seq<u8>) -> u64 {
    le_u64(blake3_digest(data))
}

/// Compute a fast hash of bytes using blake3, truncated to 64 bits.
pub fn fast_hash(data: &[u8]) -> (res: FastHash)
    ensures
        res.0 == spec_fast_hash(data@),
{
    let b = blake3_hash(data);
    FastHash(
        (b[0] as u64) | ((b[1] as u64) << 8u64) | ((b[2] as u64) << 16u64) | ((b[3] as u64)
            << 24u64) | ((b[4] as u64) << 32u64) | ((b[5] as u64) << 40u64) | ((b[6] as u64)
            << 48u64) | ((b[7] as u64) << 56u64),
    )
}

/// The hash of a line: the fast hash of the UTF-8 bytes of the line without
/// leading and trailing whitespace.
pub open spec fn spec_line_hash(line: Seq<char>) -> u64 {
    spec_fast_hash(vstd::utf8::encode_utf8(trim_ws(line)))
}

/// Compute hash of a line (trimmed, to handle whitespace variations).
pub fn line_hash(line: &str) -> (res: LineHash)
    ensures
        res.0 == spec_line_hash(line@),
{
    let cs = chars_of(line);
    let trimmed = trim_whitespace(cs.as_slice());
    let s = string_of(trimmed.as_slice());
    fast_hash(s.as_str().as_bytes())
}

} // verus!

verus! {

/// An Ed25519 secret key (the 32-byte seed).
#[derive(Clone, Copy, Debug)]
pub struct SigningKey(pub [u8; 32]);

/// An Ed25519 public key (the 32-byte compressed point).
#[derive(Clone, Copy, Debug)]
pub struct VerifyingKey(pub [u8; 32]);

/// An Ed25519 signature (64 bytes).
#[derive(Clone, Copy, Debug)]
pub struct Signature(pub [u8; 64]);

/// A point in time: whole seconds since the Unix epoch and nanoseconds within the second.
#[derive(Clone, Copy, Debug, PartialEq, Eq, Structural)]
pub struct Timestamp {
    pub secs: i64,
    pub nanos: u32,
}

/// The Ed25519 public key of a secret key.
pub uninterp spec fn ed25519_public_key(secret: Seq<u8>) -> Seq<u8>;

/// The Ed25519 signature of `msg` under a secret key.
pub uninterp spec fn ed25519_signature(secret: Seq<u8>, msg: Seq<u8>) -> Seq<u8>;

/// Whether strict Ed25519 verification accepts `sig` for `msg` under `public`
/// (false when `public` is not a valid key).
pub uninterp spec fn ed25519_accepts(public: Seq<u8>, msg: Seq<u8>, sig: Seq<u8>) -> bool;

/// `ed25519_dalek::SigningKey::verifying_key` (from `SigningKey::from_bytes`), as bytes.
/// Claims only that the public key is the named function of the secret.
#[verifier::external_body]
fn ed25519_public_of(secret: &[u8; 32]) -> (res: [u8; 32])
    ensures
        res@ == ed25519_public_key(secret@),
{
    ed25519_dalek::SigningKey::from_bytes(secret).verifying_key().to_bytes()
}

/// `ed25519_dalek::SigningKey::sign` (deterministic Ed25519), as bytes.
/// Claims only that the signature is the named function of key and message.
#[verifier::external_body]
fn ed25519_sign(secret: &[u8; 32], msg: &[u8]) -> (res: [u8; 64])
    ensures
        res@ == ed25519_signature(secret@, msg@),
{
    ed25519_dalek::SigningKey::from_bytes(secret).sign(msg).to_bytes()
}

#[verifier::external_type_specification]
#[verifier::external_body]
pub struct ExSignatureError(ed25519_dalek::SignatureError);

/// `ed25519_dalek::VerifyingKey::verify_strict` (after `VerifyingKey::from_bytes`,
/// whose error is returned as is). Claims that it succeeds exactly when the named
/// acceptance predicate holds; the error value itself is not described.
#[verifier::external_body]
fn ed25519_verify_strict(public: &[u8; 32], msg: &[u8], sig: &[u8; 64]) -> (res: Result<
    (),
    ed25519_dalek::SignatureError,
>)
    ensures
        res is Ok <==> ed25519_accepts(public@, msg@, sig@),
{
    match ed25519_dalek::VerifyingKey::from_bytes(public) {
        Ok(vk) => vk.verify_strict(msg, &ed25519_dalek::Signature::from_bytes(sig)),
        Err(e) => Err(e),
    }
}

/// The `Display` text of a signature error. Nothing is claimed of the text.
#[verifier::external_body]
fn signature_error_text(e: &ed25519_dalek::SignatureError) -> String {
    e.to_string()
}

/// `chrono::Utc::now`, as seconds and nanoseconds since the Unix epoch.
/// The value depends on the clock; nothing is claimed of it.
#[verifier::external_body]
pub(crate) fn now() -> Timestamp {
    let t = chrono::Utc::now();
    Timestamp { secs: t.timestamp(), nanos: t.timestamp_subsec_nanos() }
}

/// The RFC 3339 text of a UTC time given as seconds and nanoseconds since the Unix
/// epoch, or `None` where no such time exists.
pub uninterp spec fn spec_rfc3339(secs: i64, nanos: u32) -> Option<Seq<char>>;

/// `chrono::DateTime::<Utc>::from_timestamp`, then `to_rfc3339_opts(SecondsFormat::AutoSi,
/// true)`: the text that chrono's `Serialize` writes for a `DateTime<Utc>`. Claims only that
/// the result is the named function of seconds and nanoseconds.
#[verifier::external_body]
pub(crate) fn rfc3339_text(secs: i64, nanos: u32) -> (res: Option<String>)
    ensures
        res is Some <==> spec_rfc3339(secs, nanos) is Some,
        res matches Some(s) ==> spec_rfc3339(secs, nanos) == Some(s@),
{
    match chrono::DateTime::from_timestamp(secs, nanos) {
        Some(t) => Some(t.to_rfc3339_opts(chrono::SecondsFormat::AutoSi, true)),
        None => None,
    }
}

impl SigningKey {
    /// The public key of this secret key.
    pub fn verifying_key(&self) -> (res: VerifyingKey)
        ensures
            res.0@ == ed25519_public_key(self.0@),
    {
        VerifyingKey(ed25519_public_of(&self.0))
    }
}

/// Sign bytes with a secret key.
pub fn sign_message(message: &[u8], signing_key: &SigningKey) -> (res: Signature)
    ensures
        res.0@ == ed25519_signature(signing_key.0@, message@),
{
    Signature(ed25519_sign(&signing_key.0, message))
}

/// Verify a signature over bytes (strict Ed25519 verification).
/// On failure the error is `prefix` followed by the text of the signature error.
pub fn verify_message(
    message: &[u8],
    signature: &Signature,
    verifying_key: &VerifyingKey,
    prefix: &str,
) -> (res: Result<(), String>)
    ensures
        res is Ok <==> ed25519_accepts(verifying_key.0@, message@, signature.0@),
        res matches Err(e) ==> e@.len() >= prefix@.len() && e@.take(prefix@.len() as int) == prefix@,
{
    match ed25519_verify_strict(&verifying_key.0, message, &signature.0) {
        Ok(()) => Ok(()),
        Err(e) => {
            let text = signature_error_text(&e);
            let msg = crate::text::concat(prefix, text.as_str());
            proof {
                assert((prefix@ + text@).take(prefix@.len() as int) =~= prefix@);
            }
            Err(msg)
        },
    }
}

} // verus!
