//! The wiki delegate's decisions: where a wiki's signing key is kept, and what to do
//! with each message. Decoding and encoding messages is left to the caller.

use vstd::prelude::*;

verus! {

/// Request types for the wiki delegate.
#[derive(Debug)]
pub enum WikiDelegateRequest {
    /// Store a signing key for a wiki.
    StoreKey { wiki_id: [u8; 32], key_bytes: [u8; 32] },
    /// Get the signing key for a wiki.
    GetKey { wiki_id: [u8; 32] },
    /// Check if we have a key for a wiki.
    HasKey { wiki_id: [u8; 32] },
}

/// Response types from the wiki delegate.
#[derive(Debug)]
pub enum WikiDelegateResponse {
    /// Key stored successfully.
    KeyStored,
    /// Key retrieved.
    Key { key_bytes: [u8; 32] },
    /// Key not found.
    KeyNotFound,
    /// Key exists check result.
    HasKey { exists: bool },
    /// Error response.
    Error { message: String },
}

/// A message to the delegate, once decoded.
#[derive(Debug)]
pub enum DelegateInbound {
    /// A request from the application.
    Request(WikiDelegateRequest),
    /// An application message that could not be decoded, with the decoder's message.
    Malformed(String),
    /// The answer to a secret lookup: the stored bytes, if any.
    SecretResponse(Option<Vec<u8>>),
    /// Any other message.
    Other,
}

/// What the delegate asks its host to do.
#[derive(Debug)]
pub enum DelegateAction {
    /// Store `value` under the secret `key`.
    SetSecret { key: Vec<u8>, value: Vec<u8> },
    /// Look up the secret `key`.
    GetSecret { key: Vec<u8> },
    /// Answer the application.
    Reply(WikiDelegateResponse),
}

/// The prefix of the secret that holds a wiki's signing key.
pub open spec fn key_secret_prefix() -> Seq<u8> {
    vstd::utf8::encode_utf8("wiki-signing-key:"@)
}

/// The secret that holds a wiki's signing key: the prefix, then the wiki's identifier.
pub open spec fn spec_key_secret_id(wiki_id: Seq<u8>) -> Seq<u8> {
    key_secret_prefix() + wiki_id
}

/// Generate the secret ID for storing a wiki's signing key.
pub fn wiki_key_secret_id(wiki_id: &[u8; 32]) -> (res: Vec<u8>)
    ensures
        res@ == spec_key_secret_id(wiki_id@),
{
    let mut key: Vec<u8> = Vec::new();
    crate::encoding::push_bytes(&mut key, "wiki-signing-key:".as_bytes());
    crate::encoding::push_bytes(&mut key, wiki_id.as_slice());
    key
}

/// The answer to a secret lookup: the key when exactly 32 bytes are stored.
pub fn key_response(value: &Option<Vec<u8>>) -> (res: WikiDelegateResponse)
    ensures
        match value {
            Some(b) if b@.len() == 32 => res matches WikiDelegateResponse::Key { key_bytes } && key_bytes@
                == b@,
            _ => res is KeyNotFound,
        },
{
    match value {
        Some(bytes) => {
            if bytes.len() == 32 {
                let mut key_bytes = [0u8; 32];
                let mut i: usize = 0;
                while i < 32
                    invariant
                        i <= 32,
                        bytes@.len() == 32,
                        forall|j: int| 0 <= j < i ==> key_bytes@[j] == bytes@[j],
                    decreases 32 - i,
                {
                    key_bytes[i] = bytes[i];
                    i = i + 1;
                }
                assert(key_bytes@ =~= bytes@);
                WikiDelegateResponse::Key { key_bytes }
            } else {
                WikiDelegateResponse::KeyNotFound
            }
        },
        None => WikiDelegateResponse::KeyNotFound,
    }
}

/// The action that looks up the secret `key`.
pub open spec fn is_get_secret(a: DelegateAction, key: Seq<u8>) -> bool {
    match a {
        DelegateAction::GetSecret { key: k } => k@ == key,
        _ => false,
    }
}

/// The action that stores `value` under the secret `key`.
pub open spec fn is_set_secret(a: DelegateAction, key: Seq<u8>, value: Seq<u8>) -> bool {
    match a {
        DelegateAction::SetSecret { key: k, value: v } => k@ == key && v@ == value,
        _ => false,
    }
}

/// The actions for a request.
pub open spec fn request_actions(req: WikiDelegateRequest, actions: Seq<DelegateAction>) -> bool {
    match req {
        WikiDelegateRequest::StoreKey { wiki_id, key_bytes } => {
            &&& actions.len() == 2
            &&& is_set_secret(actions[0], spec_key_secret_id(wiki_id@), key_bytes@)
            &&& actions[1] matches DelegateAction::Reply(WikiDelegateResponse::KeyStored)
        },
        WikiDelegateRequest::GetKey { wiki_id } => actions.len() == 1 && is_get_secret(
            actions[0],
            spec_key_secret_id(wiki_id@),
        ),
        WikiDelegateRequest::HasKey { wiki_id } => actions.len() == 1 && is_get_secret(
            actions[0],
            spec_key_secret_id(wiki_id@),
        ),
    }
}

/// Handle one message: a request to store a key stores it under the wiki's secret and
/// answers `KeyStored`; a request to get a key, or to check for one, looks the secret
/// up; an undecodable request is an error; anything else asks for nothing.
pub fn process(message: &DelegateInbound) -> (res: Result<Vec<DelegateAction>, String>)
    ensures
        match message {
            DelegateInbound::Request(req) => res matches Ok(v) && request_actions(*req, v@),
            DelegateInbound::Malformed(m) => res matches Err(e) && e@ == m@,
            DelegateInbound::SecretResponse(_) => res matches Ok(v) && v@.len() == 0,
            DelegateInbound::Other => res matches Ok(v) && v@.len() == 0,
        },
{
    match message {
        DelegateInbound::Request(request) => match request {
            WikiDelegateRequest::StoreKey { wiki_id, key_bytes } => {
                let secret_id = wiki_key_secret_id(wiki_id);
                let mut value: Vec<u8> = Vec::new();
                crate::encoding::push_bytes(&mut value, key_bytes.as_slice());
                let mut out: Vec<DelegateAction> = Vec::new();
                out.push(DelegateAction::SetSecret { key: secret_id, value });
                out.push(DelegateAction::Reply(WikiDelegateResponse::KeyStored));
                Ok(out)
            },
            WikiDelegateRequest::GetKey { wiki_id } => {
                let mut out: Vec<DelegateAction> = Vec::new();
                out.push(DelegateAction::GetSecret { key: wiki_key_secret_id(wiki_id) });
                Ok(out)
            },
            WikiDelegateRequest::HasKey { wiki_id } => {
                let mut out: Vec<DelegateAction> = Vec::new();
                out.push(DelegateAction::GetSecret { key: wiki_key_secret_id(wiki_id) });
                Ok(out)
            },
        },
        DelegateInbound::Malformed(m) => Err(m.clone()),
        DelegateInbound::SecretResponse(value) => {
            let _response = key_response(value);
            Ok(Vec::new())
        },
        DelegateInbound::Other => Ok(Vec::new()),
    }
}

} // verus!
