//! Contributor management for wiki editing permissions.
//!
//! The owner can invite contributors, contributors can invite others,
//! creating a chain of trust.

use vstd::prelude::*;
use crate::encoding::{
    cbor_byte_string, cbor_map, cbor_text, cbor_timestamp, cbor_uint, push_byte_string, push_map,
    push_text, push_timestamp, push_uint,
};
use crate::text::{
    decimal, first_index, first_index_from, lemma_first_index_from, push_decimal, push_str,
};
use crate::util::{
    ed25519_accepts, ed25519_public_key, ed25519_signature, fast_hash, sign_message,
    spec_fast_hash, verify_message, FastHash, Signature, SigningKey, Timestamp, VerifyingKey,
};

verus! {

/// Unique identifier for a contributor, derived from their public key.
#[derive(Clone, Copy, Debug, PartialEq, Eq, Structural, Hash)]
pub struct ContributorId(pub FastHash);

/// The identifier of a public key: the fast hash of its bytes.
pub open spec fn spec_contributor_id(vk: Seq<u8>) -> u64 {
    spec_fast_hash(vk)
}

impl ContributorId {
    /// The identifier of a public key.
    pub fn from_key(vk: &VerifyingKey) -> (res: Self)
        ensures
            res.0.0 == spec_contributor_id(vk.0@),
    {
        ContributorId(fast_hash(vk.0.as_slice()))
    }
}

impl From<VerifyingKey> for ContributorId {
    fn from(vk: VerifyingKey) -> (res: Self) {
        ContributorId::from_key(&vk)
    }
}

impl vstd::std_specs::convert::FromSpecImpl<VerifyingKey> for ContributorId {
    open spec fn obeys_from_spec() -> bool {
        true
    }

    open spec fn from_spec(vk: VerifyingKey) -> Self {
        ContributorId(FastHash(spec_contributor_id(vk.0@)))
    }
}

impl<'a> From<&'a VerifyingKey> for ContributorId {
    fn from(vk: &'a VerifyingKey) -> (res: Self) {
        ContributorId::from_key(vk)
    }
}

impl<'a> vstd::std_specs::convert::FromSpecImpl<&'a VerifyingKey> for ContributorId {
    open spec fn obeys_from_spec() -> bool {
        true
    }

    open spec fn from_spec(vk: &'a VerifyingKey) -> Self {
        ContributorId(FastHash(spec_contributor_id(vk.0@)))
    }
}

/// Core contributor data.
#[derive(Clone, Copy, Debug)]
pub struct Contributor {
    /// The wiki owner's ID (for context)
    pub wiki_owner_id: ContributorId,
    /// Who invited this contributor
    pub invited_by: ContributorId,
    /// This contributor's public key
    pub contributor_vk: VerifyingKey,
    /// When the invitation was created
    pub invited_at: Timestamp,
}

/// The bytes an invitation signature covers.
pub open spec fn contributor_bytes(c: Contributor) -> Seq<u8> {
    cbor_map(4) + cbor_text("wiki_owner_id"@) + cbor_uint(c.wiki_owner_id.0.0) + cbor_text(
        "invited_by"@,
    ) + cbor_uint(c.invited_by.0.0) + cbor_text("contributor_vk"@) + cbor_byte_string(
        c.contributor_vk.0@,
    ) + cbor_text("invited_at"@) + cbor_timestamp(c.invited_at)
}

impl Contributor {
    /// Get this contributor's ID.
    pub fn id(&self) -> (res: ContributorId)
        ensures
            res.0.0 == spec_contributor_id(self.contributor_vk.0@),
    {
        ContributorId::from_key(&self.contributor_vk)
    }

    /// The bytes an invitation signature covers.
    pub fn signing_bytes(&self) -> (res: Vec<u8>)
        ensures
            res@ == contributor_bytes(*self),
    {
        let mut out: Vec<u8> = Vec::new();
        push_map(&mut out, 4);
        push_text(&mut out, "wiki_owner_id");
        push_uint(&mut out, self.wiki_owner_id.0.0);
        push_text(&mut out, "invited_by");
        push_uint(&mut out, self.invited_by.0.0);
        push_text(&mut out, "contributor_vk");
        push_byte_string(&mut out, self.contributor_vk.0.as_slice());
        push_text(&mut out, "invited_at");
        push_timestamp(&mut out, &self.invited_at);
        assert(out@ =~= contributor_bytes(*self));
        out
    }
}

/// A contributor with their invitation proof.
#[derive(Clone, Copy, Debug)]
pub struct SignedContributor {
    pub contributor: Contributor,
    /// Signature from the inviter proving authorization
    pub signature: Signature,
}

/// The identifier of a signed contributor.
pub open spec fn signed_id(c: SignedContributor) -> u64 {
    spec_contributor_id(c.contributor.contributor_vk.0@)
}

/// Text that starts with `prefix`.
pub open spec fn starts_with(s: Seq<char>, prefix: Seq<char>) -> bool {
    s.len() >= prefix.len() && s.take(prefix.len() as int) == prefix
}

/// The start of the error for a rejected invitation signature.
pub open spec fn bad_contributor_signature_prefix() -> Seq<char> {
    "Invalid contributor signature: "@
}

impl SignedContributor {
    /// Create a new signed contributor invitation.
    pub fn new(contributor: Contributor, inviter_key: &SigningKey) -> (res: Self)
        requires
            contributor.invited_by.0.0 == spec_contributor_id(ed25519_public_key(inviter_key.0@)),
        ensures
            res.contributor == contributor,
            res.signature.0@ == ed25519_signature(inviter_key.0@, contributor_bytes(contributor)),
    {
        let bytes = contributor.signing_bytes();
        SignedContributor { signature: sign_message(bytes.as_slice(), inviter_key), contributor }
    }

    /// Create a signed invitation when `invited_by` names the inviter's key; `None`
    /// otherwise.
    pub fn try_new(contributor: Contributor, inviter_key: &SigningKey) -> (res: Option<Self>)
        ensures
            contributor.invited_by.0.0 == spec_contributor_id(ed25519_public_key(inviter_key.0@))
                <==> res is Some,
            res matches Some(c) ==> c.contributor == contributor && c.signature.0@
                == ed25519_signature(inviter_key.0@, contributor_bytes(contributor)),
    {
        let inviter_id = ContributorId::from_key(&inviter_key.verifying_key());
        if contributor.invited_by.0.0 == inviter_id.0.0 {
            Some(SignedContributor::new(contributor, inviter_key))
        } else {
            None
        }
    }

    /// Get this contributor's ID.
    pub fn id(&self) -> (res: ContributorId)
        ensures
            res.0.0 == signed_id(*self),
    {
        self.contributor.id()
    }

    /// Verify the invitation signature.
    pub fn verify_signature(&self, inviter_vk: &VerifyingKey) -> (res: Result<(), String>)
        ensures
            res is Ok <==> ed25519_accepts(
                inviter_vk.0@,
                contributor_bytes(self.contributor),
                self.signature.0@,
            ),
            res matches Err(e) ==> starts_with(e@, bad_contributor_signature_prefix()),
    {
        let bytes = self.contributor.signing_bytes();
        proof {
            reveal_strlit("Invalid contributor signature: ");
        }
        verify_message(bytes.as_slice(), &self.signature, inviter_vk, "Invalid contributor signature: ")
    }
}

/// Collection of all contributors.
#[derive(Debug)]
pub struct ContributorsV1 {
    pub contributors: Vec<SignedContributor>,
}

/// Delta for contributor updates.
#[derive(Debug)]
pub struct ContributorsDelta {
    pub added: Vec<SignedContributor>,
}

/// Copies a list of contributors.
fn copy_contributors(cs: &Vec<SignedContributor>) -> (res: Vec<SignedContributor>)
    ensures
        res@ == cs@,
{
    let mut out: Vec<SignedContributor> = Vec::new();
    let mut i: usize = 0;
    while i < cs.len()
        invariant
            i <= cs@.len(),
            out@ == cs@.take(i as int),
        decreases cs@.len() - i,
    {
        out.push(cs[i]);
        i = i + 1;
        assert(out@ =~= cs@.take(i as int));
    }
    assert(cs@.take(cs@.len() as int) == cs@);
    out
}

impl Clone for ContributorsV1 {
    fn clone(&self) -> (res: Self)
        ensures
            res.contributors@ == self.contributors@,
    {
        ContributorsV1 { contributors: copy_contributors(&self.contributors) }
    }
}

impl Clone for ContributorsDelta {
    fn clone(&self) -> (res: Self)
        ensures
            res.added@ == self.added@,
    {
        ContributorsDelta { added: copy_contributors(&self.added) }
    }
}

/// The identifiers of a list of contributors, in order.
pub open spec fn ids_of(cs: Seq<SignedContributor>) -> Seq<u64> {
    cs.map_values(|c: SignedContributor| signed_id(c))
}

/// The raw values of a list of identifiers.
pub open spec fn id_values(ids: Seq<ContributorId>) -> Seq<u64> {
    ids.map_values(|i: ContributorId| i.0.0)
}

/// The owner, and every listed contributor, may edit.
pub open spec fn spec_is_authorized(cs: Seq<SignedContributor>, id: u64, owner_id: u64) -> bool {
    id == owner_id || ids_of(cs).contains(id)
}

/// The first contributor with the identifier.
pub open spec fn spec_get(cs: Seq<SignedContributor>, id: u64) -> Option<SignedContributor> {
    match first_index(ids_of(cs), id) {
        Some(i) => Some(cs[i]),
        None => None,
    }
}

/// The key of the owner, or of the first contributor with the identifier.
pub open spec fn spec_get_verifying_key(cs: Seq<SignedContributor>, id: u64, owner_vk: Seq<u8>) -> Option<
    Seq<u8>,
> {
    if id == spec_contributor_id(owner_vk) {
        Some(owner_vk)
    } else {
        match spec_get(cs, id) {
            Some(c) => Some(c.contributor.contributor_vk.0@),
            None => None,
        }
    }
}

/// The contributors whose identifier is not in `known`, in order.
pub open spec fn spec_new_contributors(cs: Seq<SignedContributor>, known: Seq<u64>) -> Seq<
    SignedContributor,
>
    decreases cs.len(),
{
    if cs.len() == 0 {
        cs
    } else {
        let rest = spec_new_contributors(cs.drop_last(), known);
        if known.contains(signed_id(cs.last())) {
            rest
        } else {
            rest.push(cs.last())
        }
    }
}

/// Why an invitation is refused.
pub enum InviteError {
    /// The inviter is neither the owner nor a contributor.
    InviterNotFound(u64),
    /// The inviter's key does not accept the invitation signature.
    BadSignature,
    /// The invitation names another wiki owner.
    OwnerMismatch,
    /// The list is full.
    Full,
}

/// The key that must have signed an invitation, if the inviter is known.
pub open spec fn inviter_key(cs: Seq<SignedContributor>, c: SignedContributor, owner_vk: Seq<u8>) -> Option<
    Seq<u8>,
> {
    spec_get_verifying_key(cs, c.contributor.invited_by.0.0, owner_vk)
}

/// Why an invitation is invalid against the current list, if it is.
pub open spec fn invite_problem(
    cs: Seq<SignedContributor>,
    c: SignedContributor,
    owner_vk: Seq<u8>,
) -> Option<InviteError> {
    match inviter_key(cs, c, owner_vk) {
        None => Some(InviteError::InviterNotFound(c.contributor.invited_by.0.0)),
        Some(k) => if !ed25519_accepts(k, contributor_bytes(c.contributor), c.signature.0@) {
            Some(InviteError::BadSignature)
        } else if c.contributor.wiki_owner_id.0.0 != spec_contributor_id(owner_vk) {
            Some(InviteError::OwnerMismatch)
        } else {
            None
        },
    }
}

/// Adding invitations in order: a contributor already listed is skipped, the first
/// invalid invitation or a full list stops with an error, keeping what was added.
pub open spec fn spec_apply_contributors(
    cs: Seq<SignedContributor>,
    added: Seq<SignedContributor>,
    owner_vk: Seq<u8>,
    max: nat,
) -> (Seq<SignedContributor>, Option<InviteError>)
    decreases added.len(),
{
    if added.len() == 0 {
        (cs, None)
    } else {
        let c = added[0];
        if ids_of(cs).contains(signed_id(c)) {
            spec_apply_contributors(cs, added.drop_first(), owner_vk, max)
        } else {
            match invite_problem(cs, c, owner_vk) {
                Some(e) => (cs, Some(e)),
                None => if cs.len() >= max {
                    (cs, Some(InviteError::Full))
                } else {
                    spec_apply_contributors(cs.push(c), added.drop_first(), owner_vk, max)
                },
            }
        }
    }
}

/// The `Debug` text of an identifier.
pub open spec fn id_debug(id: u64) -> Seq<char> {
    "ContributorId(FastHash("@ + decimal(id as nat) + "))"@
}

/// The error text for each refusal.
pub open spec fn invite_error_text(e: InviteError, text: Seq<char>) -> bool {
    match e {
        InviteError::InviterNotFound(id) => text == "Inviter "@ + id_debug(id) + " not found"@,
        InviteError::BadSignature => starts_with(text, bad_contributor_signature_prefix()),
        InviteError::OwnerMismatch => text == "Wiki owner ID mismatch"@,
        InviteError::Full => text == "Maximum contributors reached"@,
    }
}

fn find_id(cs: &Vec<SignedContributor>, id: ContributorId) -> (res: Option<usize>)
    ensures
        match res {
            Some(i) => first_index(ids_of(cs@), id.0.0) == Some(i as int) && i < cs@.len(),
            None => first_index(ids_of(cs@), id.0.0) is None,
        },
{
    let ghost ids = ids_of(cs@);
    let mut k: usize = 0;
    while k < cs.len()
        invariant
            k <= cs@.len(),
            ids == ids_of(cs@),
            first_index(ids, id.0.0) == first_index_from(ids, id.0.0, k as int),
        decreases cs@.len() - k,
    {
        let cid = cs[k].id();
        if cid.0.0 == id.0.0 {
            assert(ids[k as int] == id.0.0);
            return Some(k);
        }
        k = k + 1;
    }
    None
}

pub(crate) fn push_id_debug(out: &mut String, id: ContributorId)
    ensures
        final(out)@ == old(out)@ + id_debug(id.0.0),
{
    proof {
        reveal_strlit("ContributorId(FastHash(");
        reveal_strlit("))");
    }
    push_str(out, "ContributorId(FastHash(");
    push_decimal(out, id.0.0);
    push_str(out, "))");
    assert(out@ =~= old(out)@ + id_debug(id.0.0));
}

impl ContributorsV1 {
    /// Check if a contributor ID is authorized (owner or invited).
    pub fn is_authorized(&self, id: &ContributorId, owner_id: &ContributorId) -> (res: bool)
        ensures
            res == spec_is_authorized(self.contributors@, id.0.0, owner_id.0.0),
    {
        if id.0.0 == owner_id.0.0 {
            return true;
        }
        let found = find_id(&self.contributors, *id);
        proof {
            lemma_first_index_from(ids_of(self.contributors@), id.0.0, 0);
        }
        found.is_some()
    }

    /// Get a contributor by ID.
    pub fn get(&self, id: &ContributorId) -> (res: Option<&SignedContributor>)
        ensures
            match res {
                Some(c) => spec_get(self.contributors@, id.0.0) == Some(*c),
                None => spec_get(self.contributors@, id.0.0) is None,
            },
    {
        match find_id(&self.contributors, *id) {
            Some(i) => Some(&self.contributors[i]),
            None => None,
        }
    }

    /// Get the verifying key for a contributor.
    pub fn get_verifying_key(&self, id: &ContributorId, owner_vk: &VerifyingKey) -> (res: Option<
        VerifyingKey,
    >)
        ensures
            match res {
                Some(k) => spec_get_verifying_key(self.contributors@, id.0.0, owner_vk.0@)
                    == Some(k.0@),
                None => spec_get_verifying_key(self.contributors@, id.0.0, owner_vk.0@) is None,
            },
    {
        let owner_id = ContributorId::from_key(owner_vk);
        if id.0.0 == owner_id.0.0 {
            return Some(*owner_vk);
        }
        match self.get(id) {
            Some(c) => Some(c.contributor.contributor_vk),
            None => None,
        }
    }

    /// Summarize as the set of contributor IDs (each listed once).
    pub fn summarize(&self) -> (res: Vec<ContributorId>)
        ensures
            id_values(res@) == crate::text::dedup(ids_of(self.contributors@)),
            id_values(res@).no_duplicates(),
            forall|x: u64| id_values(res@).contains(x) <==> ids_of(self.contributors@).contains(x),
    {
        let ghost ids = ids_of(self.contributors@);
        let mut out: Vec<ContributorId> = Vec::new();
        let mut k: usize = 0;
        while k < self.contributors.len()
            invariant
                k <= self.contributors@.len(),
                ids == ids_of(self.contributors@),
                id_values(out@) == crate::text::dedup(ids.take(k as int)),
            decreases self.contributors@.len() - k,
        {
            let cid = self.contributors[k].id();
            let ghost before = id_values(out@);
            proof {
                let t = ids.take(k + 1);
                assert(t.drop_last() =~= ids.take(k as int));
                assert(t.last() == cid.0.0);
            }
            if !contains_id(out.as_slice(), cid) {
                out.push(cid);
                proof {
                    assert(id_values(out@) =~= before.push(cid.0.0));
                }
            }
            k = k + 1;
        }
        proof {
            assert(ids.take(self.contributors@.len() as int) == ids);
            crate::text::lemma_dedup(ids);
        }
        out
    }

    /// Compute delta (new contributors not in old summary).
    pub fn delta(&self, old_summary: &[ContributorId]) -> (res: Option<ContributorsDelta>)
        ensures
            ({
                let added = spec_new_contributors(self.contributors@, id_values(old_summary@));
                match res {
                    Some(d) => added.len() > 0 && d.added@ == added,
                    None => added.len() == 0,
                }
            }),
    {
        let ghost known = id_values(old_summary@);
        let mut added: Vec<SignedContributor> = Vec::new();
        let mut k: usize = 0;
        while k < self.contributors.len()
            invariant
                k <= self.contributors@.len(),
                known == id_values(old_summary@),
                added@ == spec_new_contributors(self.contributors@.take(k as int), known),
            decreases self.contributors@.len() - k,
        {
            let c = self.contributors[k];
            proof {
                let t = self.contributors@.take(k + 1);
                assert(t.drop_last() == self.contributors@.take(k as int));
                assert(t.last() == c);
            }
            if !contains_id(old_summary, c.id()) {
                added.push(c);
            }
            k = k + 1;
        }
        proof {
            assert(self.contributors@.take(self.contributors@.len() as int) == self.contributors@);
        }
        if added.len() == 0 {
            None
        } else {
            Some(ContributorsDelta { added })
        }
    }

    /// Apply a delta, verifying each new contributor.
    pub fn apply_delta(
        &mut self,
        delta: &ContributorsDelta,
        owner_vk: &VerifyingKey,
        max_contributors: usize,
    ) -> (res: Result<(), String>)
        ensures
            ({
                let (cs, err) = spec_apply_contributors(
                    old(self).contributors@,
                    delta.added@,
                    owner_vk.0@,
                    max_contributors as nat,
                );
                &&& final(self).contributors@ == cs
                &&& (res is Ok <==> err is None)
                &&& (res matches Err(text) ==> invite_error_text(err->0, text@))
            }),
    {
        let owner_id = ContributorId::from_key(owner_vk);
        let ghost total = spec_apply_contributors(
            self.contributors@,
            delta.added@,
            owner_vk.0@,
            max_contributors as nat,
        );
        let mut k: usize = 0;
        proof {
            assert(delta.added@.skip(0) == delta.added@);
        }
        while k < delta.added.len()
            invariant
                k <= delta.added@.len(),
                owner_id.0.0 == spec_contributor_id(owner_vk.0@),
                total == spec_apply_contributors(
                    old(self).contributors@,
                    delta.added@,
                    owner_vk.0@,
                    max_contributors as nat,
                ),
                total == spec_apply_contributors(
                    self.contributors@,
                    delta.added@.skip(k as int),
                    owner_vk.0@,
                    max_contributors as nat,
                ),
            decreases delta.added@.len() - k,
        {
            let c = delta.added[k];
            proof {
                assert(delta.added@.skip(k as int)[0] == c);
                assert(delta.added@.skip(k as int).drop_first() == delta.added@.skip(k + 1));
            }
            let cid = c.id();
            let dup = find_id(&self.contributors, cid);
            proof {
                lemma_first_index_from(ids_of(self.contributors@), cid.0.0, 0);
            }
            if dup.is_some() {
                proof {
                    let j = dup->0 as int;
                    assert(ids_of(self.contributors@)[j] == signed_id(c));
                }
                k = k + 1;
                continue;
            }
            let ghost rest = delta.added@.skip(k as int);
            proof {
                assert(!ids_of(self.contributors@).contains(signed_id(c)));
                assert(rest.len() > 0 && rest[0] == c);
                assert(total == match invite_problem(self.contributors@, c, owner_vk.0@) {
                    Some(e) => (self.contributors@, Some(e)),
                    None => if self.contributors@.len() >= max_contributors as nat {
                        (self.contributors@, Some(InviteError::Full))
                    } else {
                        spec_apply_contributors(
                            self.contributors@.push(c),
                            rest.drop_first(),
                            owner_vk.0@,
                            max_contributors as nat,
                        )
                    },
                });
            }
            match self.verify_invite(&c, owner_vk, &owner_id) {
                Ok(()) => {},
                Err(e) => {
                    proof {
                        let p = invite_problem(self.contributors@, c, owner_vk.0@);
                        assert(total == (self.contributors@, p));
                        assert(invite_error_text(p->0, e@));
                    }
                    return Err(e);
                },
            }
            if self.contributors.len() >= max_contributors {
                proof {
                    reveal_strlit("Maximum contributors reached");
                    assert(total == (self.contributors@, Some(InviteError::Full)));
                }
                return Err(crate::text::string_from("Maximum contributors reached"));
            }
            self.contributors.push(c);
            k = k + 1;
        }
        proof {
            assert(delta.added@.skip(k as int).len() == 0);
        }
        Ok(())
    }

    /// Verify an invitation is valid.
    fn verify_invite(
        &self,
        contributor: &SignedContributor,
        owner_vk: &VerifyingKey,
        owner_id: &ContributorId,
    ) -> (res: Result<(), String>)
        requires
            owner_id.0.0 == spec_contributor_id(owner_vk.0@),
        ensures
            ({
                let p = invite_problem(self.contributors@, *contributor, owner_vk.0@);
                &&& (res is Ok <==> p is None)
                &&& (res matches Err(text) ==> invite_error_text(p->0, text@))
            }),
    {
        let inviter_id = contributor.contributor.invited_by;
        let inviter_vk = if inviter_id.0.0 == owner_id.0.0 {
            *owner_vk
        } else {
            match self.get(&inviter_id) {
                Some(c) => c.contributor.contributor_vk,
                None => {
                    let mut text = String::new();
                    proof {
                        reveal_strlit("Inviter ");
                        reveal_strlit(" not found");
                    }
                    push_str(&mut text, "Inviter ");
                    push_id_debug(&mut text, inviter_id);
                    push_str(&mut text, " not found");
                    assert(text@ =~= "Inviter "@ + id_debug(inviter_id.0.0) + " not found"@);
                    return Err(text);
                },
            }
        };
        match contributor.verify_signature(&inviter_vk) {
            Ok(()) => {},
            Err(e) => {
                return Err(e);
            },
        }
        if contributor.contributor.wiki_owner_id.0.0 != owner_id.0.0 {
            proof {
                reveal_strlit("Wiki owner ID mismatch");
            }
            return Err(crate::text::string_from("Wiki owner ID mismatch"));
        }
        Ok(())
    }
}

impl Default for ContributorsV1 {
    fn default() -> (res: Self)
        ensures
            res.contributors@.len() == 0,
    {
        ContributorsV1 { contributors: Vec::new() }
    }
}

/// Whether an identifier is in a list.
pub fn contains_id(ids: &[ContributorId], id: ContributorId) -> (res: bool)
    ensures
        res == id_values(ids@).contains(id.0.0),
{
    let mut k: usize = 0;
    while k < ids.len()
        invariant
            k <= ids@.len(),
            forall|j: int| 0 <= j < k ==> ids@[j].0.0 != id.0.0,
        decreases ids@.len() - k,
    {
        if ids[k].0.0 == id.0.0 {
            assert(id_values(ids@)[k as int] == id.0.0);
            return true;
        }
        k = k + 1;
    }
    proof {
        if id_values(ids@).contains(id.0.0) {
            let j = choose|j: int| 0 <= j < id_values(ids@).len() && id_values(ids@)[j] == id.0.0;
            assert(ids@[j].0.0 == id.0.0);
        }
    }
    false
}

} // verus!

verus! {

// ---------------------------------------------------------------------------
// Laws of contributor lists
// ---------------------------------------------------------------------------

/// The owner is always authorized, whatever the list holds.
pub proof fn law_owner_always_authorized(cs: Seq<SignedContributor>, owner_id: u64)
    ensures
        spec_is_authorized(cs, owner_id, owner_id),
{
}

proof fn lemma_new_contributors_empty(cs: Seq<SignedContributor>, known: Seq<u64>)
    requires
        forall|i: int| 0 <= i < cs.len() ==> known.contains(#[trigger] signed_id(cs[i])),
    ensures
        spec_new_contributors(cs, known).len() == 0,
    decreases cs.len(),
{
    if cs.len() > 0 {
        assert(known.contains(signed_id(cs[cs.len() - 1])));
        lemma_new_contributors_empty(cs.drop_last(), known);
    }
}

/// A contributor list has nothing to send to a peer that holds its own summary (every
/// identifier of the list, and only those).
pub proof fn law_contributors_delta_against_own_summary_is_empty(
    cs: Seq<SignedContributor>,
    summary: Seq<u64>,
)
    requires
        forall|x: u64| summary.contains(x) <==> ids_of(cs).contains(x),
    ensures
        spec_new_contributors(cs, summary).len() == 0,
{
    assert forall|i: int| 0 <= i < cs.len() implies summary.contains(#[trigger] signed_id(cs[i])) by {
        assert(ids_of(cs)[i] == signed_id(cs[i]));
    }
    lemma_new_contributors_empty(cs, summary);
}

/// Every contributor from position `from` on was validly invited by the contributors
/// listed before it (or by the owner).
pub open spec fn invited_in_order(cs: Seq<SignedContributor>, from: int, owner_vk: Seq<u8>) -> bool {
    forall|i: int| from <= i < cs.len() ==> #[trigger] invite_problem(cs.take(i), cs[i], owner_vk) is None
}

proof fn lemma_push_id_new(cs: Seq<SignedContributor>, c: SignedContributor)
    requires
        ids_of(cs).no_duplicates(),
        !ids_of(cs).contains(signed_id(c)),
    ensures
        ids_of(cs.push(c)).no_duplicates(),
{
    assert(ids_of(cs.push(c)) =~= ids_of(cs).push(signed_id(c)));
    let t = ids_of(cs.push(c));
    assert forall|i: int, j: int| 0 <= i < t.len() && 0 <= j < t.len() && i != j implies t[i] != t[j] by {
        if i < t.len() - 1 && j < t.len() - 1 {
            assert(t[i] == ids_of(cs)[i] && t[j] == ids_of(cs)[j]);
        } else if i < t.len() - 1 {
            assert(t[i] == ids_of(cs)[i]);
        } else {
            assert(t[j] == ids_of(cs)[j]);
        }
    }
}

/// Applying a contributor delta only appends: what was listed stays listed, in place;
/// every appended contributor was validly invited by someone listed before it or by the
/// owner (the chain of trust); no identifier is listed twice if none was before; and the
/// list does not grow past the limit.
pub proof fn law_apply_contributors_extends_chain_of_trust(
    cs: Seq<SignedContributor>,
    added: Seq<SignedContributor>,
    owner_vk: Seq<u8>,
    max: nat,
)
    requires
        ids_of(cs).no_duplicates(),
    ensures
        ({
            let r = spec_apply_contributors(cs, added, owner_vk, max).0;
            &&& r.len() >= cs.len()
            &&& r.take(cs.len() as int) == cs
            &&& invited_in_order(r, cs.len() as int, owner_vk)
            &&& ids_of(r).no_duplicates()
            &&& r.len() <= if cs.len() > max { cs.len() } else { max }
        }),
    decreases added.len(),
{
    assert(cs.take(cs.len() as int) == cs);
    if added.len() > 0 {
        let c = added[0];
        if ids_of(cs).contains(signed_id(c)) {
            law_apply_contributors_extends_chain_of_trust(cs, added.drop_first(), owner_vk, max);
        } else if invite_problem(cs, c, owner_vk) is None && cs.len() < max {
            let cs2 = cs.push(c);
            lemma_push_id_new(cs, c);
            law_apply_contributors_extends_chain_of_trust(cs2, added.drop_first(), owner_vk, max);
            let r = spec_apply_contributors(cs2, added.drop_first(), owner_vk, max).0;
            assert(r.take(cs.len() as int) =~= cs) by {
                assert(r.take(cs2.len() as int) == cs2);
                assert forall|k: int| 0 <= k < cs.len() implies r[k] == cs[k] by {
                    assert(r.take(cs2.len() as int)[k] == cs2[k]);
                }
            }
            assert forall|i: int| cs.len() <= i < r.len() implies #[trigger] invite_problem(
                r.take(i),
                r[i],
                owner_vk,
            ) is None by {
                if i == cs.len() {
                    assert(r[i] == r.take(cs2.len() as int)[i]);
                    assert(r.take(i) =~= cs);
                }
            }
        }
    }
}

} // verus!

verus! {

/// Exactly the authorized identifiers have a key: the owner's own key, or the key of the
/// contributor listed under the identifier.
pub proof fn law_authorized_iff_key_known(cs: Seq<SignedContributor>, id: u64, owner_vk: Seq<u8>)
    ensures
        spec_is_authorized(cs, id, spec_contributor_id(owner_vk)) <==> spec_get_verifying_key(
            cs,
            id,
            owner_vk,
        ) is Some,
{
    lemma_first_index_from(ids_of(cs), id, 0);
    if ids_of(cs).contains(id) {
        let j = choose|j: int| 0 <= j < ids_of(cs).len() && ids_of(cs)[j] == id;
        assert(ids_of(cs)[j] == id);
    }
}

/// An invitation is valid exactly when its inviter is authorized (the owner or a listed
/// contributor), the inviter's key accepts the invitation's signature, and the invitation
/// names this wiki's owner.
pub proof fn law_invitation_valid_iff_signed_by_authorized_inviter(
    cs: Seq<SignedContributor>,
    c: SignedContributor,
    owner_vk: Seq<u8>,
)
    ensures
        invite_problem(cs, c, owner_vk) is None <==> {
            &&& spec_is_authorized(cs, c.contributor.invited_by.0.0, spec_contributor_id(owner_vk))
            &&& spec_get_verifying_key(cs, c.contributor.invited_by.0.0, owner_vk) matches Some(k)
                && ed25519_accepts(k, contributor_bytes(c.contributor), c.signature.0@)
            &&& c.contributor.wiki_owner_id.0.0 == spec_contributor_id(owner_vk)
        },
{
    law_authorized_iff_key_known(cs, c.contributor.invited_by.0.0, owner_vk);
}

} // verus!

