//! Wiki pages: a signed base revision plus pending signed patches.

use vstd::prelude::*;
use crate::contributor::{spec_contributor_id, ContributorId};
use crate::encoding::{
    cbor_array, cbor_map, cbor_opt_text, cbor_opt_uint, cbor_text, cbor_timestamp, cbor_uint,
    push_array, push_map, push_null, push_opt_text, push_text, push_timestamp, push_uint,
};
use crate::patch_ops::{apply_operations, ops_view, PatchOp, SpecPatchOp};
use crate::util::{
    ed25519_accepts, ed25519_public_key, ed25519_signature, fast_hash, now, sign_message,
    spec_fast_hash, verify_message, FastHash, Signature, SigningKey, Timestamp, VerifyingKey,
};
use crate::text::{
    chars_of, collapse_double_slashes, replace_double_slashes, string_from, string_of,
    to_lowercase, trim_char, trim_matching, unicode_lowercase,
};

verus! {

/// Normalized page path (lowercase, no leading/trailing slashes).
#[derive(Debug)]
pub struct PagePath(pub String);

/// The path used for an empty name.
pub open spec fn home_path() -> Seq<char> {
    seq!['h', 'o', 'm', 'e']
}

/// A normalized path: lowercased, `'/'` trimmed from both ends, each `"//"` made
/// one `'/'`, and `"home"` in place of an empty result.
pub open spec fn spec_normalize(path: Seq<char>) -> Seq<char> {
    let n = collapse_double_slashes(trim_char(unicode_lowercase(path), '/'));
    if n.len() == 0 {
        home_path()
    } else {
        n
    }
}

impl PagePath {
    /// Normalize a path string.
    pub fn normalize(path: &str) -> (res: Self)
        ensures
            res.0@ == spec_normalize(path@),
    {
        let lower = to_lowercase(path);
        let cs = chars_of(lower.as_str());
        let trimmed = trim_matching(cs.as_slice(), '/');
        let collapsed = replace_double_slashes(trimmed.as_slice());
        if collapsed.len() == 0 {
            let home = string_from("home");
            proof {
                reveal_strlit("home");
            }
            PagePath(home)
        } else {
            PagePath(string_of(collapsed.as_slice()))
        }
    }

    /// Get the path as a string slice.
    pub fn as_str(&self) -> (res: &str)
        ensures
            res@ == self.0@,
    {
        self.0.as_str()
    }
}

impl Clone for PagePath {
    fn clone(&self) -> (res: Self)
        ensures
            res == *self,
    {
        PagePath(self.0.clone())
    }
}

} // verus!

verus! {

/// Unique identifier for a patch, derived from its signature.
#[derive(Clone, Copy, Debug, PartialEq, Eq, Structural, Hash)]
pub struct PatchId(pub FastHash);

/// A page revision (full content snapshot).
#[derive(Debug)]
pub struct Revision {
    /// Sequential version number (increments on commit)
    pub version: u64,
    /// Full markdown content
    pub content: String,
    /// Who created this revision
    pub author: ContributorId,
    /// When this revision was created
    pub created_at: Timestamp,
}

/// The mathematical value of a revision.
pub struct SpecRevision {
    pub version: u64,
    pub content: Seq<char>,
    pub author: u64,
    pub created_at: Timestamp,
}

impl View for Revision {
    type V = SpecRevision;

    open spec fn view(&self) -> SpecRevision {
        SpecRevision {
            version: self.version,
            content: self.content@,
            author: self.author.0.0,
            created_at: self.created_at,
        }
    }
}

impl Clone for Revision {
    fn clone(&self) -> (res: Self)
        ensures
            res@ == self@,
    {
        Revision {
            version: self.version,
            content: self.content.clone(),
            author: self.author,
            created_at: self.created_at,
        }
    }
}

/// A signed revision (full page content).
#[derive(Debug)]
pub struct SignedRevision {
    pub revision: Revision,
    pub signature: Signature,
}

/// The mathematical value of a signed revision.
pub struct SpecSignedRevision {
    pub revision: SpecRevision,
    pub signature: Seq<u8>,
}

impl View for SignedRevision {
    type V = SpecSignedRevision;

    open spec fn view(&self) -> SpecSignedRevision {
        SpecSignedRevision { revision: self.revision@, signature: self.signature.0@ }
    }
}

impl Clone for SignedRevision {
    fn clone(&self) -> (res: Self)
        ensures
            res@ == self@,
    {
        SignedRevision { revision: self.revision.clone(), signature: self.signature }
    }
}

/// A patch against a specific revision.
#[derive(Debug)]
pub struct Patch {
    /// Which revision this patch targets
    pub target_version: u64,
    /// Who created this patch
    pub author: ContributorId,
    /// When the patch was created
    pub created_at: Timestamp,
    /// The patch operations
    pub operations: Vec<PatchOp>,
    /// Optional description (commit message)
    pub message: Option<String>,
}

/// The mathematical value of a patch.
pub struct SpecPatch {
    pub target_version: u64,
    pub author: u64,
    pub created_at: Timestamp,
    pub operations: Seq<SpecPatchOp>,
    pub message: Option<Seq<char>>,
}

/// The view of an optional text.
pub open spec fn opt_text_view(t: Option<String>) -> Option<Seq<char>> {
    match t {
        Some(s) => Some(s@),
        None => None,
    }
}

impl View for Patch {
    type V = SpecPatch;

    open spec fn view(&self) -> SpecPatch {
        SpecPatch {
            target_version: self.target_version,
            author: self.author.0.0,
            created_at: self.created_at,
            operations: ops_view(self.operations@),
            message: opt_text_view(self.message),
        }
    }
}

/// Copies a list of operations.
fn clone_ops(ops: &Vec<PatchOp>) -> (res: Vec<PatchOp>)
    ensures
        ops_view(res@) == ops_view(ops@),
{
    let mut out: Vec<PatchOp> = Vec::new();
    let mut i: usize = 0;
    while i < ops.len()
        invariant
            i <= ops@.len(),
            ops_view(out@) == ops_view(ops@.take(i as int)),
        decreases ops@.len() - i,
    {
        let op = ops[i].clone();
        let ghost before = out@;
        out.push(op);
        proof {
            assert(ops@.take(i + 1) == ops@.take(i as int).push(ops@[i as int]));
            assert(ops_view(out@) =~= ops_view(before).push(op@));
            assert(ops_view(ops@.take(i + 1)) =~= ops_view(ops@.take(i as int)).push(ops@[i as int]@));
        }
        i = i + 1;
    }
    proof {
        assert(ops@.take(ops@.len() as int) == ops@);
    }
    out
}

impl Clone for Patch {
    fn clone(&self) -> (res: Self)
        ensures
            res@ == self@,
    {
        let message = match &self.message {
            Some(m) => Some(m.clone()),
            None => None,
        };
        Patch {
            target_version: self.target_version,
            author: self.author,
            created_at: self.created_at,
            operations: clone_ops(&self.operations),
            message,
        }
    }
}

/// A signed patch against a revision.
#[derive(Debug)]
pub struct SignedPatch {
    pub patch: Patch,
    pub signature: Signature,
}

/// The mathematical value of a signed patch.
pub struct SpecSignedPatch {
    pub patch: SpecPatch,
    pub signature: Seq<u8>,
}

impl View for SignedPatch {
    type V = SpecSignedPatch;

    open spec fn view(&self) -> SpecSignedPatch {
        SpecSignedPatch { patch: self.patch@, signature: self.signature.0@ }
    }
}

impl Clone for SignedPatch {
    fn clone(&self) -> (res: Self)
        ensures
            res@ == self@,
    {
        SignedPatch { patch: self.patch.clone(), signature: self.signature }
    }
}

/// The views of a list of signed patches.
pub open spec fn patches_view(ps: Seq<SignedPatch>) -> Seq<SpecSignedPatch> {
    ps.map_values(|p: SignedPatch| p@)
}

/// The identifier of a patch: the fast hash of its signature bytes.
pub open spec fn patch_id(p: SpecSignedPatch) -> u64 {
    spec_fast_hash(p.signature)
}

/// The identifiers of a list of patches, in order.
pub open spec fn patch_ids(ps: Seq<SpecSignedPatch>) -> Seq<u64> {
    ps.map_values(|p: SpecSignedPatch| patch_id(p))
}

} // verus!

verus! {

/// Texts one after the other (the items of an array).
pub open spec fn cbor_texts(ls: Seq<Seq<char>>) -> Seq<u8>
    decreases ls.len(),
{
    if ls.len() == 0 {
        Seq::empty()
    } else {
        cbor_texts(ls.drop_last()) + cbor_text(ls.last())
    }
}

/// Unsigned integers one after the other (the items of an array).
pub open spec fn cbor_uints(xs: Seq<u64>) -> Seq<u8>
    decreases xs.len(),
{
    if xs.len() == 0 {
        Seq::empty()
    } else {
        cbor_uints(xs.drop_last()) + cbor_uint(xs.last())
    }
}

/// One operation: a one-entry map from the variant's name to the map of its fields.
pub open spec fn op_bytes(op: SpecPatchOp) -> Seq<u8> {
    match op {
        SpecPatchOp::Insert { anchor, lines } => cbor_map(1) + cbor_text("Insert"@) + cbor_map(2)
            + cbor_text("anchor_hash"@) + cbor_opt_uint(anchor) + cbor_text("lines"@) + cbor_array(
            lines.len(),
        ) + cbor_texts(lines),
        SpecPatchOp::Delete { hashes } => cbor_map(1) + cbor_text("Delete"@) + cbor_map(1)
            + cbor_text("line_hashes"@) + cbor_array(hashes.len()) + cbor_uints(hashes),
        SpecPatchOp::Replace { original, content } => cbor_map(1) + cbor_text("Replace"@) + cbor_map(
            2,
        ) + cbor_text("original_hash"@) + cbor_uint(original) + cbor_text("new_content"@)
            + cbor_text(content),
    }
}

/// Operations one after the other (the items of an array).
pub open spec fn ops_bytes(ops: Seq<SpecPatchOp>) -> Seq<u8>
    decreases ops.len(),
{
    if ops.len() == 0 {
        Seq::empty()
    } else {
        ops_bytes(ops.drop_last()) + op_bytes(ops.last())
    }
}

/// The bytes a revision signature covers.
pub open spec fn revision_bytes(r: SpecRevision) -> Seq<u8> {
    cbor_map(4) + cbor_text("version"@) + cbor_uint(r.version) + cbor_text("content"@) + cbor_text(
        r.content,
    ) + cbor_text("author"@) + cbor_uint(r.author) + cbor_text("created_at"@) + cbor_timestamp(
        r.created_at,
    )
}

/// The bytes a patch signature covers.
pub open spec fn patch_bytes(p: SpecPatch) -> Seq<u8> {
    cbor_map(5) + cbor_text("target_version"@) + cbor_uint(p.target_version) + cbor_text(
        "author"@,
    ) + cbor_uint(p.author) + cbor_text("created_at"@) + cbor_timestamp(p.created_at) + cbor_text(
        "operations"@,
    ) + cbor_array(p.operations.len()) + ops_bytes(p.operations) + cbor_text("message"@)
        + cbor_opt_text(p.message)
}

fn push_op(out: &mut Vec<u8>, op: &PatchOp)
    ensures
        final(out)@ == old(out)@ + op_bytes(op@),
{
    push_map(out, 1);
    match op {
        PatchOp::Insert { anchor_hash, lines } => {
            push_text(out, "Insert");
            push_map(out, 2);
            push_text(out, "anchor_hash");
            match anchor_hash {
                Some(h) => push_uint(out, h.0),
                None => push_null(out),
            }
            push_text(out, "lines");
            push_array(out, lines.len());
            let ghost mid = out@;
            let mut i: usize = 0;
            while i < lines.len()
                invariant
                    i <= lines@.len(),
                    out@ == mid + cbor_texts(crate::text::strings_view(lines@.take(i as int))),
                decreases lines@.len() - i,
            {
                push_text(out, lines[i].as_str());
                proof {
                    let t = crate::text::strings_view(lines@.take(i + 1));
                    assert(t.drop_last() =~= crate::text::strings_view(lines@.take(i as int)));
                    assert(t.last() == lines@[i as int]@);
                }
                i = i + 1;
            }
            proof {
                assert(lines@.take(lines@.len() as int) == lines@);
                assert(out@ =~= old(out)@ + op_bytes(op@));
            }
        },
        PatchOp::Delete { line_hashes } => {
            push_text(out, "Delete");
            push_map(out, 1);
            push_text(out, "line_hashes");
            push_array(out, line_hashes.len());
            let ghost mid = out@;
            let mut i: usize = 0;
            while i < line_hashes.len()
                invariant
                    i <= line_hashes@.len(),
                    out@ == mid + cbor_uints(
                        crate::patch_ops::hash_values(line_hashes@.take(i as int)),
                    ),
                decreases line_hashes@.len() - i,
            {
                push_uint(out, line_hashes[i].0);
                proof {
                    let t = crate::patch_ops::hash_values(line_hashes@.take(i + 1));
                    assert(t.drop_last() =~= crate::patch_ops::hash_values(
                        line_hashes@.take(i as int),
                    ));
                    assert(t.last() == line_hashes@[i as int].0);
                }
                i = i + 1;
            }
            proof {
                assert(line_hashes@.take(line_hashes@.len() as int) == line_hashes@);
                assert(out@ =~= old(out)@ + op_bytes(op@));
            }
        },
        PatchOp::Replace { original_hash, new_content } => {
            push_text(out, "Replace");
            push_map(out, 2);
            push_text(out, "original_hash");
            push_uint(out, original_hash.0);
            push_text(out, "new_content");
            push_text(out, new_content.as_str());
            proof {
                assert(out@ =~= old(out)@ + op_bytes(op@));
            }
        },
    }
}

impl Revision {
    /// The bytes a revision signature covers.
    pub fn signing_bytes(&self) -> (res: Vec<u8>)
        ensures
            res@ == revision_bytes(self@),
    {
        let mut out: Vec<u8> = Vec::new();
        push_map(&mut out, 4);
        push_text(&mut out, "version");
        push_uint(&mut out, self.version);
        push_text(&mut out, "content");
        push_text(&mut out, self.content.as_str());
        push_text(&mut out, "author");
        push_uint(&mut out, self.author.0.0);
        push_text(&mut out, "created_at");
        push_timestamp(&mut out, &self.created_at);
        assert(out@ =~= revision_bytes(self@));
        out
    }
}

impl Patch {
    /// The bytes a patch signature covers.
    pub fn signing_bytes(&self) -> (res: Vec<u8>)
        ensures
            res@ == patch_bytes(self@),
    {
        let mut out: Vec<u8> = Vec::new();
        push_map(&mut out, 5);
        push_text(&mut out, "target_version");
        push_uint(&mut out, self.target_version);
        push_text(&mut out, "author");
        push_uint(&mut out, self.author.0.0);
        push_text(&mut out, "created_at");
        push_timestamp(&mut out, &self.created_at);
        push_text(&mut out, "operations");
        push_array(&mut out, self.operations.len());
        let ghost mid = out@;
        let mut i: usize = 0;
        while i < self.operations.len()
            invariant
                i <= self.operations@.len(),
                out@ == mid + ops_bytes(ops_view(self.operations@.take(i as int))),
            decreases self.operations@.len() - i,
        {
            push_op(&mut out, &self.operations[i]);
            proof {
                let t = ops_view(self.operations@.take(i + 1));
                assert(t.drop_last() =~= ops_view(self.operations@.take(i as int)));
                assert(t.last() == self.operations@[i as int]@);
            }
            i = i + 1;
        }
        proof {
            assert(self.operations@.take(self.operations@.len() as int) == self.operations@);
        }
        push_text(&mut out, "message");
        push_opt_text(&mut out, &self.message);
        assert(out@ =~= patch_bytes(self@));
        out
    }
}

} // verus!

verus! {

/// Whether `text` begins with `prefix`.
pub open spec fn has_prefix(text: Seq<char>, prefix: Seq<char>) -> bool {
    text.len() >= prefix.len() && text.take(prefix.len() as int) == prefix
}

/// Whether a key accepts a revision's signature.
pub open spec fn revision_signed_by(r: SpecSignedRevision, vk: Seq<u8>) -> bool {
    ed25519_accepts(vk, revision_bytes(r.revision), r.signature)
}

/// Whether a key accepts a patch's signature.
pub open spec fn patch_signed_by(p: SpecSignedPatch, vk: Seq<u8>) -> bool {
    ed25519_accepts(vk, patch_bytes(p.patch), p.signature)
}

impl SignedRevision {
    /// Create a new signed revision.
    pub fn new(revision: Revision, signer: &SigningKey) -> (res: Self)
        ensures
            res@.revision == revision@,
            res@.signature == ed25519_signature(signer.0@, revision_bytes(revision@)),
    {
        let bytes = revision.signing_bytes();
        SignedRevision { signature: sign_message(bytes.as_slice(), signer), revision }
    }

    /// Verify the revision signature.
    pub fn verify(&self, signer_vk: &VerifyingKey) -> (res: Result<(), String>)
        ensures
            res is Ok <==> revision_signed_by(self@, signer_vk.0@),
            res matches Err(e) ==> has_prefix(e@, "Invalid revision signature: "@),
    {
        let bytes = self.revision.signing_bytes();
        proof {
            reveal_strlit("Invalid revision signature: ");
        }
        verify_message(bytes.as_slice(), &self.signature, signer_vk, "Invalid revision signature: ")
    }
}

impl SignedPatch {
    /// Create a new signed patch.
    pub fn new(patch: Patch, signer: &SigningKey) -> (res: Self)
        ensures
            res@.patch == patch@,
            res@.signature == ed25519_signature(signer.0@, patch_bytes(patch@)),
    {
        let bytes = patch.signing_bytes();
        SignedPatch { signature: sign_message(bytes.as_slice(), signer), patch }
    }

    /// Get the patch ID (hash of signature).
    pub fn id(&self) -> (res: PatchId)
        ensures
            res.0.0 == patch_id(self@),
    {
        PatchId(fast_hash(self.signature.0.as_slice()))
    }

    /// Verify the patch signature.
    pub fn verify(&self, signer_vk: &VerifyingKey) -> (res: Result<(), String>)
        ensures
            res is Ok <==> patch_signed_by(self@, signer_vk.0@),
            res matches Err(e) ==> has_prefix(e@, "Invalid patch signature: "@),
    {
        let bytes = self.patch.signing_bytes();
        proof {
            reveal_strlit("Invalid patch signature: ");
        }
        verify_message(bytes.as_slice(), &self.signature, signer_vk, "Invalid patch signature: ")
    }
}

} // verus!

verus! {

/// Patches are ordered by creation time, then by identifier.
pub open spec fn key_lt(a: SpecSignedPatch, b: SpecSignedPatch) -> bool {
    let (x, y) = (a.patch.created_at, b.patch.created_at);
    ||| x.secs < y.secs
    ||| x.secs == y.secs && x.nanos < y.nanos
    ||| x.secs == y.secs && x.nanos == y.nanos && patch_id(a) < patch_id(b)
}

/// Where a stable insertion puts `x` into `s`: before the first element that `x` precedes.
pub open spec fn insert_pos(s: Seq<SpecSignedPatch>, x: SpecSignedPatch) -> int
    decreases s.len(),
{
    if s.len() == 0 || key_lt(x, s[0]) {
        0
    } else {
        1 + insert_pos(s.drop_first(), x)
    }
}

/// The stable sort of patches by (creation time, identifier): each patch in turn is
/// inserted after every earlier one that it does not precede.
pub open spec fn sort_patches(s: Seq<SpecSignedPatch>) -> Seq<SpecSignedPatch>
    decreases s.len(),
{
    if s.len() == 0 {
        s
    } else {
        let t = sort_patches(s.drop_last());
        t.insert(insert_pos(t, s.last()), s.last())
    }
}

proof fn lemma_insert_pos_bounds(s: Seq<SpecSignedPatch>, x: SpecSignedPatch)
    ensures
        0 <= insert_pos(s, x) <= s.len(),
    decreases s.len(),
{
    if s.len() > 0 && !key_lt(x, s[0]) {
        lemma_insert_pos_bounds(s.drop_first(), x);
    }
}

proof fn lemma_sort_len(s: Seq<SpecSignedPatch>)
    ensures
        sort_patches(s).len() == s.len(),
    decreases s.len(),
{
    if s.len() > 0 {
        lemma_sort_len(s.drop_last());
        lemma_insert_pos_bounds(sort_patches(s.drop_last()), s.last());
    }
}

/// Whether `a` precedes `b` in patch order.
fn key_less(a: &SignedPatch, b: &SignedPatch) -> (res: bool)
    ensures
        res == key_lt(a@, b@),
{
    let (x, y) = (a.patch.created_at, b.patch.created_at);
    if x.secs != y.secs {
        return x.secs < y.secs;
    }
    if x.nanos != y.nanos {
        return x.nanos < y.nanos;
    }
    a.id().0.0 < b.id().0.0
}

fn find_insert_pos(s: &Vec<SignedPatch>, x: &SignedPatch) -> (res: usize)
    ensures
        res as int == insert_pos(patches_view(s@), x@),
        res <= s@.len(),
{
    let ghost v = patches_view(s@);
    let mut i: usize = 0;
    proof {
        assert(v.skip(0) == v);
    }
    while i < s.len() && !key_less(x, &s[i])
        invariant
            i <= s@.len(),
            v == patches_view(s@),
            insert_pos(v, x@) == i + insert_pos(v.skip(i as int), x@),
        decreases s@.len() - i,
    {
        proof {
            let t = v.skip(i as int);
            assert(t[0] == s@[i as int]@);
            assert(t.drop_first() == v.skip(i + 1));
        }
        i = i + 1;
    }
    proof {
        if i < s.len() {
            assert(v.skip(i as int)[0] == s@[i as int]@);
        }
    }
    i
}

/// Stable sort of patches by (creation time, identifier).
fn sort_patch_vec(v: Vec<SignedPatch>) -> (res: Vec<SignedPatch>)
    ensures
        patches_view(res@) == sort_patches(patches_view(v@)),
{
    let ghost orig = patches_view(v@);
    let mut src = v;
    let mut out: Vec<SignedPatch> = Vec::new();
    let ghost mut k: int = 0;
    proof {
        assert(orig.skip(0) == orig);
        assert(orig.take(0) =~= Seq::<SpecSignedPatch>::empty());
    }
    while src.len() > 0
        invariant
            0 <= k <= orig.len(),
            patches_view(src@) == orig.skip(k),
            patches_view(out@) == sort_patches(orig.take(k)),
        decreases src@.len(),
    {
        let ghost before_src = src@;
        let ghost before_out = out@;
        proof {
            assert(patches_view(before_src).len() == before_src.len());
            assert(k < orig.len());
            assert(patches_view(before_src)[0] == orig[k]);
        }
        let x = src.remove(0);
        let pos = find_insert_pos(&out, &x);
        out.insert(pos, x);
        proof {
            assert(x@ == orig[k]);
            assert(src@ == before_src.drop_first());
            assert(patches_view(src@) =~= patches_view(before_src).drop_first());
            assert(patches_view(src@) =~= orig.skip(k + 1));
            let t = orig.take(k + 1);
            assert(t.drop_last() =~= orig.take(k));
            assert(t.last() == x@);
            assert(patches_view(out@) =~= patches_view(before_out).insert(pos as int, x@));
            k = k + 1;
        }
    }
    proof {
        assert(orig.take(k) =~= orig);
    }
    out
}

} // verus!

verus! {

/// A wiki page with base revision and pending patches.
#[derive(Debug)]
pub struct WikiPageV1 {
    /// The page path
    pub path: PagePath,
    /// The current base revision
    pub revision: SignedRevision,
    /// Pending patches against the revision
    pub patches: Vec<SignedPatch>,
}

/// The mathematical value of a page.
pub struct SpecPage {
    pub path: Seq<char>,
    pub revision: SpecSignedRevision,
    pub patches: Seq<SpecSignedPatch>,
}

impl View for WikiPageV1 {
    type V = SpecPage;

    open spec fn view(&self) -> SpecPage {
        SpecPage {
            path: self.path.0@,
            revision: self.revision@,
            patches: patches_view(self.patches@),
        }
    }
}

/// Copies a list of patches.
pub(crate) fn clone_patches(ps: &Vec<SignedPatch>) -> (res: Vec<SignedPatch>)
    ensures
        patches_view(res@) == patches_view(ps@),
{
    let mut out: Vec<SignedPatch> = Vec::new();
    let mut i: usize = 0;
    while i < ps.len()
        invariant
            i <= ps@.len(),
            patches_view(out@) == patches_view(ps@.take(i as int)),
        decreases ps@.len() - i,
    {
        let p = ps[i].clone();
        let ghost before = out@;
        out.push(p);
        proof {
            assert(ps@.take(i + 1) == ps@.take(i as int).push(ps@[i as int]));
            assert(patches_view(out@) =~= patches_view(before).push(p@));
            assert(patches_view(ps@.take(i + 1)) =~= patches_view(ps@.take(i as int)).push(
                ps@[i as int]@,
            ));
        }
        i = i + 1;
    }
    proof {
        assert(ps@.take(ps@.len() as int) == ps@);
    }
    out
}

impl Clone for WikiPageV1 {
    fn clone(&self) -> (res: Self)
        ensures
            res@ == self@,
    {
        WikiPageV1 {
            path: self.path.clone(),
            revision: self.revision.clone(),
            patches: clone_patches(&self.patches),
        }
    }
}

/// The patches that target version `v`, in order.
pub open spec fn patches_for(s: Seq<SpecSignedPatch>, v: u64) -> Seq<SpecSignedPatch>
    decreases s.len(),
{
    if s.len() == 0 {
        s
    } else {
        let r = patches_for(s.drop_last(), v);
        if s.last().patch.target_version == v {
            r.push(s.last())
        } else {
            r
        }
    }
}

/// The patches that target version `v` or later, in order.
pub open spec fn patches_from(s: Seq<SpecSignedPatch>, v: u64) -> Seq<SpecSignedPatch>
    decreases s.len(),
{
    if s.len() == 0 {
        s
    } else {
        let r = patches_from(s.drop_last(), v);
        if s.last().patch.target_version >= v {
            r.push(s.last())
        } else {
            r
        }
    }
}

/// The operations of the patches, patch after patch.
pub open spec fn flat_ops(s: Seq<SpecSignedPatch>) -> Seq<SpecPatchOp>
    decreases s.len(),
{
    if s.len() == 0 {
        Seq::empty()
    } else {
        flat_ops(s.drop_last()) + s.last().patch.operations
    }
}

/// The rendered content: the operations of the patches that target the current
/// version, in (creation time, identifier) order, applied to the revision's content.
pub open spec fn spec_render(pg: SpecPage) -> Seq<char> {
    crate::patch_ops::spec_apply_operations(
        pg.revision.revision.content,
        flat_ops(sort_patches(patches_for(pg.patches, pg.revision.revision.version))),
    )
}

fn append_ops(out: &mut Vec<PatchOp>, ops: &Vec<PatchOp>)
    ensures
        ops_view(final(out)@) == ops_view(old(out)@) + ops_view(ops@),
{
    let mut i: usize = 0;
    while i < ops.len()
        invariant
            i <= ops@.len(),
            ops_view(out@) == ops_view(old(out)@) + ops_view(ops@.take(i as int)),
        decreases ops@.len() - i,
    {
        let op = ops[i].clone();
        let ghost before = out@;
        out.push(op);
        proof {
            assert(ops@.take(i + 1) == ops@.take(i as int).push(ops@[i as int]));
            assert(ops_view(out@) =~= ops_view(before).push(op@));
            assert(ops_view(ops@.take(i + 1)) =~= ops_view(ops@.take(i as int)).push(
                ops@[i as int]@,
            ));
        }
        i = i + 1;
    }
    proof {
        assert(ops@.take(ops@.len() as int) == ops@);
    }
}

impl WikiPageV1 {
    /// Create a new page with initial content.
    pub fn new(path: PagePath, content: String, author: &SigningKey) -> (res: Self)
        ensures
            res@.path == path.0@,
            res@.revision.revision.version == 1,
            res@.revision.revision.content == content@,
            res@.revision.revision.author == spec_contributor_id(ed25519_public_key(author.0@)),
            res@.revision.signature == ed25519_signature(
                author.0@,
                revision_bytes(res@.revision.revision),
            ),
            res@.patches.len() == 0,
            page_wf(res@),
    {
        let author_id = ContributorId::from_key(&author.verifying_key());
        let revision = Revision { version: 1, content, author: author_id, created_at: now() };
        let signed_revision = SignedRevision::new(revision, author);
        let res = WikiPageV1 { path, revision: signed_revision, patches: Vec::new() };
        assert(res@.patches.len() == 0);
        res
    }

    /// Render the page content with all patches applied.
    pub fn render(&self) -> (res: String)
        ensures
            res@ == spec_render(self@),
    {
        let v = self.revision.revision.version;
        let ghost all = patches_view(self.patches@);
        let mut selected: Vec<SignedPatch> = Vec::new();
        let mut i: usize = 0;
        while i < self.patches.len()
            invariant
                i <= self.patches@.len(),
                v == self.revision.revision.version,
                all == patches_view(self.patches@),
                patches_view(selected@) == patches_for(all.take(i as int), v),
            decreases self.patches@.len() - i,
        {
            proof {
                let t = all.take(i + 1);
                assert(t.drop_last() =~= all.take(i as int));
                assert(t.last() == self.patches@[i as int]@);
            }
            if self.patches[i].patch.target_version == v {
                let p = self.patches[i].clone();
                let ghost before = selected@;
                selected.push(p);
                proof {
                    assert(patches_view(selected@) =~= patches_view(before).push(p@));
                }
            }
            i = i + 1;
        }
        proof {
            assert(all.take(self.patches@.len() as int) =~= all);
        }
        let sorted = sort_patch_vec(selected);
        let ghost sv = patches_view(sorted@);
        let mut ops: Vec<PatchOp> = Vec::new();
        let mut j: usize = 0;
        while j < sorted.len()
            invariant
                j <= sorted@.len(),
                sv == patches_view(sorted@),
                ops_view(ops@) == flat_ops(sv.take(j as int)),
            decreases sorted@.len() - j,
        {
            append_ops(&mut ops, &sorted[j].patch.operations);
            proof {
                let t = sv.take(j + 1);
                assert(t.drop_last() =~= sv.take(j as int));
                assert(t.last() == sorted@[j as int]@);
            }
            j = j + 1;
        }
        proof {
            assert(sv.take(sorted@.len() as int) =~= sv);
        }
        apply_operations(self.revision.revision.content.as_str(), ops.as_slice())
    }

    /// Commit all patches into a new revision.
    pub fn commit(&self, committer: &SigningKey) -> (res: SignedRevision)
        requires
            self.revision.revision.version < u64::MAX,
        ensures
            res@.revision.version == self@.revision.revision.version + 1,
            res@.revision.content == spec_render(self@),
            res@.revision.author == spec_contributor_id(ed25519_public_key(committer.0@)),
            res@.signature == ed25519_signature(committer.0@, revision_bytes(res@.revision)),
    {
        let committer_id = ContributorId::from_key(&committer.verifying_key());
        let new_revision = Revision {
            version: self.revision.revision.version + 1,
            content: self.render(),
            author: committer_id,
            created_at: now(),
        };
        SignedRevision::new(new_revision, committer)
    }
}

} // verus!

verus! {

/// The error text for a patch against another version.
pub open spec fn wrong_version_text(target: u64, current: u64) -> Seq<char> {
    "Patch targets version "@ + crate::text::decimal(target as nat) + " but current is "@
        + crate::text::decimal(current as nat)
}

/// Whether `add_patch` accepts the patch: it targets the current version, and it is
/// already there or there is room for it.
pub open spec fn add_patch_accepted(pg: SpecPage, p: SpecSignedPatch, max: nat) -> bool {
    &&& p.patch.target_version == pg.revision.revision.version
    &&& (patch_ids(pg.patches).contains(patch_id(p)) || pg.patches.len() < max)
}

/// The patches after `add_patch`: a new accepted patch is added and the list sorted;
/// otherwise nothing changes.
pub open spec fn spec_add_patch(pg: SpecPage, p: SpecSignedPatch, max: nat) -> Seq<SpecSignedPatch> {
    if add_patch_accepted(pg, p, max) && !patch_ids(pg.patches).contains(patch_id(p)) {
        sort_patches(pg.patches.push(p))
    } else {
        pg.patches
    }
}

/// The error text of a refused patch.
pub open spec fn add_patch_error(pg: SpecPage, p: SpecSignedPatch) -> Seq<char> {
    if p.patch.target_version != pg.revision.revision.version {
        wrong_version_text(p.patch.target_version, pg.revision.revision.version)
    } else {
        "Maximum pending patches reached"@
    }
}

fn find_patch(ps: &Vec<SignedPatch>, id: PatchId) -> (res: bool)
    ensures
        res == patch_ids(patches_view(ps@)).contains(id.0.0),
{
    let ghost ids = patch_ids(patches_view(ps@));
    let mut i: usize = 0;
    while i < ps.len()
        invariant
            i <= ps@.len(),
            ids == patch_ids(patches_view(ps@)),
            forall|j: int| 0 <= j < i ==> ids[j] != id.0.0,
        decreases ps@.len() - i,
    {
        if ps[i].id().0.0 == id.0.0 {
            assert(ids[i as int] == id.0.0);
            return true;
        }
        i = i + 1;
    }
    false
}

impl WikiPageV1 {
    /// Apply a new revision (from commit).
    pub fn apply_revision(&mut self, new_revision: SignedRevision) -> (res: Result<(), String>)
        ensures
            final(self)@.path == old(self)@.path,
            res is Ok <==> new_revision@.revision.version > old(self)@.revision.revision.version,
            res is Ok ==> final(self)@.revision == new_revision@ && final(self)@.patches
                == patches_from(old(self)@.patches, new_revision@.revision.version),
            res matches Err(e) ==> final(self)@ == old(self)@ && e@
                == "New revision version must be greater than current"@,
            page_wf(old(self)@) ==> page_wf(final(self)@),
    {
        if new_revision.revision.version <= self.revision.revision.version {
            proof {
                reveal_strlit("New revision version must be greater than current");
            }
            return Err(string_from("New revision version must be greater than current"));
        }
        self.revision = new_revision;
        let v = self.revision.revision.version;
        let mut src: Vec<SignedPatch> = Vec::new();
        std::mem::swap(&mut src, &mut self.patches);
        let ghost orig = patches_view(src@);
        let ghost mut k: int = 0;
        proof {
            assert(orig.skip(0) == orig);
            assert(orig.take(0) =~= Seq::<SpecSignedPatch>::empty());
            assert(patches_view(self.patches@) =~= Seq::<SpecSignedPatch>::empty());
        }
        while src.len() > 0
            invariant
                0 <= k <= orig.len(),
                v == self.revision.revision.version,
                patches_view(src@) == orig.skip(k),
                patches_view(self.patches@) == patches_from(orig.take(k), v),
                self.path == old(self).path,
                self.revision@ == new_revision@,
            decreases src@.len(),
        {
            let ghost before_src = src@;
            proof {
                assert(patches_view(before_src).len() == before_src.len());
                assert(patches_view(before_src)[0] == orig[k]);
            }
            let p = src.remove(0);
            proof {
                assert(patches_view(src@) =~= patches_view(before_src).drop_first());
                assert(patches_view(src@) =~= orig.skip(k + 1));
                let t = orig.take(k + 1);
                assert(t.drop_last() =~= orig.take(k));
                assert(t.last() == p@);
            }
            if p.patch.target_version >= v {
                let ghost before = self.patches@;
                self.patches.push(p);
                proof {
                    assert(patches_view(self.patches@) =~= patches_view(before).push(p@));
                }
            }
            proof {
                k = k + 1;
            }
        }
        proof {
            assert(orig.take(k) =~= orig);
            if page_wf(old(self)@) {
                lemma_distinct_ids(old(self)@.patches);
                lemma_patches_from_wf(old(self)@.patches, v);
                lemma_distinct_ids(self@.patches);
            }
        }
        Ok(())
    }

    /// Add a new patch.
    pub fn add_patch(&mut self, patch: SignedPatch, max_patches: usize) -> (res: Result<(), String>)
        ensures
            final(self)@.path == old(self)@.path,
            final(self)@.revision == old(self)@.revision,
            final(self)@.patches == spec_add_patch(old(self)@, patch@, max_patches as nat),
            res is Ok <==> add_patch_accepted(old(self)@, patch@, max_patches as nat),
            res matches Err(e) ==> e@ == add_patch_error(old(self)@, patch@),
            page_wf(old(self)@) ==> page_wf(final(self)@),
    {
        let current = self.revision.revision.version;
        if patch.patch.target_version != current {
            let mut text = String::new();
            proof {
                reveal_strlit("Patch targets version ");
                reveal_strlit(" but current is ");
            }
            crate::text::push_str(&mut text, "Patch targets version ");
            crate::text::push_decimal(&mut text, patch.patch.target_version);
            crate::text::push_str(&mut text, " but current is ");
            crate::text::push_decimal(&mut text, current);
            assert(text@ =~= wrong_version_text(patch.patch.target_version, current));
            return Err(text);
        }
        if find_patch(&self.patches, patch.id()) {
            return Ok(());
        }
        if self.patches.len() >= max_patches {
            proof {
                reveal_strlit("Maximum pending patches reached");
            }
            return Err(string_from("Maximum pending patches reached"));
        }
        let mut ps: Vec<SignedPatch> = Vec::new();
        std::mem::swap(&mut ps, &mut self.patches);
        let ghost before = ps@;
        ps.push(patch);
        proof {
            assert(patches_view(ps@) =~= patches_view(before).push(patch@));
        }
        self.patches = sort_patch_vec(ps);
        proof {
            if page_wf(old(self)@) {
                law_add_patch_keeps_ids_distinct(old(self)@, patch@, max_patches as nat);
                law_add_patch_keeps_order(old(self)@, patch@, max_patches as nat);
            }
        }
        Ok(())
    }
}

} // verus!

verus! {

/// Summary of a page for sync.
#[derive(Debug)]
pub struct PageSummary {
    pub revision_version: u64,
    /// The identifiers of the pending patches, each listed once.
    pub patch_ids: Vec<PatchId>,
}

/// The mathematical value of a page summary.
pub struct SpecPageSummary {
    pub revision_version: u64,
    pub patch_ids: Seq<u64>,
}

/// The raw values of a list of patch identifiers.
pub open spec fn patch_id_values(ids: Seq<PatchId>) -> Seq<u64> {
    ids.map_values(|i: PatchId| i.0.0)
}

impl View for PageSummary {
    type V = SpecPageSummary;

    open spec fn view(&self) -> SpecPageSummary {
        SpecPageSummary {
            revision_version: self.revision_version,
            patch_ids: patch_id_values(self.patch_ids@),
        }
    }
}

impl Clone for PageSummary {
    fn clone(&self) -> (res: Self)
        ensures
            res@ == self@,
    {
        let ids = self.patch_ids.clone();
        proof {
            assert(patch_id_values(ids@) =~= patch_id_values(self.patch_ids@));
        }
        PageSummary { revision_version: self.revision_version, patch_ids: ids }
    }
}

/// The summary of a page: its version, and its patch identifiers in order of first
/// occurrence, each once.
pub open spec fn spec_page_summary(pg: SpecPage) -> SpecPageSummary {
    SpecPageSummary {
        revision_version: pg.revision.revision.version,
        patch_ids: crate::text::dedup(patch_ids(pg.patches)),
    }
}

/// `s` summarizes `pg`: the current version, and each patch identifier once.
pub open spec fn is_page_summary_of(s: SpecPageSummary, pg: SpecPage) -> bool {
    &&& s.revision_version == pg.revision.revision.version
    &&& s.patch_ids.no_duplicates()
    &&& forall|x: u64| s.patch_ids.contains(x) <==> patch_ids(pg.patches).contains(x)
}

/// Delta for page updates.
#[derive(Debug)]
pub enum PageDelta {
    /// A completely new page
    NewPage(WikiPageV1),
    /// Updates to an existing page
    Updates {
        /// New revision (from commit)
        new_revision: Option<SignedRevision>,
        /// New patches
        new_patches: Vec<SignedPatch>,
    },
}

/// The mathematical value of a page delta.
pub enum SpecPageDelta {
    NewPage(SpecPage),
    Updates { new_revision: Option<SpecSignedRevision>, new_patches: Seq<SpecSignedPatch> },
}

impl View for PageDelta {
    type V = SpecPageDelta;

    open spec fn view(&self) -> SpecPageDelta {
        match self {
            PageDelta::NewPage(p) => SpecPageDelta::NewPage(p@),
            PageDelta::Updates { new_revision, new_patches } => SpecPageDelta::Updates {
                new_revision: match new_revision {
                    Some(r) => Some(r@),
                    None => None,
                },
                new_patches: patches_view(new_patches@),
            },
        }
    }
}

impl Clone for PageDelta {
    fn clone(&self) -> (res: Self)
        ensures
            res@ == self@,
    {
        match self {
            PageDelta::NewPage(p) => PageDelta::NewPage(p.clone()),
            PageDelta::Updates { new_revision, new_patches } => PageDelta::Updates {
                new_revision: match new_revision {
                    Some(r) => Some(r.clone()),
                    None => None,
                },
                new_patches: clone_patches(new_patches),
            },
        }
    }
}

/// The patches whose identifier is not in `known`, in order.
pub open spec fn unknown_patches(s: Seq<SpecSignedPatch>, known: Seq<u64>) -> Seq<SpecSignedPatch>
    decreases s.len(),
{
    if s.len() == 0 {
        s
    } else {
        let r = unknown_patches(s.drop_last(), known);
        if known.contains(patch_id(s.last())) {
            r
        } else {
            r.push(s.last())
        }
    }
}

/// What a peer holding summary `s` lacks of `pg`: the revision if it is newer, and the
/// patches it does not know; nothing if it lacks neither.
pub open spec fn spec_compute_delta(pg: SpecPage, s: SpecPageSummary) -> Option<SpecPageDelta> {
    let rev = if pg.revision.revision.version > s.revision_version {
        Some(pg.revision)
    } else {
        None
    };
    let ps = unknown_patches(pg.patches, s.patch_ids);
    if rev is None && ps.len() == 0 {
        None
    } else {
        Some(SpecPageDelta::Updates { new_revision: rev, new_patches: ps })
    }
}

fn contains_patch_id(ids: &Vec<PatchId>, id: PatchId) -> (res: bool)
    ensures
        res == patch_id_values(ids@).contains(id.0.0),
{
    let ghost vals = patch_id_values(ids@);
    let mut i: usize = 0;
    while i < ids.len()
        invariant
            i <= ids@.len(),
            vals == patch_id_values(ids@),
            forall|j: int| 0 <= j < i ==> vals[j] != id.0.0,
        decreases ids@.len() - i,
    {
        if ids[i].0.0 == id.0.0 {
            assert(vals[i as int] == id.0.0);
            return true;
        }
        i = i + 1;
    }
    false
}

impl WikiPageV1 {
    /// Generate a summary for sync.
    pub fn summarize(&self) -> (res: PageSummary)
        ensures
            res@ == spec_page_summary(self@),
            is_page_summary_of(res@, self@),
    {
        let ghost ids = patch_ids(patches_view(self.patches@));
        let mut out: Vec<PatchId> = Vec::new();
        let mut k: usize = 0;
        while k < self.patches.len()
            invariant
                k <= self.patches@.len(),
                ids == patch_ids(patches_view(self.patches@)),
                patch_id_values(out@) == crate::text::dedup(ids.take(k as int)),
            decreases self.patches@.len() - k,
        {
            let pid = self.patches[k].id();
            let ghost before = patch_id_values(out@);
            proof {
                let t = ids.take(k + 1);
                assert(t.drop_last() =~= ids.take(k as int));
                assert(t.last() == pid.0.0);
            }
            if !contains_patch_id(&out, pid) {
                out.push(pid);
                proof {
                    assert(patch_id_values(out@) =~= before.push(pid.0.0));
                }
            }
            k = k + 1;
        }
        proof {
            assert(ids.take(self.patches@.len() as int) =~= ids);
            crate::text::lemma_dedup(ids);
        }
        PageSummary { revision_version: self.revision.revision.version, patch_ids: out }
    }

    /// Compute delta from old summary.
    pub fn compute_delta(&self, old_summary: &PageSummary) -> (res: Option<PageDelta>)
        ensures
            match res {
                Some(d) => spec_compute_delta(self@, old_summary@) == Some(d@),
                None => spec_compute_delta(self@, old_summary@) is None,
            },
    {
        let new_revision = if self.revision.revision.version > old_summary.revision_version {
            Some(self.revision.clone())
        } else {
            None
        };
        let ghost all = patches_view(self.patches@);
        let ghost known = old_summary@.patch_ids;
        let mut new_patches: Vec<SignedPatch> = Vec::new();
        let mut i: usize = 0;
        while i < self.patches.len()
            invariant
                i <= self.patches@.len(),
                all == patches_view(self.patches@),
                known == patch_id_values(old_summary.patch_ids@),
                patches_view(new_patches@) == unknown_patches(all.take(i as int), known),
            decreases self.patches@.len() - i,
        {
            proof {
                let t = all.take(i + 1);
                assert(t.drop_last() =~= all.take(i as int));
                assert(t.last() == self.patches@[i as int]@);
            }
            if !contains_patch_id(&old_summary.patch_ids, self.patches[i].id()) {
                let p = self.patches[i].clone();
                let ghost before = new_patches@;
                new_patches.push(p);
                proof {
                    assert(patches_view(new_patches@) =~= patches_view(before).push(p@));
                }
            }
            i = i + 1;
        }
        proof {
            assert(all.take(self.patches@.len() as int) =~= all);
        }
        if new_revision.is_none() && new_patches.len() == 0 {
            None
        } else {
            Some(PageDelta::Updates { new_revision, new_patches })
        }
    }
}

} // verus!

verus! {

// ---------------------------------------------------------------------------
// Laws of pages
// ---------------------------------------------------------------------------

/// No two patches share an identifier.
pub open spec fn distinct_ids(s: Seq<SpecSignedPatch>) -> bool {
    forall|i: int, j: int| 0 <= i < j < s.len() ==> patch_id(s[i]) != patch_id(s[j])
}

/// The patches are in (creation time, identifier) order.
pub open spec fn sorted_patches(s: Seq<SpecSignedPatch>) -> bool {
    forall|i: int, j: int| 0 <= i < j < s.len() ==> !key_lt(s[j], s[i])
}

/// A well-formed page: no two pending patches share an identifier, and they are in
/// (creation time, identifier) order.
pub open spec fn page_wf(pg: SpecPage) -> bool {
    patch_ids(pg.patches).no_duplicates() && sorted_patches(pg.patches)
}

proof fn lemma_ids_contains(s: Seq<SpecSignedPatch>, id: u64)
    ensures
        patch_ids(s).contains(id) <==> exists|i: int| 0 <= i < s.len() && patch_id(s[i]) == id,
{
    if patch_ids(s).contains(id) {
        let i = choose|i: int| 0 <= i < patch_ids(s).len() && patch_ids(s)[i] == id;
        assert(patch_id(s[i]) == id);
    }
    if exists|i: int| 0 <= i < s.len() && patch_id(s[i]) == id {
        let i = choose|i: int| 0 <= i < s.len() && patch_id(s[i]) == id;
        assert(patch_ids(s)[i] == id);
    }
}

proof fn lemma_distinct_ids(s: Seq<SpecSignedPatch>)
    ensures
        patch_ids(s).no_duplicates() <==> distinct_ids(s),
{
    if patch_ids(s).no_duplicates() {
        assert forall|i: int, j: int| 0 <= i < j < s.len() implies patch_id(s[i]) != patch_id(
            s[j],
        ) by {
            assert(patch_ids(s)[i] == patch_id(s[i]));
            assert(patch_ids(s)[j] == patch_id(s[j]));
        }
    }
    if distinct_ids(s) {
        assert forall|i: int, j: int|
            0 <= i < patch_ids(s).len() && 0 <= j < patch_ids(s).len() && i != j implies patch_ids(
            s,
        )[i] != patch_ids(s)[j] by {
            if i < j {
                assert(patch_id(s[i]) != patch_id(s[j]));
            } else {
                assert(patch_id(s[j]) != patch_id(s[i]));
            }
        }
    }
}

proof fn lemma_insert_pos_split(s: Seq<SpecSignedPatch>, x: SpecSignedPatch)
    ensures
        forall|i: int| 0 <= i < insert_pos(s, x) ==> !key_lt(x, #[trigger] s[i]),
        insert_pos(s, x) < s.len() ==> key_lt(x, s[insert_pos(s, x)]),
    decreases s.len(),
{
    lemma_insert_pos_bounds(s, x);
    if s.len() > 0 && !key_lt(x, s[0]) {
        lemma_insert_pos_split(s.drop_first(), x);
        lemma_insert_pos_bounds(s.drop_first(), x);
        let q = insert_pos(s.drop_first(), x);
        if q < s.len() - 1 {
            assert(s[q + 1] == s.drop_first()[q]);
        }
        assert forall|i: int| 0 <= i < insert_pos(s, x) implies !key_lt(x, #[trigger] s[i]) by {
            if i > 0 {
                assert(s[i] == s.drop_first()[i - 1]);
            }
        }
    }
}

proof fn lemma_key_lt_transitive(a: SpecSignedPatch, b: SpecSignedPatch, c: SpecSignedPatch)
    requires
        key_lt(a, b),
        key_lt(b, c),
    ensures
        key_lt(a, c),
{
}

pub(crate) proof fn lemma_sort_contains(s: Seq<SpecSignedPatch>)
    ensures
        forall|x: SpecSignedPatch| #[trigger] sort_patches(s).contains(x) <==> s.contains(x),
    decreases s.len(),
{
    if s.len() > 0 {
        let t = sort_patches(s.drop_last());
        let x = s.last();
        lemma_sort_contains(s.drop_last());
        lemma_insert_pos_bounds(t, x);
        let p = insert_pos(t, x);
        let u = t.insert(p, x);
        assert forall|y: SpecSignedPatch| #[trigger] u.contains(y) <==> s.contains(y) by {
            if u.contains(y) {
                let i = choose|i: int| 0 <= i < u.len() && u[i] == y;
                if i < p {
                    assert(t[i] == y);
                    assert(t.contains(y));
                    let j = choose|j: int| 0 <= j < s.drop_last().len() && s.drop_last()[j] == y;
                    assert(s[j] == y);
                } else if i > p {
                    assert(t[i - 1] == y);
                    assert(t.contains(y));
                    let j = choose|j: int| 0 <= j < s.drop_last().len() && s.drop_last()[j] == y;
                    assert(s[j] == y);
                } else {
                    assert(s[s.len() - 1] == y);
                }
            }
            if s.contains(y) {
                let j = choose|j: int| 0 <= j < s.len() && s[j] == y;
                if j == s.len() - 1 {
                    assert(u[p] == y);
                } else {
                    assert(s.drop_last()[j] == y);
                    assert(t.contains(y));
                    let i = choose|i: int| 0 <= i < t.len() && t[i] == y;
                    if i < p {
                        assert(u[i] == y);
                    } else {
                        assert(u[i + 1] == y);
                    }
                }
            }
        }
    }
}

proof fn lemma_sort_sorted(s: Seq<SpecSignedPatch>)
    ensures
        sorted_patches(sort_patches(s)),
    decreases s.len(),
{
    if s.len() > 0 {
        let t = sort_patches(s.drop_last());
        let x = s.last();
        lemma_sort_sorted(s.drop_last());
        lemma_insert_pos_bounds(t, x);
        lemma_insert_pos_split(t, x);
        let p = insert_pos(t, x);
        let u = t.insert(p, x);
        assert forall|i: int, j: int| 0 <= i < j < u.len() implies !key_lt(u[j], u[i]) by {
            if j < p {
                assert(u[i] == t[i] && u[j] == t[j]);
            } else if j == p {
                assert(u[i] == t[i]);
                assert(!key_lt(x, t[i]));
            } else if i > p {
                assert(u[i] == t[i - 1] && u[j] == t[j - 1]);
            } else if i == p {
                assert(u[j] == t[j - 1]);
                assert(key_lt(x, t[p]));
                if key_lt(t[j - 1], x) {
                    if j - 1 > p {
                        assert(!key_lt(t[j - 1], t[p]));
                        lemma_key_lt_transitive(t[j - 1], x, t[p]);
                    }
                }
            } else {
                assert(u[i] == t[i] && u[j] == t[j - 1]);
            }
        }
    }
}

proof fn lemma_sort_distinct(s: Seq<SpecSignedPatch>)
    requires
        distinct_ids(s),
    ensures
        distinct_ids(sort_patches(s)),
    decreases s.len(),
{
    if s.len() > 0 {
        let t = sort_patches(s.drop_last());
        let x = s.last();
        lemma_sort_distinct(s.drop_last());
        lemma_sort_contains(s.drop_last());
        lemma_insert_pos_bounds(t, x);
        let p = insert_pos(t, x);
        let u = t.insert(p, x);
        assert forall|k: int| 0 <= k < t.len() implies patch_id(#[trigger] t[k]) != patch_id(x) by {
            assert(t.contains(t[k]));
            assert(s.drop_last().contains(t[k]));
            let j = choose|j: int| 0 <= j < s.drop_last().len() && s.drop_last()[j] == t[k];
            assert(s[j] == t[k]);
        }
        assert forall|i: int, j: int| 0 <= i < j < u.len() implies patch_id(u[i]) != patch_id(
            u[j],
        ) by {
            if j < p {
                assert(u[i] == t[i] && u[j] == t[j]);
            } else if j == p {
                assert(u[i] == t[i]);
            } else if i > p {
                assert(u[i] == t[i - 1] && u[j] == t[j - 1]);
            } else if i == p {
                assert(u[j] == t[j - 1]);
            } else {
                assert(u[i] == t[i] && u[j] == t[j - 1]);
            }
        }
    }
}

proof fn lemma_sorted_unique(a: Seq<SpecSignedPatch>, b: Seq<SpecSignedPatch>)
    requires
        sorted_patches(a),
        sorted_patches(b),
        distinct_ids(a),
        distinct_ids(b),
        forall|x: SpecSignedPatch| a.contains(x) <==> b.contains(x),
    ensures
        a == b,
    decreases a.len(),
{
    if a.len() == 0 {
        if b.len() > 0 {
            assert(b.contains(b[0]));
        }
        assert(a =~= b);
    } else if b.len() == 0 {
        assert(a.contains(a[0]));
    } else {
        assert(b.contains(b[0]));
        assert(a.contains(a[0]));
        let j = choose|j: int| 0 <= j < a.len() && a[j] == b[0];
        let i = choose|i: int| 0 <= i < b.len() && b[i] == a[0];
        if j > 0 {
            assert(!key_lt(a[j], a[0]));
            assert(patch_id(a[0]) != patch_id(a[j]));
            assert(key_lt(a[0], b[0]));
            assert(i != 0);
            assert(!key_lt(b[i], b[0]));
            assert(patch_id(b[0]) != patch_id(b[i]));
            assert(false);
        }
        assert(a[0] == b[0]);
        let a1 = a.drop_first();
        let b1 = b.drop_first();
        assert forall|x: SpecSignedPatch| a1.contains(x) <==> b1.contains(x) by {
            if a1.contains(x) {
                let k = choose|k: int| 0 <= k < a1.len() && a1[k] == x;
                assert(a[k + 1] == x);
                assert(patch_id(a[0]) != patch_id(a[k + 1]));
                assert(b.contains(x));
                let m = choose|m: int| 0 <= m < b.len() && b[m] == x;
                assert(m != 0);
                assert(b1[m - 1] == x);
            }
            if b1.contains(x) {
                let k = choose|k: int| 0 <= k < b1.len() && b1[k] == x;
                assert(b[k + 1] == x);
                assert(patch_id(b[0]) != patch_id(b[k + 1]));
                assert(a.contains(x));
                let m = choose|m: int| 0 <= m < a.len() && a[m] == x;
                assert(m != 0);
                assert(a1[m - 1] == x);
            }
        }
        assert(sorted_patches(a1)) by {
            assert forall|p: int, q: int| 0 <= p < q < a1.len() implies !key_lt(a1[q], a1[p]) by {
                assert(a1[q] == a[q + 1] && a1[p] == a[p + 1]);
            }
        }
        assert(sorted_patches(b1)) by {
            assert forall|p: int, q: int| 0 <= p < q < b1.len() implies !key_lt(b1[q], b1[p]) by {
                assert(b1[q] == b[q + 1] && b1[p] == b[p + 1]);
            }
        }
        assert(distinct_ids(a1)) by {
            assert forall|p: int, q: int| 0 <= p < q < a1.len() implies patch_id(a1[p]) != patch_id(
                a1[q],
            ) by {
                assert(a1[q] == a[q + 1] && a1[p] == a[p + 1]);
            }
        }
        assert(distinct_ids(b1)) by {
            assert forall|p: int, q: int| 0 <= p < q < b1.len() implies patch_id(b1[p]) != patch_id(
                b1[q],
            ) by {
                assert(b1[q] == b[q + 1] && b1[p] == b[p + 1]);
            }
        }
        lemma_sorted_unique(a1, b1);
        assert(a =~= b) by {
            assert forall|k: int| 0 <= k < a.len() implies a[k] == b[k] by {
                if k > 0 {
                    assert(a[k] == a1[k - 1]);
                    assert(b[k] == b1[k - 1]);
                }
            }
        }
    }
}

} // verus!

verus! {

/// The page with another list of patches.
pub open spec fn with_patches(pg: SpecPage, ps: Seq<SpecSignedPatch>) -> SpecPage {
    SpecPage { path: pg.path, revision: pg.revision, patches: ps }
}

proof fn lemma_add_new_patch(pg: SpecPage, p: SpecSignedPatch)
    requires
        distinct_ids(pg.patches),
        !patch_ids(pg.patches).contains(patch_id(p)),
    ensures
        distinct_ids(pg.patches.push(p)),
        distinct_ids(sort_patches(pg.patches.push(p))),
        sorted_patches(sort_patches(pg.patches.push(p))),
        sort_patches(pg.patches.push(p)).len() == pg.patches.len() + 1,
        forall|x: SpecSignedPatch| #[trigger] sort_patches(pg.patches.push(p)).contains(x) <==> (
        pg.patches.contains(x) || x == p),
{
    let s = pg.patches.push(p);
    lemma_ids_contains(pg.patches, patch_id(p));
    assert forall|i: int, j: int| 0 <= i < j < s.len() implies patch_id(s[i]) != patch_id(s[j]) by {
        if j < s.len() - 1 {
            assert(s[i] == pg.patches[i] && s[j] == pg.patches[j]);
        } else {
            assert(s[i] == pg.patches[i]);
        }
    }
    lemma_sort_distinct(s);
    lemma_sort_sorted(s);
    lemma_sort_len(s);
    lemma_sort_contains(s);
    assert forall|x: SpecSignedPatch| s.contains(x) <==> (pg.patches.contains(x) || x == p) by {
        if s.contains(x) {
            let i = choose|i: int| 0 <= i < s.len() && s[i] == x;
            if i < s.len() - 1 {
                assert(pg.patches[i] == x);
            }
        }
        if pg.patches.contains(x) {
            let i = choose|i: int| 0 <= i < pg.patches.len() && pg.patches[i] == x;
            assert(s[i] == x);
        }
        if x == p {
            assert(s[s.len() - 1] == x);
        }
    }
}

/// Patches merge commutatively: two new patches against the current version, added in
/// either order, leave the same pending patches (so the page renders the same), provided
/// the identifiers are distinct and there is room for both.
pub proof fn law_add_patch_commutes(pg: SpecPage, p: SpecSignedPatch, q: SpecSignedPatch, max: nat)
    requires
        patch_ids(pg.patches).no_duplicates(),
        p.patch.target_version == pg.revision.revision.version,
        q.patch.target_version == pg.revision.revision.version,
        patch_id(p) != patch_id(q),
        !patch_ids(pg.patches).contains(patch_id(p)),
        !patch_ids(pg.patches).contains(patch_id(q)),
        pg.patches.len() + 2 <= max,
    ensures
        ({
            let after_p = with_patches(pg, spec_add_patch(pg, p, max));
            let after_q = with_patches(pg, spec_add_patch(pg, q, max));
            &&& add_patch_accepted(pg, p, max)
            &&& add_patch_accepted(pg, q, max)
            &&& add_patch_accepted(after_p, q, max)
            &&& add_patch_accepted(after_q, p, max)
            &&& spec_add_patch(after_p, q, max) == spec_add_patch(after_q, p, max)
        }),
{
    lemma_distinct_ids(pg.patches);
    let a = sort_patches(pg.patches.push(p));
    let c = sort_patches(pg.patches.push(q));
    lemma_add_new_patch(pg, p);
    lemma_add_new_patch(pg, q);
    let after_p = with_patches(pg, a);
    let after_q = with_patches(pg, c);
    lemma_ids_contains(a, patch_id(q));
    lemma_ids_contains(c, patch_id(p));
    lemma_ids_contains(pg.patches, patch_id(p));
    lemma_ids_contains(pg.patches, patch_id(q));
    assert(!patch_ids(a).contains(patch_id(q))) by {
        if patch_ids(a).contains(patch_id(q)) {
            let i = choose|i: int| 0 <= i < a.len() && patch_id(a[i]) == patch_id(q);
            assert(a.contains(a[i]));
            if a[i] != p {
                let j = choose|j: int| 0 <= j < pg.patches.len() && pg.patches[j] == a[i];
                assert(patch_id(pg.patches[j]) == patch_id(q));
            }
        }
    }
    assert(!patch_ids(c).contains(patch_id(p))) by {
        if patch_ids(c).contains(patch_id(p)) {
            let i = choose|i: int| 0 <= i < c.len() && patch_id(c[i]) == patch_id(p);
            assert(c.contains(c[i]));
            if c[i] != q {
                let j = choose|j: int| 0 <= j < pg.patches.len() && pg.patches[j] == c[i];
                assert(patch_id(pg.patches[j]) == patch_id(p));
            }
        }
    }
    lemma_distinct_ids(a);
    lemma_distinct_ids(c);
    lemma_add_new_patch(after_p, q);
    lemma_add_new_patch(after_q, p);
    let b = sort_patches(a.push(q));
    let d = sort_patches(c.push(p));
    assert forall|x: SpecSignedPatch| b.contains(x) <==> d.contains(x) by {
        assert(b.contains(x) <==> (a.contains(x) || x == q));
        assert(d.contains(x) <==> (c.contains(x) || x == p));
    }
    lemma_sorted_unique(b, d);
}

/// Adding a patch never gives two pending patches the same identifier.
pub proof fn law_add_patch_keeps_ids_distinct(pg: SpecPage, p: SpecSignedPatch, max: nat)
    requires
        patch_ids(pg.patches).no_duplicates(),
    ensures
        patch_ids(spec_add_patch(pg, p, max)).no_duplicates(),
{
    lemma_distinct_ids(pg.patches);
    if add_patch_accepted(pg, p, max) && !patch_ids(pg.patches).contains(patch_id(p)) {
        lemma_add_new_patch(pg, p);
        lemma_distinct_ids(sort_patches(pg.patches.push(p)));
    }
}

/// Pending patches in (creation time, identifier) order stay in that order when a patch
/// is added.
pub proof fn law_add_patch_keeps_order(pg: SpecPage, p: SpecSignedPatch, max: nat)
    requires
        sorted_patches(pg.patches),
    ensures
        sorted_patches(spec_add_patch(pg, p, max)),
{
    if add_patch_accepted(pg, p, max) && !patch_ids(pg.patches).contains(patch_id(p)) {
        lemma_sort_sorted(pg.patches.push(p));
    }
}

proof fn lemma_unknown_patches_empty(s: Seq<SpecSignedPatch>, known: Seq<u64>)
    requires
        forall|i: int| 0 <= i < s.len() ==> known.contains(#[trigger] patch_id(s[i])),
    ensures
        unknown_patches(s, known).len() == 0,
    decreases s.len(),
{
    if s.len() > 0 {
        assert(known.contains(patch_id(s[s.len() - 1])));
        lemma_unknown_patches_empty(s.drop_last(), known);
    }
}

/// A page has nothing to send to a peer that holds its own summary.
pub proof fn law_page_delta_against_own_summary_is_empty(pg: SpecPage, s: SpecPageSummary)
    requires
        is_page_summary_of(s, pg),
    ensures
        spec_compute_delta(pg, s) is None,
{
    assert forall|i: int| 0 <= i < pg.patches.len() implies s.patch_ids.contains(
        #[trigger] patch_id(pg.patches[i]),
    ) by {
        assert(patch_ids(pg.patches)[i] == patch_id(pg.patches[i]));
    }
    lemma_unknown_patches_empty(pg.patches, s.patch_ids);
}

pub(crate) proof fn lemma_patches_from_contains(s: Seq<SpecSignedPatch>, v: u64)
    ensures
        forall|x: SpecSignedPatch| #[trigger] patches_from(s, v).contains(x) ==> s.contains(x)
            && x.patch.target_version >= v,
    decreases s.len(),
{
    if s.len() > 0 {
        lemma_patches_from_contains(s.drop_last(), v);
        let r = patches_from(s.drop_last(), v);
        assert forall|x: SpecSignedPatch| #[trigger] patches_from(s, v).contains(x) implies s.contains(
            x,
        ) && x.patch.target_version >= v by {
            let t = patches_from(s, v);
            let i = choose|i: int| 0 <= i < t.len() && t[i] == x;
            if i < r.len() {
                assert(r[i] == x);
                assert(r.contains(x));
                let j = choose|j: int| 0 <= j < s.drop_last().len() && s.drop_last()[j] == x;
                assert(s[j] == x);
            } else {
                assert(s[s.len() - 1] == x);
            }
        }
    }
}

/// After a newer revision is applied, every pending patch targets that version or a
/// later one.
pub proof fn law_applied_revision_drops_older_patches(s: Seq<SpecSignedPatch>, v: u64)
    ensures
        forall|i: int|
            0 <= i < patches_from(s, v).len() ==> #[trigger] patches_from(s, v)[i].patch.target_version
                >= v,
{
    lemma_patches_from_contains(s, v);
    assert forall|i: int| 0 <= i < patches_from(s, v).len() implies #[trigger] patches_from(
        s,
        v,
    )[i].patch.target_version >= v by {
        assert(patches_from(s, v).contains(patches_from(s, v)[i]));
    }
}

proof fn lemma_patches_for_from(s: Seq<SpecSignedPatch>, w: u64)
    ensures
        patches_for(patches_from(s, w), w) == patches_for(s, w),
    decreases s.len(),
{
    if s.len() > 0 {
        lemma_patches_for_from(s.drop_last(), w);
        let r = patches_from(s.drop_last(), w);
        if s.last().patch.target_version >= w {
            assert(patches_from(s, w).drop_last() == r);
        }
    }
}

proof fn lemma_patches_for_none(s: Seq<SpecSignedPatch>, w: u64)
    requires
        forall|i: int| 0 <= i < s.len() ==> (#[trigger] s[i]).patch.target_version != w,
    ensures
        patches_for(s, w).len() == 0,
    decreases s.len(),
{
    if s.len() > 0 {
        assert(s[s.len() - 1].patch.target_version != w);
        lemma_patches_for_none(s.drop_last(), w);
    }
}

/// Committing keeps the page: the page that results from applying the commit of a page
/// renders as that page did, when no pending patch targets the new version and the
/// rendered text is in normal form (no trailing newline, no carriage return before a
/// newline).
pub proof fn law_commit_keeps_rendered_text(pg: SpecPage, rev: SpecSignedRevision)
    requires
        rev.revision.version == pg.revision.revision.version + 1,
        rev.revision.content == spec_render(pg),
        crate::text::is_normalized_text(spec_render(pg)),
        forall|i: int|
            0 <= i < pg.patches.len() ==> (#[trigger] pg.patches[i]).patch.target_version
                != rev.revision.version,
    ensures
        spec_render(
            SpecPage {
                path: pg.path,
                revision: rev,
                patches: patches_from(pg.patches, rev.revision.version),
            },
        ) == spec_render(pg),
{
    let w = rev.revision.version;
    lemma_patches_for_from(pg.patches, w);
    lemma_patches_for_none(pg.patches, w);
    let e = patches_for(patches_from(pg.patches, w), w);
    assert(e.len() == 0);
    assert(sort_patches(e) == e);
    assert(flat_ops(e) =~= Seq::<SpecPatchOp>::empty());
    crate::patch_ops::law_no_operations_keep_text(spec_render(pg));
}

} // verus!

verus! {

/// The view of an optional signed revision.
pub open spec fn opt_revision_view(r: Option<SignedRevision>) -> Option<SpecSignedRevision> {
    match r {
        Some(x) => Some(x@),
        None => None,
    }
}

} // verus!

verus! {

proof fn lemma_patches_from_wf(s: Seq<SpecSignedPatch>, v: u64)
    requires
        distinct_ids(s),
        sorted_patches(s),
    ensures
        distinct_ids(patches_from(s, v)),
        sorted_patches(patches_from(s, v)),
    decreases s.len(),
{
    if s.len() > 0 {
        let p = s.drop_last();
        let x = s.last();
        assert(distinct_ids(p) && sorted_patches(p)) by {
            assert forall|i: int, j: int| 0 <= i < j < p.len() implies patch_id(p[i]) != patch_id(
                p[j],
            ) && !key_lt(p[j], p[i]) by {
                assert(p[i] == s[i] && p[j] == s[j]);
            }
        }
        lemma_patches_from_wf(p, v);
        lemma_patches_from_contains(p, v);
        let r = patches_from(p, v);
        if x.patch.target_version < v {
            assert(patches_from(s, v) == r);
        } else {
            let t = r.push(x);
            assert(patches_from(s, v) == t);
            assert forall|i: int, j: int|
                #![trigger t[i], t[j]]
                0 <= i < j < t.len() implies patch_id(t[i]) != patch_id(t[j]) && !key_lt(
                t[j],
                t[i],
            ) by {
                if j < r.len() {
                    assert(t[i] == r[i] && t[j] == r[j]);
                } else {
                    assert(t[i] == r[i]);
                    assert(r.contains(r[i]));
                    let k = choose|k: int| 0 <= k < p.len() && p[k] == r[i];
                    assert(s[k] == r[i]);
                    assert(t[j] == s[s.len() - 1]);
                }
            }
        }
    }
}

} // verus!

verus! {

/// The patch sort gives a permutation of its input in (creation time, identifier) order.
pub proof fn law_sort_patches_is_sorted_permutation(s: Seq<SpecSignedPatch>)
    ensures
        sorted_patches(sort_patches(s)),
        sort_patches(s).len() == s.len(),
        sort_patches(s).to_multiset() == s.to_multiset(),
    decreases s.len(),
{
    lemma_sort_sorted(s);
    lemma_sort_len(s);
    if s.len() > 0 {
        broadcast use vstd::seq_lib::to_multiset_build, vstd::seq_lib::to_multiset_insert;

        let t = sort_patches(s.drop_last());
        law_sort_patches_is_sorted_permutation(s.drop_last());
        lemma_insert_pos_bounds(t, s.last());
        assert(s.drop_last().push(s.last()) =~= s);
        assert(t.insert(insert_pos(t, s.last()), s.last()).to_multiset() == t.to_multiset().insert(
            s.last(),
        ));
        assert(s.drop_last().push(s.last()).to_multiset() == s.drop_last().to_multiset().insert(
            s.last(),
        ));
    }
}

proof fn lemma_patches_for_contains(s: Seq<SpecSignedPatch>, v: u64)
    ensures
        forall|x: SpecSignedPatch| #[trigger] patches_for(s, v).contains(x) <==> (s.contains(x)
            && x.patch.target_version == v),
    decreases s.len(),
{
    if s.len() > 0 {
        broadcast use vstd::seq_lib::lemma_seq_contains_after_push;

        let p = s.drop_last();
        lemma_patches_for_contains(p, v);
        assert forall|x: SpecSignedPatch| s.contains(x) <==> (p.contains(x) || x == s.last()) by {
            if s.contains(x) {
                let i = choose|i: int| 0 <= i < s.len() && s[i] == x;
                if i < s.len() - 1 {
                    assert(p[i] == x);
                }
            }
            if p.contains(x) {
                let i = choose|i: int| 0 <= i < p.len() && p[i] == x;
                assert(s[i] == x);
            }
            if x == s.last() {
                assert(s[s.len() - 1] == x);
            }
        }
        let r = patches_for(p, v);
        if s.last().patch.target_version == v {
            assert(patches_for(s, v) == r.push(s.last()));
        } else {
            assert(patches_for(s, v) == r);
        }
        assert forall|x: SpecSignedPatch| #[trigger] patches_for(s, v).contains(x) <==> (s.contains(x)
            && x.patch.target_version == v) by {
            assert(p.contains(x) ==> (r.contains(x) <==> x.patch.target_version == v));
        }
    }
}

/// Rendering applies the operations of exactly the patches that target the current
/// version (each once), patch by patch in ascending (creation time, identifier) order.
pub proof fn law_render_applies_current_patches_in_order(pg: SpecPage)
    ensures
        ({
            let v = pg.revision.revision.version;
            let q = sort_patches(patches_for(pg.patches, v));
            &&& spec_render(pg) == crate::patch_ops::spec_apply_operations(
                pg.revision.revision.content,
                flat_ops(q),
            )
            &&& sorted_patches(q)
            &&& q.to_multiset() == patches_for(pg.patches, v).to_multiset()
            &&& forall|x: SpecSignedPatch|
                #[trigger] patches_for(pg.patches, v).contains(x) <==> (pg.patches.contains(x)
                    && x.patch.target_version == v)
        }),
{
    let v = pg.revision.revision.version;
    law_sort_patches_is_sorted_permutation(patches_for(pg.patches, v));
    lemma_patches_for_contains(pg.patches, v);
}

/// Adding a patch only adds that patch: every pending patch afterwards was pending
/// before or is the new one.
pub proof fn law_add_patch_only_adds(pg: SpecPage, p: SpecSignedPatch, max: nat)
    ensures
        forall|x: SpecSignedPatch| #[trigger] spec_add_patch(pg, p, max).contains(x) ==> (
        pg.patches.contains(x) || x == p),
{
    broadcast use vstd::seq_lib::lemma_seq_contains_after_push;

    lemma_sort_contains(pg.patches.push(p));
}

} // verus!

verus! {

/// The shape of a normalized path: never empty, no `'/'` at either end, `"home"` when
/// the lowercased name is only slashes; and without `"//"` when the lowercased name has
/// no `"///"`.
pub proof fn law_normalize_shape(path: Seq<char>)
    ensures
        ({
            let r = spec_normalize(path);
            let t = trim_char(unicode_lowercase(path), '/');
            &&& r.len() > 0
            &&& r[0] != '/'
            &&& r.last() != '/'
            &&& (t.len() == 0 ==> r == home_path())
            &&& (crate::text::no_triple_slash(unicode_lowercase(path))
                ==> crate::text::no_double_slash(r))
        }),
{
    let lower = unicode_lowercase(path);
    let t = trim_char(lower, '/');
    crate::text::lemma_trim_char_shape(lower, '/');
    crate::text::lemma_collapse_ends(t);
    if crate::text::no_triple_slash(lower) {
        crate::text::lemma_trim_keeps_no_triple(lower);
        crate::text::lemma_collapse_no_double(t);
    }
}

/// Normalizing twice changes nothing, for a name whose normalized form the lowercase
/// mapping leaves as it is and whose lowercased form has no `"///"`.
pub proof fn law_normalize_idempotent(path: Seq<char>)
    requires
        unicode_lowercase(spec_normalize(path)) == spec_normalize(path),
        crate::text::no_triple_slash(unicode_lowercase(path)),
    ensures
        spec_normalize(spec_normalize(path)) == spec_normalize(path),
{
    let r = spec_normalize(path);
    law_normalize_shape(path);
    crate::text::lemma_trim_char_shape(r, '/');
    crate::text::lemma_collapse_identity(r);
    if r == home_path() {
        assert(crate::text::no_double_slash(r));
    }
}

} // verus!

verus! {

/// The number of operations of the patches, all together.
pub open spec fn op_count(s: Seq<SpecSignedPatch>) -> nat
    decreases s.len(),
{
    if s.len() == 0 {
        0
    } else {
        op_count(s.drop_last()) + s.last().patch.operations.len()
    }
}

proof fn lemma_flat_ops_index(s: Seq<SpecSignedPatch>)
    ensures
        flat_ops(s).len() == op_count(s),
        forall|i: int|
            0 <= i < s.len() ==> op_count(#[trigger] s.take(i)) + s[i].patch.operations.len()
                <= op_count(s),
        forall|i: int, k: int|
            0 <= i < s.len() && 0 <= k < s[i].patch.operations.len() ==> flat_ops(s)[op_count(
                s.take(i),
            ) + k] == #[trigger] s[i].patch.operations[k],
    decreases s.len(),
{
    if s.len() > 0 {
        let t = s.drop_last();
        lemma_flat_ops_index(t);
        assert(s.take(s.len() - 1) =~= t);
        assert forall|i: int| 0 <= i < s.len() implies op_count(#[trigger] s.take(i))
            + s[i].patch.operations.len() <= op_count(s) by {
            if i < s.len() - 1 {
                assert(s.take(i) =~= t.take(i));
                assert(s[i] == t[i]);
                assert(op_count(t.take(i)) + t[i].patch.operations.len() <= op_count(t));
            }
        }
        assert forall|i: int, k: int|
            0 <= i < s.len() && 0 <= k < s[i].patch.operations.len() implies flat_ops(s)[op_count(
            s.take(i),
        ) + k] == #[trigger] s[i].patch.operations[k] by {
            if i < s.len() - 1 {
                assert(s.take(i) =~= t.take(i));
                assert(s[i] == t[i]);
                assert(op_count(t.take(i)) + t[i].patch.operations.len() <= op_count(t));
                assert(flat_ops(t)[op_count(t.take(i)) + k] == t[i].patch.operations[k]);
            }
        }
    }
}

/// Rendering applies every operation of every current patch: the operations applied to
/// the revision's content are, patch by patch in (creation time, identifier) order, all
/// of each patch's operations, each at its place and nothing else.
pub proof fn law_render_applies_every_operation(pg: SpecPage)
    ensures
        ({
            let q = sort_patches(patches_for(pg.patches, pg.revision.revision.version));
            exists|ops: Seq<SpecPatchOp>|
                {
                    &&& spec_render(pg) == crate::patch_ops::spec_apply_operations(
                        pg.revision.revision.content,
                        ops,
                    )
                    &&& ops.len() == op_count(q)
                    &&& forall|i: int, k: int|
                        0 <= i < q.len() && 0 <= k < q[i].patch.operations.len() ==> ops[op_count(
                            q.take(i),
                        ) + k] == #[trigger] q[i].patch.operations[k]
                }
        }),
{
    let q = sort_patches(patches_for(pg.patches, pg.revision.revision.version));
    lemma_flat_ops_index(q);
    let ops = flat_ops(q);
    assert(spec_render(pg) == crate::patch_ops::spec_apply_operations(
        pg.revision.revision.content,
        ops,
    ));
}

/// A page with a single patch for its current version renders as that patch's whole
/// list of operations applied to the revision's content.
pub proof fn law_render_single_patch(pg: SpecPage, p: SpecSignedPatch)
    requires
        patches_for(pg.patches, pg.revision.revision.version) == seq![p],
    ensures
        spec_render(pg) == crate::patch_ops::spec_apply_operations(
            pg.revision.revision.content,
            p.patch.operations,
        ),
{
    let q = sort_patches(seq![p]);
    lemma_sort_contains(seq![p]);
    law_sort_patches_is_sorted_permutation(seq![p]);
    assert(q.len() == 1);
    assert(seq![p].contains(p));
    assert(q.contains(p));
    assert(q[0] == p);
    assert(q.drop_last() =~= Seq::<SpecSignedPatch>::empty());
    assert(flat_ops(q.drop_last()) =~= Seq::<SpecPatchOp>::empty());
    assert(flat_ops(q) =~= p.patch.operations);
}

proof fn lemma_unknown_patches_contains(s: Seq<SpecSignedPatch>, known: Seq<u64>)
    ensures
        forall|x: SpecSignedPatch| #[trigger] unknown_patches(s, known).contains(x) <==> (
        s.contains(x) && !known.contains(patch_id(x))),
    decreases s.len(),
{
    broadcast use vstd::seq_lib::lemma_seq_contains_after_push;

    if s.len() > 0 {
        let t = s.drop_last();
        lemma_unknown_patches_contains(t, known);
        assert(s =~= t.push(s.last()));
        assert forall|x: SpecSignedPatch| #[trigger] unknown_patches(s, known).contains(x) <==> (
        s.contains(x) && !known.contains(patch_id(x))) by {
            assert(t.push(s.last()).contains(x) <==> (s.last() == x || t.contains(x)));
            let r = unknown_patches(t, known);
            assert(r.push(s.last()).contains(x) <==> (s.last() == x || r.contains(x)));
        }
    }
}

/// The delta of a page against a peer's summary carries the revision exactly when it is
/// newer than the peer's, and, whether or not a revision is sent, exactly the pending
/// patches whose identifiers the peer does not list; there is no delta only when the peer
/// lacks neither.
pub proof fn law_compute_delta_sends_what_peer_lacks(pg: SpecPage, s: SpecPageSummary)
    ensures
        ({
            let newer = pg.revision.revision.version > s.revision_version;
            let lacks = exists|i: int|
                0 <= i < pg.patches.len() && !s.patch_ids.contains(patch_id(#[trigger] pg.patches[i]));
            match spec_compute_delta(pg, s) {
                None => !newer && !lacks,
                Some(SpecPageDelta::Updates { new_revision, new_patches }) => {
                    &&& (newer ==> new_revision == Some(pg.revision))
                    &&& (!newer ==> new_revision is None)
                    &&& forall|x: SpecSignedPatch|
                        #[trigger] new_patches.contains(x) <==> (pg.patches.contains(x)
                            && !s.patch_ids.contains(patch_id(x)))
                },
                Some(SpecPageDelta::NewPage(_)) => false,
            }
        }),
{
    lemma_unknown_patches_contains(pg.patches, s.patch_ids);
    let u = unknown_patches(pg.patches, s.patch_ids);
    if exists|i: int|
        0 <= i < pg.patches.len() && !s.patch_ids.contains(patch_id(#[trigger] pg.patches[i])) {
        let i = choose|i: int|
            0 <= i < pg.patches.len() && !s.patch_ids.contains(patch_id(#[trigger] pg.patches[i]));
        assert(pg.patches.contains(pg.patches[i]));
        assert(u.contains(pg.patches[i]));
        assert(u.len() > 0);
    }
    if u.len() > 0 {
        assert(u.contains(u[0]));
        let x = u[0];
        let j = choose|j: int| 0 <= j < pg.patches.len() && pg.patches[j] == x;
        assert(!s.patch_ids.contains(patch_id(pg.patches[j])));
    }
}

} // verus!
