//! Top-level wiki state: signed configuration, contributors and pages.

use vstd::prelude::*;
use crate::contributor::{
    id_debug, ids_of, invite_error_text, signed_id, spec_apply_contributors, spec_contributor_id,
    spec_get_verifying_key, spec_new_contributors, ContributorId, ContributorsDelta, ContributorsV1,
    InviteError, SignedContributor,
};
use crate::encoding::{cbor_map, cbor_opt_text, cbor_text, cbor_uint, push_map, push_opt_text, push_text, push_uint};
use crate::page::{
    has_prefix, patch_signed_by, revision_signed_by, spec_compute_delta,
    PageDelta, PagePath, PageSummary, SpecPage, SpecPageDelta, SpecPageSummary, SpecSignedPatch,
    SpecSignedRevision, WikiPageV1,
};
use crate::text::{push_str, string_from};
use crate::util::{
    ed25519_accepts, ed25519_signature, sign_message, verify_message, Signature, SigningKey,
    VerifyingKey,
};

verus! {

/// Contract parameters - fixed at creation, determines contract identity.
#[derive(Clone, Copy, Debug)]
pub struct WikiParameters {
    /// The wiki owner's public key
    pub owner: VerifyingKey,
    /// Unique wiki identifier
    pub wiki_id: [u8; 32],
}

impl WikiParameters {
    /// Get the owner's contributor ID.
    pub fn owner_id(&self) -> (res: ContributorId)
        ensures
            res.0.0 == spec_contributor_id(self.owner.0@),
    {
        ContributorId::from_key(&self.owner)
    }
}

/// Wiki configuration data.
#[derive(Debug)]
pub struct WikiConfig {
    /// Configuration version (increments on update)
    pub version: u32,
    /// Wiki name
    pub name: String,
    /// Wiki description
    pub description: Option<String>,
    /// Maximum number of pages
    pub max_pages: usize,
    /// Maximum page content size (bytes)
    pub max_page_size: usize,
    /// Maximum pending patches per page
    pub max_patches_per_page: usize,
    /// Maximum contributors
    pub max_contributors: usize,
}

/// The mathematical value of a configuration.
pub struct SpecConfig {
    pub version: u32,
    pub name: Seq<char>,
    pub description: Option<Seq<char>>,
    pub max_pages: usize,
    pub max_page_size: usize,
    pub max_patches_per_page: usize,
    pub max_contributors: usize,
}

impl View for WikiConfig {
    type V = SpecConfig;

    open spec fn view(&self) -> SpecConfig {
        SpecConfig {
            version: self.version,
            name: self.name@,
            description: crate::page::opt_text_view(self.description),
            max_pages: self.max_pages,
            max_page_size: self.max_page_size,
            max_patches_per_page: self.max_patches_per_page,
            max_contributors: self.max_contributors,
        }
    }
}

impl Clone for WikiConfig {
    fn clone(&self) -> (res: Self)
        ensures
            res@ == self@,
    {
        WikiConfig {
            version: self.version,
            name: self.name.clone(),
            description: match &self.description {
                Some(d) => Some(d.clone()),
                None => None,
            },
            max_pages: self.max_pages,
            max_page_size: self.max_page_size,
            max_patches_per_page: self.max_patches_per_page,
            max_contributors: self.max_contributors,
        }
    }
}

/// The default configuration: version 1, "Untitled Wiki", no description, 1000 pages of
/// at most 1 MiB, 100 pending patches per page, 100 contributors.
pub open spec fn default_config() -> SpecConfig {
    SpecConfig {
        version: 1,
        name: "Untitled Wiki"@,
        description: None,
        max_pages: 1000,
        max_page_size: 1048576,
        max_patches_per_page: 100,
        max_contributors: 100,
    }
}

impl Default for WikiConfig {
    fn default() -> (res: Self)
        ensures
            res@ == default_config(),
    {
        WikiConfig {
            version: 1,
            name: string_from("Untitled Wiki"),
            description: None,
            max_pages: 1000,
            max_page_size: 1024 * 1024,
            max_patches_per_page: 100,
            max_contributors: 100,
        }
    }
}

/// The bytes a configuration signature covers.
pub open spec fn config_bytes(c: SpecConfig) -> Seq<u8> {
    cbor_map(7) + cbor_text("version"@) + cbor_uint(c.version as u64) + cbor_text("name"@)
        + cbor_text(c.name) + cbor_text("description"@) + cbor_opt_text(c.description) + cbor_text(
        "max_pages"@,
    ) + cbor_uint(c.max_pages as u64) + cbor_text("max_page_size"@) + cbor_uint(
        c.max_page_size as u64,
    ) + cbor_text("max_patches_per_page"@) + cbor_uint(c.max_patches_per_page as u64) + cbor_text(
        "max_contributors"@,
    ) + cbor_uint(c.max_contributors as u64)
}

impl WikiConfig {
    /// The bytes a configuration signature covers.
    pub fn signing_bytes(&self) -> (res: Vec<u8>)
        ensures
            res@ == config_bytes(self@),
    {
        let mut out: Vec<u8> = Vec::new();
        push_map(&mut out, 7);
        push_text(&mut out, "version");
        push_uint(&mut out, self.version as u64);
        push_text(&mut out, "name");
        push_text(&mut out, self.name.as_str());
        push_text(&mut out, "description");
        push_opt_text(&mut out, &self.description);
        push_text(&mut out, "max_pages");
        push_uint(&mut out, self.max_pages as u64);
        push_text(&mut out, "max_page_size");
        push_uint(&mut out, self.max_page_size as u64);
        push_text(&mut out, "max_patches_per_page");
        push_uint(&mut out, self.max_patches_per_page as u64);
        push_text(&mut out, "max_contributors");
        push_uint(&mut out, self.max_contributors as u64);
        assert(out@ =~= config_bytes(self@));
        out
    }
}

/// Wiki configuration (signed by owner).
#[derive(Debug)]
pub struct WikiConfigV1 {
    pub config: WikiConfig,
    pub signature: Signature,
}

/// The mathematical value of a signed configuration.
pub struct SpecSignedConfig {
    pub config: SpecConfig,
    pub signature: Seq<u8>,
}

impl View for WikiConfigV1 {
    type V = SpecSignedConfig;

    open spec fn view(&self) -> SpecSignedConfig {
        SpecSignedConfig { config: self.config@, signature: self.signature.0@ }
    }
}

impl Clone for WikiConfigV1 {
    fn clone(&self) -> (res: Self)
        ensures
            res@ == self@,
    {
        WikiConfigV1 { config: self.config.clone(), signature: self.signature }
    }
}

impl Default for WikiConfigV1 {
    fn default() -> (res: Self)
        ensures
            res@.config == default_config(),
            res@.signature == Seq::new(64, |i: int| 0u8),
    {
        let res = WikiConfigV1 { config: WikiConfig::default(), signature: Signature([0u8; 64]) };
        assert(res@.signature =~= Seq::new(64, |i: int| 0u8));
        res
    }
}

/// Whether the owner's key accepts the configuration's signature.
pub open spec fn config_signed_by(c: SpecSignedConfig, owner_vk: Seq<u8>) -> bool {
    ed25519_accepts(owner_vk, config_bytes(c.config), c.signature)
}

impl WikiConfigV1 {
    /// Create a new signed config.
    pub fn new(config: WikiConfig, owner_key: &SigningKey) -> (res: Self)
        ensures
            res@.config == config@,
            res@.signature == ed25519_signature(owner_key.0@, config_bytes(config@)),
    {
        let bytes = config.signing_bytes();
        WikiConfigV1 { signature: sign_message(bytes.as_slice(), owner_key), config }
    }

    /// Verify the config signature.
    pub fn verify(&self, params: &WikiParameters) -> (res: Result<(), String>)
        ensures
            res is Ok <==> config_signed_by(self@, params.owner.0@),
            res matches Err(e) ==> has_prefix(e@, "Invalid config signature: "@),
    {
        let bytes = self.config.signing_bytes();
        proof {
            reveal_strlit("Invalid config signature: ");
        }
        verify_message(bytes.as_slice(), &self.signature, &params.owner, "Invalid config signature: ")
    }
}

} // verus!

verus! {

/// Container for all wiki pages: entries kept in path order, each path once.
#[derive(Debug)]
pub struct WikiPagesV1 {
    /// Pages indexed by path (kept in path order for deterministic iteration)
    pub pages: Vec<(PagePath, WikiPageV1)>,
}

/// The mathematical value of page entries.
pub open spec fn entries_view(v: Seq<(PagePath, WikiPageV1)>) -> Seq<(Seq<char>, SpecPage)> {
    v.map_values(|e: (PagePath, WikiPageV1)| (e.0.0@, e.1@))
}

impl View for WikiPagesV1 {
    type V = Seq<(Seq<char>, SpecPage)>;

    open spec fn view(&self) -> Seq<(Seq<char>, SpecPage)> {
        entries_view(self.pages@)
    }
}

/// The paths of a list of entries.
pub open spec fn entry_paths<V>(s: Seq<(Seq<char>, V)>) -> Seq<Seq<char>> {
    s.map_values(|e: (Seq<char>, V)| e.0)
}

/// The position of the entry for `path`, if there is one (the first, should there be more).
pub open spec fn find_entry<V>(s: Seq<(Seq<char>, V)>, path: Seq<char>) -> Option<int> {
    crate::text::first_index(entry_paths(s), path)
}

/// Entries in strictly increasing path order (so each path once).
pub open spec fn paths_sorted<V>(s: Seq<(Seq<char>, V)>) -> bool {
    forall|i: int, j: int| 0 <= i < j < s.len() ==> crate::text::lex_lt(s[i].0, s[j].0)
}

/// Where a new path goes: before the first entry whose path is greater.
pub open spec fn path_insert_pos<V>(s: Seq<(Seq<char>, V)>, path: Seq<char>) -> int
    decreases s.len(),
{
    if s.len() == 0 || crate::text::lex_lt(path, s[0].0) {
        0
    } else {
        1 + path_insert_pos(s.drop_first(), path)
    }
}

/// The page stored at `path`, if any.
pub open spec fn spec_page_at(s: Seq<(Seq<char>, SpecPage)>, path: Seq<char>) -> Option<SpecPage> {
    match find_entry(s, path) {
        Some(i) => Some(s[i].1),
        None => None,
    }
}

/// The text `Page '<path>'` followed by `rest`.
pub open spec fn page_text(path: Seq<char>, rest: Seq<char>) -> Seq<char> {
    "Page '"@ + path + rest
}

/// Whether `add_page` accepts the page.
pub open spec fn add_page_accepted(s: Seq<(Seq<char>, SpecPage)>, pg: SpecPage, max: nat) -> bool {
    s.len() < max && find_entry(s, pg.path) is None
}

/// The entries after `add_page`.
pub open spec fn spec_add_page(s: Seq<(Seq<char>, SpecPage)>, pg: SpecPage, max: nat) -> Seq<
    (Seq<char>, SpecPage),
> {
    if add_page_accepted(s, pg, max) {
        s.insert(path_insert_pos(s, pg.path), (pg.path, pg))
    } else {
        s
    }
}

/// The error text of a refused page.
pub open spec fn add_page_error(s: Seq<(Seq<char>, SpecPage)>, pg: SpecPage, max: nat) -> Seq<char> {
    if s.len() >= max {
        "Maximum pages reached"@
    } else {
        page_text(pg.path, "' already exists"@)
    }
}

pub(crate) fn page_message(path: &PagePath, rest: &str) -> (res: String)
    ensures
        res@ == page_text(path.0@, rest@),
{
    let mut text = String::new();
    proof {
        reveal_strlit("Page '");
    }
    push_str(&mut text, "Page '");
    push_str(&mut text, path.as_str());
    push_str(&mut text, rest);
    assert(text@ =~= page_text(path.0@, rest@));
    text
}

fn find_page_index(entries: &Vec<(PagePath, WikiPageV1)>, path: &PagePath) -> (res: Option<usize>)
    ensures
        match res {
            Some(i) => find_entry(entries_view(entries@), path.0@) == Some(i as int) && i
                < entries@.len(),
            None => find_entry(entries_view(entries@), path.0@) is None,
        },
{
    let ghost keys = entry_paths(entries_view(entries@));
    let mut i: usize = 0;
    while i < entries.len()
        invariant
            i <= entries@.len(),
            keys == entry_paths(entries_view(entries@)),
            crate::text::first_index(keys, path.0@) == crate::text::first_index_from(
                keys,
                path.0@,
                i as int,
            ),
        decreases entries@.len() - i,
    {
        if entries[i].0.0 == path.0 {
            assert(keys[i as int] == path.0@);
            return Some(i);
        }
        i = i + 1;
    }
    None
}

fn find_insert_index(entries: &Vec<(PagePath, WikiPageV1)>, path: &PagePath) -> (res: usize)
    ensures
        res as int == path_insert_pos(entries_view(entries@), path.0@),
        res <= entries@.len(),
{
    let ghost v = entries_view(entries@);
    let key = crate::text::chars_of(path.as_str());
    let mut i: usize = 0;
    proof {
        assert(v.skip(0) == v);
    }
    while i < entries.len() && !crate::text::lex_less(
        key.as_slice(),
        crate::text::chars_of(entries[i].0.as_str()).as_slice(),
    )
        invariant
            i <= entries@.len(),
            v == entries_view(entries@),
            key@ == path.0@,
            path_insert_pos(v, path.0@) == i + path_insert_pos(v.skip(i as int), path.0@),
        decreases entries@.len() - i,
    {
        proof {
            let t = v.skip(i as int);
            assert(t[0] == v[i as int]);
            assert(t.drop_first() == v.skip(i + 1));
        }
        i = i + 1;
    }
    proof {
        if i < entries.len() {
            assert(v.skip(i as int)[0] == v[i as int]);
        }
    }
    i
}

impl Default for WikiPagesV1 {
    fn default() -> (res: Self)
        ensures
            res@.len() == 0,
            paths_sorted(res@),
    {
        let res = WikiPagesV1 { pages: Vec::new() };
        assert(res@.len() == 0);
        res
    }
}

impl Clone for WikiPagesV1 {
    fn clone(&self) -> (res: Self)
        ensures
            res@ == self@,
    {
        let mut out: Vec<(PagePath, WikiPageV1)> = Vec::new();
        let mut i: usize = 0;
        while i < self.pages.len()
            invariant
                i <= self.pages@.len(),
                entries_view(out@) == entries_view(self.pages@.take(i as int)),
            decreases self.pages@.len() - i,
        {
            let e = (self.pages[i].0.clone(), self.pages[i].1.clone());
            let ghost before = out@;
            out.push(e);
            proof {
                assert(self.pages@.take(i + 1) == self.pages@.take(i as int).push(self.pages@[i as int]));
                assert(entries_view(out@) =~= entries_view(before).push((e.0.0@, e.1@)));
                assert(entries_view(self.pages@.take(i + 1)) =~= entries_view(
                    self.pages@.take(i as int),
                ).push((self.pages@[i as int].0.0@, self.pages@[i as int].1@)));
            }
            i = i + 1;
        }
        proof {
            assert(self.pages@.take(self.pages@.len() as int) == self.pages@);
        }
        WikiPagesV1 { pages: out }
    }
}

impl WikiPagesV1 {
    /// Get a page by path.
    pub fn get(&self, path: &PagePath) -> (res: Option<&WikiPageV1>)
        ensures
            match res {
                Some(p) => spec_page_at(self@, path.0@) == Some(p@),
                None => spec_page_at(self@, path.0@) is None,
            },
    {
        match find_page_index(&self.pages, path) {
            Some(i) => Some(&self.pages[i].1),
            None => None,
        }
    }

    /// Get a mutable page by path.
    pub fn get_mut(&mut self, path: &PagePath) -> (res: Option<&mut WikiPageV1>)
        ensures
            match find_entry(old(self)@, path.0@) {
                Some(i) => res matches Some(r) && (*r)@ == old(self)@[i].1 && final(self)@ == old(
                    self,
                )@.update(i, (old(self)@[i].0, (*final(r))@)),
                None => res is None && final(self)@ == old(self)@,
            },
    {
        match find_page_index(&self.pages, path) {
            Some(i) => {
                let entry = &mut self.pages[i];
                Some(&mut entry.1)
            },
            None => None,
        }
    }

    /// Add a new page.
    pub fn add_page(&mut self, page: WikiPageV1, max_pages: usize) -> (res: Result<(), String>)
        ensures
            final(self)@ == spec_add_page(old(self)@, page@, max_pages as nat),
            res is Ok <==> add_page_accepted(old(self)@, page@, max_pages as nat),
            res matches Err(e) ==> e@ == add_page_error(old(self)@, page@, max_pages as nat),
            paths_sorted(old(self)@) ==> paths_sorted(final(self)@),
    {
        if self.pages.len() >= max_pages {
            proof {
                reveal_strlit("Maximum pages reached");
            }
            return Err(string_from("Maximum pages reached"));
        }
        if find_page_index(&self.pages, &page.path).is_some() {
            return Err(page_message(&page.path, "' already exists"));
        }
        let pos = find_insert_index(&self.pages, &page.path);
        let ghost before = self.pages@;
        let key = page.path.clone();
        let ghost pv = page@;
        self.pages.insert(pos, (key, page));
        proof {
            assert(entries_view(self.pages@) =~= entries_view(before).insert(
                pos as int,
                (pv.path, pv),
            ));
            if paths_sorted(old(self)@) {
                law_add_page_keeps_paths_sorted(old(self)@, pv, max_pages as nat);
            }
        }
        Ok(())
    }
}

} // verus!

verus! {

/// Top-level wiki state.
#[derive(Debug)]
pub struct WikiStateV1 {
    /// Wiki configuration (owner-only)
    pub config: WikiConfigV1,
    /// Invited contributors
    pub contributors: ContributorsV1,
    /// All wiki pages
    pub pages: WikiPagesV1,
}

/// The mathematical value of a wiki state.
pub struct SpecState {
    pub config: SpecSignedConfig,
    pub contributors: Seq<SignedContributor>,
    pub pages: Seq<(Seq<char>, SpecPage)>,
}

impl View for WikiStateV1 {
    type V = SpecState;

    open spec fn view(&self) -> SpecState {
        SpecState {
            config: self.config@,
            contributors: self.contributors.contributors@,
            pages: self.pages@,
        }
    }
}

impl Default for WikiStateV1 {
    fn default() -> (res: Self)
        ensures
            res@.config.config == default_config(),
            res@.config.signature == Seq::new(64, |i: int| 0u8),
            res@.contributors.len() == 0,
            res@.pages.len() == 0,
    {
        WikiStateV1 {
            config: WikiConfigV1::default(),
            contributors: ContributorsV1::default(),
            pages: WikiPagesV1::default(),
        }
    }
}

impl Clone for WikiStateV1 {
    fn clone(&self) -> (res: Self)
        ensures
            res@ == self@,
    {
        WikiStateV1 {
            config: self.config.clone(),
            contributors: self.contributors.clone(),
            pages: self.pages.clone(),
        }
    }
}

/// Why a state, a page or an update is refused.
pub enum WikiError {
    /// The owner's key does not accept the configuration's signature.
    ConfigSignature,
    /// More contributors than the configuration allows.
    TooManyContributors,
    /// More pages than the configuration allows.
    TooManyPages,
    /// A page is stored under another path than its own.
    PathMismatch { page: Seq<char>, key: Seq<char> },
    /// The author of a stored revision is neither the owner nor a contributor.
    RevisionAuthorUnknown(u64),
    /// The author's key does not accept a revision's signature.
    RevisionSignature,
    /// The author of a stored patch is neither the owner nor a contributor.
    PatchAuthorUnknown(u64),
    /// The author's key does not accept a patch's signature.
    PatchSignature,
    /// A page's content is larger than the configuration allows.
    PageTooLarge(Seq<char>),
    /// A page has more pending patches than the configuration allows.
    TooManyPatches(Seq<char>),
    /// A contributor invitation is refused.
    Invite(InviteError),
    /// The author of a new page is neither the owner nor a contributor.
    PageAuthorNotAuthorized,
    /// A new page is refused (the text of `add_page`'s error).
    PageNotAdded(Seq<char>),
    /// An update names a page that does not exist.
    PageNotFound(Seq<char>),
    /// The author of a new revision is neither the owner nor a contributor.
    RevisionAuthorNotAuthorized,
    /// The author of a new patch is neither the owner nor a contributor.
    PatchAuthorNotAuthorized,
    /// A new revision is not newer than the page's.
    StaleRevision,
    /// A new patch is refused (the text of `add_patch`'s error).
    PatchNotAdded(Seq<char>),
}

/// The error text for each refusal.
pub open spec fn wiki_error_text(e: WikiError, text: Seq<char>) -> bool {
    match e {
        WikiError::ConfigSignature => has_prefix(text, "Invalid config signature: "@),
        WikiError::TooManyContributors => text == "Too many contributors"@,
        WikiError::TooManyPages => text == "Too many pages"@,
        WikiError::PathMismatch { page, key } => text == "Page path mismatch: "@ + page + " vs "@
            + key,
        WikiError::RevisionAuthorUnknown(id) => text == "Revision author "@ + id_debug(id)
            + " not authorized"@,
        WikiError::RevisionSignature => has_prefix(text, "Invalid revision signature: "@),
        WikiError::PatchAuthorUnknown(id) => text == "Patch author "@ + id_debug(id)
            + " not authorized"@,
        WikiError::PatchSignature => has_prefix(text, "Invalid patch signature: "@),
        WikiError::PageTooLarge(p) => text == page_text(p, "' exceeds max size"@),
        WikiError::TooManyPatches(p) => text == page_text(p, "' has too many patches"@),
        WikiError::Invite(ie) => invite_error_text(ie, text),
        WikiError::PageAuthorNotAuthorized => text == "Page author not authorized"@,
        WikiError::PageNotAdded(t) => text == t,
        WikiError::PageNotFound(p) => text == page_text(p, "' not found"@),
        WikiError::RevisionAuthorNotAuthorized => text == "Revision author not authorized"@,
        WikiError::PatchAuthorNotAuthorized => text == "Patch author not authorized"@,
        WikiError::StaleRevision => text == "New revision version must be greater than current"@,
        WikiError::PatchNotAdded(t) => text == t,
    }
}

/// The first stored patch whose author is unknown or whose signature the author's key
/// does not accept.
pub open spec fn stored_patches_problem(
    ps: Seq<SpecSignedPatch>,
    cs: Seq<SignedContributor>,
    owner_vk: Seq<u8>,
) -> Option<WikiError>
    decreases ps.len(),
{
    if ps.len() == 0 {
        None
    } else {
        match spec_get_verifying_key(cs, ps[0].patch.author, owner_vk) {
            None => Some(WikiError::PatchAuthorUnknown(ps[0].patch.author)),
            Some(k) => if !patch_signed_by(ps[0], k) {
                Some(WikiError::PatchSignature)
            } else {
                stored_patches_problem(ps.drop_first(), cs, owner_vk)
            },
        }
    }
}

/// The first problem with a stored page, checked in this order: its path, its revision's
/// author and signature, its patches, its size, its number of patches.
pub open spec fn stored_page_problem(
    key: Seq<char>,
    pg: SpecPage,
    cs: Seq<SignedContributor>,
    owner_vk: Seq<u8>,
    cfg: SpecConfig,
) -> Option<WikiError> {
    if pg.path != key {
        Some(WikiError::PathMismatch { page: pg.path, key })
    } else {
        match spec_get_verifying_key(cs, pg.revision.revision.author, owner_vk) {
            None => Some(WikiError::RevisionAuthorUnknown(pg.revision.revision.author)),
            Some(k) => if !revision_signed_by(pg.revision, k) {
                Some(WikiError::RevisionSignature)
            } else {
                match stored_patches_problem(pg.patches, cs, owner_vk) {
                    Some(e) => Some(e),
                    None => if vstd::utf8::encode_utf8(pg.revision.revision.content).len()
                        > cfg.max_page_size {
                        Some(WikiError::PageTooLarge(key))
                    } else if pg.patches.len() > cfg.max_patches_per_page {
                        Some(WikiError::TooManyPatches(key))
                    } else {
                        None
                    },
                }
            },
        }
    }
}

/// The first problem among stored pages, in path order.
pub open spec fn stored_entries_problem(
    s: Seq<(Seq<char>, SpecPage)>,
    cs: Seq<SignedContributor>,
    owner_vk: Seq<u8>,
    cfg: SpecConfig,
) -> Option<WikiError>
    decreases s.len(),
{
    if s.len() == 0 {
        None
    } else {
        match stored_page_problem(s[0].0, s[0].1, cs, owner_vk, cfg) {
            Some(e) => Some(e),
            None => stored_entries_problem(s.drop_first(), cs, owner_vk, cfg),
        }
    }
}

/// The first problem with a set of pages, judged against a state's configuration and
/// contributors.
pub open spec fn pages_problem(s: Seq<(Seq<char>, SpecPage)>, st: SpecState, owner_vk: Seq<u8>) -> Option<
    WikiError,
> {
    if s.len() > st.config.config.max_pages {
        Some(WikiError::TooManyPages)
    } else {
        stored_entries_problem(s, st.contributors, owner_vk, st.config.config)
    }
}

/// The first problem with a state: its configuration's signature, its number of
/// contributors, its pages.
pub open spec fn state_problem(st: SpecState, owner_vk: Seq<u8>) -> Option<WikiError> {
    if !config_signed_by(st.config, owner_vk) {
        Some(WikiError::ConfigSignature)
    } else if st.contributors.len() > st.config.config.max_contributors {
        Some(WikiError::TooManyContributors)
    } else {
        pages_problem(st.pages, st, owner_vk)
    }
}

fn author_message(prefix: &str, id: ContributorId) -> (res: String)
    ensures
        res@ == prefix@ + id_debug(id.0.0) + " not authorized"@,
{
    let mut text = string_from(prefix);
    crate::contributor::push_id_debug(&mut text, id);
    proof {
        reveal_strlit(" not authorized");
    }
    push_str(&mut text, " not authorized");
    text
}

impl WikiStateV1 {
    /// Create a new wiki with initial configuration.
    pub fn new(config: WikiConfig, owner_key: &SigningKey) -> (res: Self)
        ensures
            res@.config.config == config@,
            res@.config.signature == ed25519_signature(owner_key.0@, config_bytes(config@)),
            res@.contributors.len() == 0,
            res@.pages.len() == 0,
    {
        WikiStateV1 {
            config: WikiConfigV1::new(config, owner_key),
            contributors: ContributorsV1::default(),
            pages: WikiPagesV1::default(),
        }
    }

    /// Check if a contributor is authorized.
    pub fn is_authorized(&self, id: &ContributorId, params: &WikiParameters) -> (res: bool)
        ensures
            res == crate::contributor::spec_is_authorized(
                self@.contributors,
                id.0.0,
                spec_contributor_id(params.owner.0@),
            ),
    {
        self.contributors.is_authorized(id, &params.owner_id())
    }

    /// Get verifying key for a contributor.
    pub fn get_contributor_vk(&self, id: &ContributorId, params: &WikiParameters) -> (res: Option<
        VerifyingKey,
    >)
        ensures
            match res {
                Some(k) => spec_get_verifying_key(self@.contributors, id.0.0, params.owner.0@)
                    == Some(k.0@),
                None => spec_get_verifying_key(self@.contributors, id.0.0, params.owner.0@) is None,
            },
    {
        self.contributors.get_verifying_key(id, &params.owner)
    }

    fn contributors_valid(&self, _params: &WikiParameters) -> (res: Result<(), String>)
        ensures
            res is Ok <==> self@.contributors.len() <= self@.config.config.max_contributors,
            res matches Err(e) ==> e@ == "Too many contributors"@,
    {
        if self.contributors.contributors.len() > self.config.config.max_contributors {
            proof {
                reveal_strlit("Too many contributors");
            }
            return Err(string_from("Too many contributors"));
        }
        Ok(())
    }

    /// Verify the entire state.
    pub fn verify(&self, params: &WikiParameters) -> (res: Result<(), String>)
        ensures
            res is Ok <==> state_problem(self@, params.owner.0@) is None,
            res matches Err(e) ==> wiki_error_text(state_problem(self@, params.owner.0@)->0, e@),
    {
        match self.config.verify(params) {
            Ok(()) => {},
            Err(e) => {
                return Err(e);
            },
        }
        match self.contributors_valid(params) {
            Ok(()) => {},
            Err(e) => {
                return Err(e);
            },
        }
        self.pages.verify(self, params)
    }
}

} // verus!

verus! {

fn stored_patches_check(
    ps: &Vec<crate::page::SignedPatch>,
    state: &WikiStateV1,
    params: &WikiParameters,
) -> (res: Result<(), String>)
    ensures
        ({
            let p = stored_patches_problem(
                crate::page::patches_view(ps@),
                state@.contributors,
                params.owner.0@,
            );
            &&& (res is Ok <==> p is None)
            &&& (res matches Err(e) ==> wiki_error_text(p->0, e@))
        }),
{
    let ghost all = crate::page::patches_view(ps@);
    let ghost cs = state@.contributors;
    let ghost owner = params.owner.0@;
    let mut i: usize = 0;
    proof {
        assert(all.skip(0) == all);
    }
    while i < ps.len()
        invariant
            i <= ps@.len(),
            all == crate::page::patches_view(ps@),
            cs == state@.contributors,
            owner == params.owner.0@,
            stored_patches_problem(all, cs, owner) == stored_patches_problem(
                all.skip(i as int),
                cs,
                owner,
            ),
        decreases ps@.len() - i,
    {
        let ghost rest = all.skip(i as int);
        proof {
            assert(rest[0] == ps@[i as int]@);
            assert(rest.drop_first() == all.skip(i + 1));
        }
        let author = ps[i].patch.author;
        match state.get_contributor_vk(&author, params) {
            None => {
                proof {
                    reveal_strlit("Patch author ");
                }
                return Err(author_message("Patch author ", author));
            },
            Some(vk) => {
                match ps[i].verify(&vk) {
                    Ok(()) => {},
                    Err(e) => {
                        return Err(e);
                    },
                }
            },
        }
        i = i + 1;
    }
    proof {
        assert(all.skip(i as int).len() == 0);
    }
    Ok(())
}

fn stored_page_check(
    key: &PagePath,
    page: &WikiPageV1,
    state: &WikiStateV1,
    params: &WikiParameters,
) -> (res: Result<(), String>)
    ensures
        ({
            let p = stored_page_problem(
                key.0@,
                page@,
                state@.contributors,
                params.owner.0@,
                state@.config.config,
            );
            &&& (res is Ok <==> p is None)
            &&& (res matches Err(e) ==> wiki_error_text(p->0, e@))
        }),
{
    if page.path.0 != key.0 {
        let mut text = String::new();
        proof {
            reveal_strlit("Page path mismatch: ");
            reveal_strlit(" vs ");
        }
        push_str(&mut text, "Page path mismatch: ");
        push_str(&mut text, page.path.as_str());
        push_str(&mut text, " vs ");
        push_str(&mut text, key.as_str());
        return Err(text);
    }
    let author = page.revision.revision.author;
    match state.get_contributor_vk(&author, params) {
        None => {
            proof {
                reveal_strlit("Revision author ");
            }
            return Err(author_message("Revision author ", author));
        },
        Some(vk) => {
            match page.revision.verify(&vk) {
                Ok(()) => {},
                Err(e) => {
                    return Err(e);
                },
            }
        },
    }
    match stored_patches_check(&page.patches, state, params) {
        Ok(()) => {},
        Err(e) => {
            return Err(e);
        },
    }
    if page.revision.revision.content.as_str().as_bytes().len() > state.config.config.max_page_size {
        return Err(crate::state::page_message(key, "' exceeds max size"));
    }
    if page.patches.len() > state.config.config.max_patches_per_page {
        return Err(crate::state::page_message(key, "' has too many patches"));
    }
    Ok(())
}

impl WikiPagesV1 {
    /// Verify all pages.
    pub fn verify(&self, state: &WikiStateV1, params: &WikiParameters) -> (res: Result<(), String>)
        ensures
            res is Ok <==> pages_problem(self@, state@, params.owner.0@) is None,
            res matches Err(e) ==> wiki_error_text(pages_problem(self@, state@, params.owner.0@)->0, e@),
    {
        if self.pages.len() > state.config.config.max_pages {
            proof {
                reveal_strlit("Too many pages");
            }
            return Err(string_from("Too many pages"));
        }
        let ghost all = self@;
        let ghost cs = state@.contributors;
        let ghost owner = params.owner.0@;
        let ghost cfg = state@.config.config;
        let mut i: usize = 0;
        proof {
            assert(all.skip(0) == all);
        }
        while i < self.pages.len()
            invariant
                i <= self.pages@.len(),
                all == self@,
                all.len() <= cfg.max_pages,
                cs == state@.contributors,
                owner == params.owner.0@,
                cfg == state@.config.config,
                stored_entries_problem(all, cs, owner, cfg) == stored_entries_problem(
                    all.skip(i as int),
                    cs,
                    owner,
                    cfg,
                ),
            decreases self.pages@.len() - i,
        {
            let ghost rest = all.skip(i as int);
            proof {
                assert(rest[0] == (self.pages@[i as int].0.0@, self.pages@[i as int].1@));
                assert(rest.drop_first() == all.skip(i + 1));
            }
            match stored_page_check(&self.pages[i].0, &self.pages[i].1, state, params) {
                Ok(()) => {},
                Err(e) => {
                    return Err(e);
                },
            }
            i = i + 1;
        }
        proof {
            assert(all.skip(i as int).len() == 0);
        }
        Ok(())
    }
}

} // verus!

verus! {

/// Summary of wiki state for sync.
#[derive(Debug)]
pub struct WikiStateSummary {
    pub config_version: u32,
    /// The contributor identifiers, each listed once.
    pub contributor_ids: Vec<ContributorId>,
    /// The page summaries, in path order.
    pub pages: Vec<(PagePath, PageSummary)>,
}

/// The mathematical value of a state summary.
pub struct SpecStateSummary {
    pub config_version: u32,
    pub contributor_ids: Seq<u64>,
    pub pages: Seq<(Seq<char>, SpecPageSummary)>,
}

/// The mathematical value of page summary entries.
pub open spec fn summaries_view(v: Seq<(PagePath, PageSummary)>) -> Seq<(Seq<char>, SpecPageSummary)> {
    v.map_values(|e: (PagePath, PageSummary)| (e.0.0@, e.1@))
}

impl View for WikiStateSummary {
    type V = SpecStateSummary;

    open spec fn view(&self) -> SpecStateSummary {
        SpecStateSummary {
            config_version: self.config_version,
            contributor_ids: crate::contributor::id_values(self.contributor_ids@),
            pages: summaries_view(self.pages@),
        }
    }
}

impl Default for WikiStateSummary {
    fn default() -> (res: Self)
        ensures
            res@.config_version == 0,
            res@.contributor_ids.len() == 0,
            res@.pages.len() == 0,
    {
        let res = WikiStateSummary { config_version: 0, contributor_ids: Vec::new(), pages: Vec::new() };
        assert(res@.contributor_ids.len() == 0);
        assert(res@.pages.len() == 0);
        res
    }
}

/// The summary of a state: its configuration version, its contributor identifiers and
/// each page's summary, in order, each identifier once.
pub open spec fn spec_state_summary(st: SpecState) -> SpecStateSummary {
    SpecStateSummary {
        config_version: st.config.config.version,
        contributor_ids: crate::text::dedup(ids_of(st.contributors)),
        pages: st.pages.map_values(
            |e: (Seq<char>, SpecPage)| (e.0, crate::page::spec_page_summary(e.1)),
        ),
    }
}

/// `s` summarizes `st`: its configuration version, each contributor identifier once,
/// and a summary of each page, in the same order.
pub open spec fn is_state_summary_of(s: SpecStateSummary, st: SpecState) -> bool {
    &&& s.config_version == st.config.config.version
    &&& s.contributor_ids.no_duplicates()
    &&& forall|x: u64| s.contributor_ids.contains(x) <==> ids_of(st.contributors).contains(x)
    &&& s.pages.len() == st.pages.len()
    &&& forall|i: int|
        0 <= i < st.pages.len() ==> #[trigger] s.pages[i].0 == st.pages[i].0
            && crate::page::is_page_summary_of(s.pages[i].1, st.pages[i].1)
}

/// Delta for pages.
#[derive(Debug)]
pub struct WikiPagesDelta {
    /// The updates, in path order.
    pub updates: Vec<(PagePath, PageDelta)>,
}

/// The mathematical value of page delta entries.
pub open spec fn updates_view(v: Seq<(PagePath, PageDelta)>) -> Seq<(Seq<char>, SpecPageDelta)> {
    v.map_values(|e: (PagePath, PageDelta)| (e.0.0@, e.1@))
}

impl View for WikiPagesDelta {
    type V = Seq<(Seq<char>, SpecPageDelta)>;

    open spec fn view(&self) -> Seq<(Seq<char>, SpecPageDelta)> {
        updates_view(self.updates@)
    }
}

/// Delta for wiki state updates.
#[derive(Debug)]
pub struct WikiStateDelta {
    pub config: Option<WikiConfigV1>,
    pub contributors: Option<ContributorsDelta>,
    pub pages: Option<WikiPagesDelta>,
}

/// The mathematical value of a state delta.
pub struct SpecStateDelta {
    pub config: Option<SpecSignedConfig>,
    pub contributors: Option<Seq<SignedContributor>>,
    pub pages: Option<Seq<(Seq<char>, SpecPageDelta)>>,
}

impl View for WikiStateDelta {
    type V = SpecStateDelta;

    open spec fn view(&self) -> SpecStateDelta {
        SpecStateDelta {
            config: match self.config {
                Some(c) => Some(c@),
                None => None,
            },
            contributors: match self.contributors {
                Some(d) => Some(d.added@),
                None => None,
            },
            pages: match self.pages {
                Some(p) => Some(p@),
                None => None,
            },
        }
    }
}

/// What a peer holding summary `s` lacks of each page, in page order: a new page whole,
/// a known page by its delta when it has one.
pub open spec fn page_updates(
    entries: Seq<(Seq<char>, SpecPage)>,
    s: Seq<(Seq<char>, SpecPageSummary)>,
) -> Seq<(Seq<char>, SpecPageDelta)>
    decreases entries.len(),
{
    if entries.len() == 0 {
        Seq::empty()
    } else {
        let r = page_updates(entries.drop_last(), s);
        let (path, pg) = entries.last();
        match find_entry(s, path) {
            Some(j) => match spec_compute_delta(pg, s[j].1) {
                Some(d) => r.push((path, d)),
                None => r,
            },
            None => r.push((path, SpecPageDelta::NewPage(pg))),
        }
    }
}

/// What a peer holding summary `s` lacks of `st`: a newer configuration, the
/// contributors it does not know, the page updates; nothing if it lacks none of them.
pub open spec fn spec_state_delta(st: SpecState, s: SpecStateSummary) -> Option<SpecStateDelta> {
    let config = if st.config.config.version > s.config_version {
        Some(st.config)
    } else {
        None
    };
    let added = spec_new_contributors(st.contributors, s.contributor_ids);
    let contributors = if added.len() > 0 {
        Some(added)
    } else {
        None
    };
    let updates = page_updates(st.pages, s.pages);
    let pages = if updates.len() > 0 {
        Some(updates)
    } else {
        None
    };
    if config is None && contributors is None && pages is None {
        None
    } else {
        Some(SpecStateDelta { config, contributors, pages })
    }
}

fn find_summary_index(entries: &Vec<(PagePath, PageSummary)>, path: &PagePath) -> (res: Option<
    usize,
>)
    ensures
        match res {
            Some(i) => find_entry(summaries_view(entries@), path.0@) == Some(i as int) && i
                < entries@.len(),
            None => find_entry(summaries_view(entries@), path.0@) is None,
        },
{
    let ghost keys = entry_paths(summaries_view(entries@));
    let mut i: usize = 0;
    while i < entries.len()
        invariant
            i <= entries@.len(),
            keys == entry_paths(summaries_view(entries@)),
            crate::text::first_index(keys, path.0@) == crate::text::first_index_from(
                keys,
                path.0@,
                i as int,
            ),
        decreases entries@.len() - i,
    {
        if entries[i].0.0 == path.0 {
            assert(keys[i as int] == path.0@);
            return Some(i);
        }
        i = i + 1;
    }
    None
}

impl WikiStateV1 {
    /// Generate summary for sync.
    pub fn summarize(&self) -> (res: WikiStateSummary)
        ensures
            res@ == spec_state_summary(self@),
            is_state_summary_of(res@, self@),
    {
        let ids = self.contributors.summarize();
        let mut pages: Vec<(PagePath, PageSummary)> = Vec::new();
        let mut i: usize = 0;
        while i < self.pages.pages.len()
            invariant
                i <= self.pages.pages@.len(),
                pages@.len() == i,
                forall|k: int|
                    0 <= k < i ==> #[trigger] summaries_view(pages@)[k] == (
                        self@.pages[k].0,
                        crate::page::spec_page_summary(self@.pages[k].1),
                    ) && crate::page::is_page_summary_of(
                        summaries_view(pages@)[k].1,
                        self@.pages[k].1,
                    ),
            decreases self.pages.pages@.len() - i,
        {
            let e = (self.pages.pages[i].0.clone(), self.pages.pages[i].1.summarize());
            let ghost before = pages@;
            pages.push(e);
            proof {
                assert forall|k: int| 0 <= k < i + 1 implies #[trigger] summaries_view(pages@)[k] == (
                    self@.pages[k].0,
                    crate::page::spec_page_summary(self@.pages[k].1),
                ) && crate::page::is_page_summary_of(
                    summaries_view(pages@)[k].1,
                    self@.pages[k].1,
                ) by {
                    if k < i {
                        assert(pages@[k] == before[k]);
                        assert(summaries_view(pages@)[k] == summaries_view(before)[k]);
                    }
                }
            }
            i = i + 1;
        }
        let res = WikiStateSummary {
            config_version: self.config.config.version,
            contributor_ids: ids,
            pages,
        };
        assert(res@.pages =~= spec_state_summary(self@).pages);
        res
    }

    /// Compute delta from old summary.
    pub fn delta(&self, old_summary: &WikiStateSummary) -> (res: Option<WikiStateDelta>)
        ensures
            match res {
                Some(d) => spec_state_delta(self@, old_summary@) == Some(d@),
                None => spec_state_delta(self@, old_summary@) is None,
            },
    {
        let config = if self.config.config.version > old_summary.config_version {
            Some(self.config.clone())
        } else {
            None
        };
        let contributors = self.contributors.delta(old_summary.contributor_ids.as_slice());
        let ghost entries = self@.pages;
        let ghost s = old_summary@.pages;
        let mut updates: Vec<(PagePath, PageDelta)> = Vec::new();
        let mut i: usize = 0;
        while i < self.pages.pages.len()
            invariant
                i <= self.pages.pages@.len(),
                entries == self@.pages,
                s == old_summary@.pages,
                updates_view(updates@) == page_updates(entries.take(i as int), s),
            decreases self.pages.pages@.len() - i,
        {
            let ghost before = updates@;
            proof {
                let t = entries.take(i + 1);
                assert(t.drop_last() =~= entries.take(i as int));
                assert(t.last() == entries[i as int]);
            }
            match find_summary_index(&old_summary.pages, &self.pages.pages[i].0) {
                Some(j) => {
                    match self.pages.pages[i].1.compute_delta(&old_summary.pages[j].1) {
                        Some(d) => {
                            let e = (self.pages.pages[i].0.clone(), d);
                            updates.push(e);
                            proof {
                                assert(updates_view(updates@) =~= updates_view(before).push(
                                    (e.0.0@, e.1@),
                                ));
                            }
                        },
                        None => {},
                    }
                },
                None => {
                    let e = (
                        self.pages.pages[i].0.clone(),
                        PageDelta::NewPage(self.pages.pages[i].1.clone()),
                    );
                    updates.push(e);
                    proof {
                        assert(updates_view(updates@) =~= updates_view(before).push((e.0.0@, e.1@)));
                    }
                },
            }
            i = i + 1;
        }
        proof {
            assert(entries.take(self.pages.pages@.len() as int) =~= entries);
        }
        let pages = if updates.len() == 0 {
            None
        } else {
            Some(WikiPagesDelta { updates })
        };
        if config.is_none() && contributors.is_none() && pages.is_none() {
            None
        } else {
            Some(WikiStateDelta { config, contributors, pages })
        }
    }
}

} // verus!

verus! {

// ---------------------------------------------------------------------------
// Laws of the wiki state
// ---------------------------------------------------------------------------

proof fn lemma_find_entry_at<V>(s: Seq<(Seq<char>, V)>, i: int)
    requires
        0 <= i < s.len(),
        forall|j: int| 0 <= j < i ==> #[trigger] s[j].0 != s[i].0,
    ensures
        find_entry(s, s[i].0) == Some(i),
{
    let keys = entry_paths(s);
    crate::text::lemma_first_index_from(keys, s[i].0, 0);
    assert(keys[i] == s[i].0);
    match crate::text::first_index_from(keys, s[i].0, 0) {
        Some(j) => {
            if j < i {
                assert(keys[j] == s[j].0);
            }
        },
        None => {},
    }
}

proof fn lemma_page_updates_empty(
    entries: Seq<(Seq<char>, SpecPage)>,
    s: Seq<(Seq<char>, SpecPageSummary)>,
    k: int,
)
    requires
        0 <= k <= entries.len(),
        entries.len() == s.len(),
        entry_paths(entries).no_duplicates(),
        forall|i: int|
            0 <= i < entries.len() ==> #[trigger] s[i].0 == entries[i].0
                && crate::page::is_page_summary_of(s[i].1, entries[i].1),
    ensures
        page_updates(entries.take(k), s).len() == 0,
    decreases k,
{
    if k > 0 {
        let t = entries.take(k);
        assert(t.drop_last() =~= entries.take(k - 1));
        lemma_page_updates_empty(entries, s, k - 1);
        let i = k - 1;
        assert(t.last() == entries[i]);
        assert forall|j: int| 0 <= j < i implies #[trigger] s[j].0 != s[i].0 by {
            assert(s[j].0 == entries[j].0 && s[i].0 == entries[i].0);
            assert(entry_paths(entries)[j] == entries[j].0);
            assert(entry_paths(entries)[i] == entries[i].0);
        }
        lemma_find_entry_at(s, i);
        assert(s[i].0 == entries[i].0);
        crate::page::law_page_delta_against_own_summary_is_empty(entries[i].1, s[i].1);
    }
}

/// A state has nothing to send to a peer that holds its own summary, when no two of its
/// pages share a path (as `add_page` keeps it).
pub proof fn law_state_delta_against_own_summary_is_empty(st: SpecState, s: SpecStateSummary)
    requires
        is_state_summary_of(s, st),
        entry_paths(st.pages).no_duplicates(),
    ensures
        spec_state_delta(st, s) is None,
{
    crate::contributor::law_contributors_delta_against_own_summary_is_empty(
        st.contributors,
        s.contributor_ids,
    );
    lemma_page_updates_empty(st.pages, s.pages, st.pages.len() as int);
    assert(st.pages.take(st.pages.len() as int) =~= st.pages);
}

} // verus!

verus! {

/// The state with other pages.
pub open spec fn with_pages(st: SpecState, ps: Seq<(Seq<char>, SpecPage)>) -> SpecState {
    SpecState { config: st.config, contributors: st.contributors, pages: ps }
}

/// The page after a newer revision: the revision replaced, older patches dropped.
pub open spec fn spec_apply_revision(pg: SpecPage, rev: SpecSignedRevision) -> SpecPage {
    SpecPage {
        path: pg.path,
        revision: rev,
        patches: crate::page::patches_from(pg.patches, rev.revision.version),
    }
}

/// Adding patches one after the other; the first one refused stops, with its error text.
pub open spec fn spec_add_patches(pg: SpecPage, ps: Seq<SpecSignedPatch>, max: nat) -> (
    SpecPage,
    Option<Seq<char>>,
)
    decreases ps.len(),
{
    if ps.len() == 0 {
        (pg, None)
    } else if !crate::page::add_patch_accepted(pg, ps[0], max) {
        (pg, Some(crate::page::add_patch_error(pg, ps[0])))
    } else {
        spec_add_patches(
            crate::page::with_patches(pg, crate::page::spec_add_patch(pg, ps[0], max)),
            ps.drop_first(),
            max,
        )
    }
}

/// A page's update: the new revision, if any, must be newer; then the patches are added.
pub open spec fn spec_update_page(
    pg: SpecPage,
    rev: Option<SpecSignedRevision>,
    ps: Seq<SpecSignedPatch>,
    max: nat,
) -> (SpecPage, Option<WikiError>) {
    let start = match rev {
        Some(r) => if r.revision.version <= pg.revision.revision.version {
            None
        } else {
            Some(spec_apply_revision(pg, r))
        },
        None => Some(pg),
    };
    match start {
        None => (pg, Some(WikiError::StaleRevision)),
        Some(p) => {
            let (p2, e) = spec_add_patches(p, ps, max);
            (
                p2,
                match e {
                    Some(t) => Some(WikiError::PatchNotAdded(t)),
                    None => None,
                },
            )
        },
    }
}

/// The problem with a new revision's author or signature, if any.
pub open spec fn new_revision_problem(
    rev: Option<SpecSignedRevision>,
    cs: Seq<SignedContributor>,
    owner_vk: Seq<u8>,
) -> Option<WikiError> {
    match rev {
        None => None,
        Some(r) => match spec_get_verifying_key(cs, r.revision.author, owner_vk) {
            None => Some(WikiError::RevisionAuthorNotAuthorized),
            Some(k) => if revision_signed_by(r, k) {
                None
            } else {
                Some(WikiError::RevisionSignature)
            },
        },
    }
}

/// The first new patch whose author is not authorized or whose signature the author's
/// key does not accept.
pub open spec fn new_patches_problem(
    ps: Seq<SpecSignedPatch>,
    cs: Seq<SignedContributor>,
    owner_vk: Seq<u8>,
) -> Option<WikiError>
    decreases ps.len(),
{
    if ps.len() == 0 {
        None
    } else {
        match spec_get_verifying_key(cs, ps[0].patch.author, owner_vk) {
            None => Some(WikiError::PatchAuthorNotAuthorized),
            Some(k) => if !patch_signed_by(ps[0], k) {
                Some(WikiError::PatchSignature)
            } else {
                new_patches_problem(ps.drop_first(), cs, owner_vk)
            },
        }
    }
}

/// One page update: a new page must come from an authorized author with a valid
/// signature, carry only patches signed by authorized authors, and fit; an update of a
/// page needs the page, an authorized and valid revision and patches, and then changes
/// that page alone.
pub open spec fn spec_apply_update(
    st: SpecState,
    path: Seq<char>,
    pd: SpecPageDelta,
    owner_vk: Seq<u8>,
) -> (SpecState, Option<WikiError>) {
    match pd {
        SpecPageDelta::NewPage(pg) => match spec_get_verifying_key(
            st.contributors,
            pg.revision.revision.author,
            owner_vk,
        ) {
            None => (st, Some(WikiError::PageAuthorNotAuthorized)),
            Some(k) => if !revision_signed_by(pg.revision, k) {
                (st, Some(WikiError::RevisionSignature))
            } else if new_patches_problem(pg.patches, st.contributors, owner_vk) is Some {
                (st, new_patches_problem(pg.patches, st.contributors, owner_vk))
            } else if !add_page_accepted(st.pages, pg, st.config.config.max_pages as nat) {
                (
                    st,
                    Some(
                        WikiError::PageNotAdded(
                            add_page_error(st.pages, pg, st.config.config.max_pages as nat),
                        ),
                    ),
                )
            } else {
                (with_pages(st, spec_add_page(st.pages, pg, st.config.config.max_pages as nat)), None)
            },
        },
        SpecPageDelta::Updates { new_revision, new_patches } => match find_entry(st.pages, path) {
            None => (st, Some(WikiError::PageNotFound(path))),
            Some(i) => match new_revision_problem(new_revision, st.contributors, owner_vk) {
                Some(e) => (st, Some(e)),
                None => match new_patches_problem(new_patches, st.contributors, owner_vk) {
                    Some(e) => (st, Some(e)),
                    None => {
                        let (pg2, e) = spec_update_page(
                            st.pages[i].1,
                            new_revision,
                            new_patches,
                            st.config.config.max_patches_per_page as nat,
                        );
                        (with_pages(st, st.pages.update(i, (st.pages[i].0, pg2))), e)
                    },
                },
            },
        },
    }
}

/// Page updates in order; the first refused stops, keeping what was done before it.
pub open spec fn spec_apply_updates(
    st: SpecState,
    updates: Seq<(Seq<char>, SpecPageDelta)>,
    owner_vk: Seq<u8>,
) -> (SpecState, Option<WikiError>)
    decreases updates.len(),
{
    if updates.len() == 0 {
        (st, None)
    } else {
        let (st2, e) = spec_apply_update(st, updates[0].0, updates[0].1, owner_vk);
        match e {
            Some(err) => (st2, Some(err)),
            None => spec_apply_updates(st2, updates.drop_first(), owner_vk),
        }
    }
}

/// Applying a state delta: a configuration signed by the owner replaces an older one;
/// then the contributors are added; then the page updates are applied. The first
/// refusal stops, keeping what was done before it.
pub open spec fn spec_apply_state_delta(st: SpecState, d: SpecStateDelta, owner_vk: Seq<u8>) -> (
    SpecState,
    Option<WikiError>,
) {
    match d.config {
        Some(c) if !config_signed_by(c, owner_vk) => (st, Some(WikiError::ConfigSignature)),
        _ => {
            let st1 = match d.config {
                Some(c) => if c.config.version > st.config.config.version {
                    SpecState { config: c, contributors: st.contributors, pages: st.pages }
                } else {
                    st
                },
                None => st,
            };
            let (cs, ce) = match d.contributors {
                Some(added) => spec_apply_contributors(
                    st1.contributors,
                    added,
                    owner_vk,
                    st1.config.config.max_contributors as nat,
                ),
                None => (st1.contributors, None),
            };
            let st2 = SpecState { config: st1.config, contributors: cs, pages: st1.pages };
            match ce {
                Some(ie) => (st2, Some(WikiError::Invite(ie))),
                None => match d.pages {
                    Some(updates) => spec_apply_updates(st2, updates, owner_vk),
                    None => (st2, None),
                },
            }
        },
    }
}

} // verus!

verus! {

fn update_page(
    page: &mut WikiPageV1,
    rev: Option<crate::page::SignedRevision>,
    patches: Vec<crate::page::SignedPatch>,
    max_patches: usize,
) -> (res: Result<(), String>)
    ensures
        ({
            let (p2, e) = spec_update_page(
                old(page)@,
                crate::page::opt_revision_view(rev),
                crate::page::patches_view(patches@),
                max_patches as nat,
            );
            &&& final(page)@ == p2
            &&& (res is Ok <==> e is None)
            &&& (res matches Err(t) ==> wiki_error_text(e->0, t@))
        }),
{
    let ghost ps = crate::page::patches_view(patches@);
    let ghost expected = spec_update_page(
        page@,
        crate::page::opt_revision_view(rev),
        ps,
        max_patches as nat,
    );
    match rev {
        Some(r) => {
            match page.apply_revision(r) {
                Ok(()) => {},
                Err(e) => {
                    return Err(e);
                },
            }
        },
        None => {},
    }
    let ghost total = spec_add_patches(page@, ps, max_patches as nat);
    assert(expected.0 == total.0);
    let mut k: usize = 0;
    proof {
        assert(ps.skip(0) == ps);
    }
    while k < patches.len()
        invariant
            k <= patches@.len(),
            ps == crate::page::patches_view(patches@),
            total == spec_add_patches(page@, ps.skip(k as int), max_patches as nat),
            expected == spec_update_page(
                old(page)@,
                crate::page::opt_revision_view(rev),
                ps,
                max_patches as nat,
            ),
            expected.0 == total.0,
            expected.1 == match total.1 {
                Some(t) => Some(WikiError::PatchNotAdded(t)),
                None => None,
            },
        decreases patches@.len() - k,
    {
        let ghost rest = ps.skip(k as int);
        proof {
            assert(rest[0] == patches@[k as int]@);
            assert(rest.drop_first() == ps.skip(k + 1));
        }
        let p = patches[k].clone();
        match page.add_patch(p, max_patches) {
            Ok(()) => {},
            Err(e) => {
                return Err(e);
            },
        }
        k = k + 1;
    }
    proof {
        assert(ps.skip(k as int).len() == 0);
    }
    Ok(())
}

impl WikiStateV1 {
    fn check_new_revision(&self, rev: &Option<crate::page::SignedRevision>, params: &WikiParameters) -> (res:
        Result<(), String>)
        ensures
            ({
                let p = new_revision_problem(
                    crate::page::opt_revision_view(*rev),
                    self@.contributors,
                    params.owner.0@,
                );
                &&& (res is Ok <==> p is None)
                &&& (res matches Err(t) ==> wiki_error_text(p->0, t@))
            }),
    {
        match rev {
            Some(rev) => {
                let author_vk = match self.get_contributor_vk(&rev.revision.author, params) {
                    Some(k) => k,
                    None => {
                        proof {
                            reveal_strlit("Revision author not authorized");
                        }
                        return Err(string_from("Revision author not authorized"));
                    },
                };
                rev.verify(&author_vk)
            },
            None => Ok(()),
        }
    }

    fn check_new_patches(&self, new_patches: &Vec<crate::page::SignedPatch>, params: &WikiParameters) -> (res:
        Result<(), String>)
        ensures
            ({
                let p = new_patches_problem(
                    crate::page::patches_view(new_patches@),
                    self@.contributors,
                    params.owner.0@,
                );
                &&& (res is Ok <==> p is None)
                &&& (res matches Err(t) ==> wiki_error_text(p->0, t@))
            }),
    {
        let ghost ps = crate::page::patches_view(new_patches@);
        let ghost cs = self@.contributors;
        let ghost owner = params.owner.0@;
        let mut k: usize = 0;
        proof {
            assert(ps.skip(0) == ps);
        }
        while k < new_patches.len()
            invariant
                k <= new_patches@.len(),
                ps == crate::page::patches_view(new_patches@),
                cs == self@.contributors,
                owner == params.owner.0@,
                new_patches_problem(ps, cs, owner) == new_patches_problem(ps.skip(k as int), cs, owner),
            decreases new_patches@.len() - k,
        {
            let ghost rest = ps.skip(k as int);
            proof {
                assert(rest[0] == new_patches@[k as int]@);
                assert(rest.drop_first() == ps.skip(k + 1));
            }
            let author_vk = match self.get_contributor_vk(&new_patches[k].patch.author, params) {
                Some(v) => v,
                None => {
                    proof {
                        reveal_strlit("Patch author not authorized");
                    }
                    return Err(string_from("Patch author not authorized"));
                },
            };
            match new_patches[k].verify(&author_vk) {
                Ok(()) => {},
                Err(e) => {
                    return Err(e);
                },
            }
            k = k + 1;
        }
        proof {
            assert(ps.skip(k as int).len() == 0);
        }
        Ok(())
    }
}

impl WikiStateV1 {
    fn apply_page_update(&mut self, path: &PagePath, page_delta: &PageDelta, params: &WikiParameters) -> (res:
        Result<(), String>)
        ensures
            ({
                let (st2, e) = spec_apply_update(old(self)@, path.0@, page_delta@, params.owner.0@);
                &&& final(self)@ == st2
                &&& (res is Ok <==> e is None)
                &&& (res matches Err(t) ==> wiki_error_text(e->0, t@))
            }),
    {
        match page_delta {
            PageDelta::NewPage(page) => {
                let author_vk = match self.get_contributor_vk(&page.revision.revision.author, params) {
                    Some(k) => k,
                    None => {
                        proof {
                            reveal_strlit("Page author not authorized");
                        }
                        return Err(string_from("Page author not authorized"));
                    },
                };
                match page.revision.verify(&author_vk) {
                    Ok(()) => {},
                    Err(e) => {
                        return Err(e);
                    },
                }
                match self.check_new_patches(&page.patches, params) {
                    Ok(()) => {},
                    Err(e) => {
                        return Err(e);
                    },
                }
                let max_pages = self.config.config.max_pages;
                self.pages.add_page(page.clone(), max_pages)
            },
            PageDelta::Updates { new_revision, new_patches } => {
                if find_page_index(&self.pages.pages, path).is_none() {
                    return Err(page_message(path, "' not found"));
                }
                match self.check_new_revision(new_revision, params) {
                    Ok(()) => {},
                    Err(e) => {
                        return Err(e);
                    },
                }
                let verified_revision = match new_revision {
                    Some(rev) => Some(rev.clone()),
                    None => None,
                };
                match self.check_new_patches(new_patches, params) {
                    Ok(()) => {},
                    Err(e) => {
                        return Err(e);
                    },
                }
                let verified_patches = crate::page::clone_patches(new_patches);
                let max_patches = self.config.config.max_patches_per_page;
                match self.pages.get_mut(path) {
                    Some(page) => update_page(page, verified_revision, verified_patches, max_patches),
                    None => {
                        proof {
                            assert(false);
                        }
                        Ok(())
                    },
                }
            },
        }
    }
}

} // verus!

verus! {

impl WikiStateV1 {
    /// Apply a delta.
    pub fn apply_delta(&mut self, delta: &WikiStateDelta, params: &WikiParameters) -> (res: Result<
        (),
        String,
    >)
        ensures
            ({
                let (st2, e) = spec_apply_state_delta(old(self)@, delta@, params.owner.0@);
                &&& final(self)@ == st2
                &&& (res is Ok <==> e is None)
                &&& (res matches Err(t) ==> wiki_error_text(e->0, t@))
            }),
            paths_sorted(old(self)@.pages) ==> paths_sorted(final(self)@.pages),
            ids_of(old(self)@.contributors).no_duplicates() ==> ids_of(
                final(self)@.contributors,
            ).no_duplicates(),
            revisions_signed(old(self)@.pages, old(self)@.contributors, params.owner.0@)
                ==> revisions_signed(final(self)@.pages, final(self)@.contributors, params.owner.0@),
            patches_signed(old(self)@.pages, old(self)@.contributors, params.owner.0@)
                ==> patches_signed(final(self)@.pages, final(self)@.contributors, params.owner.0@),
    {
        let ghost expected = spec_apply_state_delta(self@, delta@, params.owner.0@);
        proof {
            if paths_sorted(self@.pages) {
                law_apply_delta_keeps_paths_sorted(self@, delta@, params.owner.0@);
            }
            if ids_of(self@.contributors).no_duplicates() {
                law_state_contributors_extend_chain_of_trust(self@, delta@, params.owner.0@);
            }
            if revisions_signed(self@.pages, self@.contributors, params.owner.0@) {
                law_apply_delta_keeps_revisions_signed(self@, delta@, params.owner.0@);
            }
            if patches_signed(self@.pages, self@.contributors, params.owner.0@) {
                law_apply_delta_keeps_patches_signed(self@, delta@, params.owner.0@);
            }
        }
        match &delta.config {
            Some(new_config) => {
                match new_config.verify(params) {
                    Ok(()) => {},
                    Err(e) => {
                        return Err(e);
                    },
                }
                if new_config.config.version > self.config.config.version {
                    self.config = new_config.clone();
                }
            },
            None => {},
        }
        match &delta.contributors {
            Some(contrib_delta) => {
                let max_contributors = self.config.config.max_contributors;
                match self.contributors.apply_delta(contrib_delta, &params.owner, max_contributors) {
                    Ok(()) => {},
                    Err(e) => {
                        return Err(e);
                    },
                }
            },
            None => {},
        }
        match &delta.pages {
            Some(pages_delta) => {
                let ghost ups = pages_delta@;
                let ghost owner = params.owner.0@;
                let mut k: usize = 0;
                proof {
                    assert(ups.skip(0) == ups);
                }
                while k < pages_delta.updates.len()
                    invariant
                        k <= pages_delta.updates@.len(),
                        ups == pages_delta@,
                        owner == params.owner.0@,
                        expected == spec_apply_updates(self@, ups.skip(k as int), owner),
                        expected == spec_apply_state_delta(old(self)@, delta@, owner),
                        paths_sorted(old(self)@.pages) ==> paths_sorted(expected.0.pages),
                        ids_of(old(self)@.contributors).no_duplicates() ==> ids_of(
                            expected.0.contributors,
                        ).no_duplicates(),
                        revisions_signed(old(self)@.pages, old(self)@.contributors, owner)
                            ==> revisions_signed(expected.0.pages, expected.0.contributors, owner),
                        patches_signed(old(self)@.pages, old(self)@.contributors, owner)
                            ==> patches_signed(expected.0.pages, expected.0.contributors, owner),
                    decreases pages_delta.updates@.len() - k,
                {
                    let ghost rest = ups.skip(k as int);
                    proof {
                        assert(rest[0] == (
                            pages_delta.updates@[k as int].0.0@,
                            pages_delta.updates@[k as int].1@,
                        ));
                        assert(rest.drop_first() == ups.skip(k + 1));
                    }
                    match self.apply_page_update(
                        &pages_delta.updates[k].0,
                        &pages_delta.updates[k].1,
                        params,
                    ) {
                        Ok(()) => {},
                        Err(e) => {
                            return Err(e);
                        },
                    }
                    k = k + 1;
                }
                proof {
                    assert(ups.skip(k as int).len() == 0);
                }
            },
            None => {},
        }
        Ok(())
    }
}

} // verus!

verus! {

proof fn lemma_apply_updates_keeps_config_and_contributors(
    st: SpecState,
    updates: Seq<(Seq<char>, SpecPageDelta)>,
    owner_vk: Seq<u8>,
)
    ensures
        spec_apply_updates(st, updates, owner_vk).0.config == st.config,
        spec_apply_updates(st, updates, owner_vk).0.contributors == st.contributors,
    decreases updates.len(),
{
    if updates.len() > 0 {
        let (st2, e) = spec_apply_update(st, updates[0].0, updates[0].1, owner_vk);
        if e is None {
            lemma_apply_updates_keeps_config_and_contributors(st2, updates.drop_first(), owner_vk);
        }
    }
}

/// Only the owner changes the configuration: if applying a delta changes it, the new
/// configuration is the delta's, signed by the owner, with a greater version.
pub proof fn law_config_changes_only_by_owner(st: SpecState, d: SpecStateDelta, owner_vk: Seq<u8>)
    ensures
        ({
            let r = spec_apply_state_delta(st, d, owner_vk).0;
            r.config != st.config ==> (d.config matches Some(c) && c == r.config && config_signed_by(
                c,
                owner_vk,
            ) && c.config.version > st.config.config.version)
        }),
{
    match d.config {
        Some(c) if !config_signed_by(c, owner_vk) => {},
        _ => {
            let st1 = match d.config {
                Some(c) => if c.config.version > st.config.config.version {
                    SpecState { config: c, contributors: st.contributors, pages: st.pages }
                } else {
                    st
                },
                None => st,
            };
            let (cs, ce) = match d.contributors {
                Some(added) => spec_apply_contributors(
                    st1.contributors,
                    added,
                    owner_vk,
                    st1.config.config.max_contributors as nat,
                ),
                None => (st1.contributors, None),
            };
            let st2 = SpecState { config: st1.config, contributors: cs, pages: st1.pages };
            if ce is None {
                if let Some(updates) = d.pages {
                    lemma_apply_updates_keeps_config_and_contributors(st2, updates, owner_vk);
                }
            }
        },
    }
}

/// Contributors join only through valid invitations: applying a delta keeps every listed
/// contributor in place, and each one it appends was validly invited by someone listed
/// before it or by the owner; no identifier is listed twice if none was before.
pub proof fn law_state_contributors_extend_chain_of_trust(
    st: SpecState,
    d: SpecStateDelta,
    owner_vk: Seq<u8>,
)
    requires
        ids_of(st.contributors).no_duplicates(),
    ensures
        ({
            let r = spec_apply_state_delta(st, d, owner_vk).0;
            &&& r.contributors.len() >= st.contributors.len()
            &&& r.contributors.take(st.contributors.len() as int) == st.contributors
            &&& crate::contributor::invited_in_order(
                r.contributors,
                st.contributors.len() as int,
                owner_vk,
            )
            &&& ids_of(r.contributors).no_duplicates()
        }),
{
    assert(st.contributors.take(st.contributors.len() as int) =~= st.contributors);
    match d.config {
        Some(c) if !config_signed_by(c, owner_vk) => {},
        _ => {
            let st1 = match d.config {
                Some(c) => if c.config.version > st.config.config.version {
                    SpecState { config: c, contributors: st.contributors, pages: st.pages }
                } else {
                    st
                },
                None => st,
            };
            let (cs, ce) = match d.contributors {
                Some(added) => spec_apply_contributors(
                    st1.contributors,
                    added,
                    owner_vk,
                    st1.config.config.max_contributors as nat,
                ),
                None => (st1.contributors, None),
            };
            if let Some(added) = d.contributors {
                crate::contributor::law_apply_contributors_extends_chain_of_trust(
                    st1.contributors,
                    added,
                    owner_vk,
                    st1.config.config.max_contributors as nat,
                );
            }
            let st2 = SpecState { config: st1.config, contributors: cs, pages: st1.pages };
            if ce is None {
                if let Some(updates) = d.pages {
                    lemma_apply_updates_keeps_config_and_contributors(st2, updates, owner_vk);
                }
            }
        },
    }
}

proof fn lemma_path_insert_pos(s: Seq<(Seq<char>, SpecPage)>, path: Seq<char>)
    ensures
        0 <= path_insert_pos(s, path) <= s.len(),
        forall|i: int|
            0 <= i < path_insert_pos(s, path) ==> !crate::text::lex_lt(path, #[trigger] s[i].0),
        path_insert_pos(s, path) < s.len() ==> crate::text::lex_lt(path, s[path_insert_pos(s, path)].0),
    decreases s.len(),
{
    if s.len() > 0 && !crate::text::lex_lt(path, s[0].0) {
        lemma_path_insert_pos(s.drop_first(), path);
        let q = path_insert_pos(s.drop_first(), path);
        if q < s.len() - 1 {
            assert(s[q + 1] == s.drop_first()[q]);
        }
        assert forall|i: int| 0 <= i < path_insert_pos(s, path) implies !crate::text::lex_lt(
            path,
            #[trigger] s[i].0,
        ) by {
            if i > 0 {
                assert(s[i] == s.drop_first()[i - 1]);
            }
        }
    }
}

/// Pages kept in strictly increasing path order stay so when a page is added; so no two
/// pages ever share a path.
pub proof fn law_add_page_keeps_paths_sorted(s: Seq<(Seq<char>, SpecPage)>, pg: SpecPage, max: nat)
    requires
        paths_sorted(s),
    ensures
        paths_sorted(spec_add_page(s, pg, max)),
        entry_paths(spec_add_page(s, pg, max)).no_duplicates(),
{
    let r = spec_add_page(s, pg, max);
    if add_page_accepted(s, pg, max) {
        lemma_path_insert_pos(s, pg.path);
        let p = path_insert_pos(s, pg.path);
        let keys = entry_paths(s);
        crate::text::lemma_first_index_from(keys, pg.path, 0);
        assert forall|i: int, j: int| 0 <= i < j < r.len() implies crate::text::lex_lt(
            r[i].0,
            r[j].0,
        ) by {
            if j < p {
                assert(r[i] == s[i] && r[j] == s[j]);
            } else if j == p {
                assert(r[i] == s[i]);
                assert(keys[i] == s[i].0);
                assert(s[i].0 != pg.path);
                crate::text::lemma_lex_total(s[i].0, pg.path);
            } else if i > p {
                assert(r[i] == s[i - 1] && r[j] == s[j - 1]);
            } else if i == p {
                assert(r[j] == s[j - 1]);
                if j - 1 > p {
                    crate::text::lemma_lex_transitive(pg.path, s[p].0, s[j - 1].0);
                }
            } else {
                assert(r[i] == s[i] && r[j] == s[j - 1]);
            }
        }
    }
    let rk = entry_paths(r);
    assert forall|i: int, j: int| 0 <= i < rk.len() && 0 <= j < rk.len() && i != j implies rk[i]
        != rk[j] by {
        if i < j {
            assert(crate::text::lex_lt(r[i].0, r[j].0));
            crate::text::lemma_lex_irreflexive(r[i].0);
        } else {
            assert(crate::text::lex_lt(r[j].0, r[i].0));
            crate::text::lemma_lex_irreflexive(r[j].0);
        }
    }
}

proof fn lemma_page_updates_new(
    entries: Seq<(Seq<char>, SpecPage)>,
    s: Seq<(Seq<char>, SpecPageSummary)>,
    i: int,
    k: int,
)
    requires
        0 <= i < k <= entries.len(),
        find_entry(s, entries[i].0) is None,
    ensures
        page_updates(entries.take(k), s).contains((entries[i].0, SpecPageDelta::NewPage(entries[i].1))),
    decreases k,
{
    let t = entries.take(k);
    assert(t.drop_last() =~= entries.take(k - 1));
    assert(t.last() == entries[k - 1]);
    let r = page_updates(entries.take(k - 1), s);
    let x = (entries[i].0, SpecPageDelta::NewPage(entries[i].1));
    if i == k - 1 {
        assert(page_updates(t, s) == r.push(x));
        assert(page_updates(t, s)[r.len() as int] == x);
    } else {
        lemma_page_updates_new(entries, s, i, k - 1);
        let j = choose|j: int| 0 <= j < r.len() && r[j] == x;
        assert(page_updates(t, s)[j] == x);
    }
}

/// Sync delivers new pages: for a page that a peer lacks (its summary has no entry for
/// the path), the delta against the peer's summary carries the page whole.
pub proof fn law_delta_carries_missing_page(a: SpecState, s: SpecStateSummary, i: int)
    requires
        0 <= i < a.pages.len(),
        find_entry(s.pages, a.pages[i].0) is None,
    ensures
        spec_state_delta(a, s) matches Some(d) && d.pages matches Some(ups) && ups.contains(
            (a.pages[i].0, SpecPageDelta::NewPage(a.pages[i].1)),
        ),
{
    lemma_page_updates_new(a.pages, s.pages, i, a.pages.len() as int);
    assert(a.pages.take(a.pages.len() as int) =~= a.pages);
}

} // verus!

verus! {

/// A revision signed by its author, who is the owner or a listed contributor.
pub open spec fn author_signed_revision(
    r: SpecSignedRevision,
    cs: Seq<SignedContributor>,
    owner_vk: Seq<u8>,
) -> bool {
    match spec_get_verifying_key(cs, r.revision.author, owner_vk) {
        Some(k) => revision_signed_by(r, k),
        None => false,
    }
}

/// Every stored revision is signed by its author, who is the owner or a listed contributor.
pub open spec fn revisions_signed(
    pages: Seq<(Seq<char>, SpecPage)>,
    cs: Seq<SignedContributor>,
    owner_vk: Seq<u8>,
) -> bool {
    forall|i: int|
        0 <= i < pages.len() ==> #[trigger] author_signed_revision(pages[i].1.revision, cs, owner_vk)
}

proof fn lemma_apply_contributors_prefix(
    cs: Seq<SignedContributor>,
    added: Seq<SignedContributor>,
    owner_vk: Seq<u8>,
    max: nat,
)
    ensures
        spec_apply_contributors(cs, added, owner_vk, max).0.len() >= cs.len(),
        spec_apply_contributors(cs, added, owner_vk, max).0.take(cs.len() as int) == cs,
    decreases added.len(),
{
    let r = spec_apply_contributors(cs, added, owner_vk, max).0;
    assert(cs.take(cs.len() as int) =~= cs);
    if added.len() > 0 {
        let c = added[0];
        if ids_of(cs).contains(signed_id(c)) {
            lemma_apply_contributors_prefix(cs, added.drop_first(), owner_vk, max);
        } else if crate::contributor::invite_problem(cs, c, owner_vk) is None && cs.len() < max {
            let cs2 = cs.push(c);
            lemma_apply_contributors_prefix(cs2, added.drop_first(), owner_vk, max);
            assert forall|k: int| 0 <= k < cs.len() implies r.take(cs.len() as int)[k] == cs[k] by {
                assert(r.take(cs2.len() as int)[k] == cs2[k]);
            }
            assert(r.take(cs.len() as int) =~= cs);
        }
    }
}

proof fn lemma_key_lookup_extends(
    cs: Seq<SignedContributor>,
    cs2: Seq<SignedContributor>,
    id: u64,
    owner_vk: Seq<u8>,
)
    requires
        cs2.len() >= cs.len(),
        cs2.take(cs.len() as int) == cs,
        spec_get_verifying_key(cs, id, owner_vk) is Some,
    ensures
        spec_get_verifying_key(cs2, id, owner_vk) == spec_get_verifying_key(cs, id, owner_vk),
{
    if id != spec_contributor_id(owner_vk) {
        let a = ids_of(cs);
        let b = ids_of(cs2);
        crate::text::lemma_first_index_from(a, id, 0);
        crate::text::lemma_first_index_from(b, id, 0);
        let i = crate::text::first_index(a, id)->0;
        assert forall|j: int| 0 <= j < cs.len() implies b[j] == a[j] && cs2[j] == cs[j] by {
            assert(cs2.take(cs.len() as int)[j] == cs2[j]);
        }
        assert(b[i] == id);
        match crate::text::first_index(b, id) {
            Some(j) => {
                if j < i {
                    assert(b[j] == a[j]);
                }
            },
            None => {},
        }
    }
}

proof fn lemma_add_patches_keeps_revision(pg: SpecPage, ps: Seq<SpecSignedPatch>, max: nat)
    ensures
        spec_add_patches(pg, ps, max).0.revision == pg.revision,
        spec_add_patches(pg, ps, max).0.path == pg.path,
    decreases ps.len(),
{
    if ps.len() > 0 && crate::page::add_patch_accepted(pg, ps[0], max) {
        lemma_add_patches_keeps_revision(
            crate::page::with_patches(pg, crate::page::spec_add_patch(pg, ps[0], max)),
            ps.drop_first(),
            max,
        );
    }
}

proof fn lemma_apply_update_keeps_revisions_signed(
    st: SpecState,
    path: Seq<char>,
    pd: SpecPageDelta,
    owner_vk: Seq<u8>,
)
    requires
        revisions_signed(st.pages, st.contributors, owner_vk),
    ensures
        revisions_signed(spec_apply_update(st, path, pd, owner_vk).0.pages, st.contributors, owner_vk),
        spec_apply_update(st, path, pd, owner_vk).0.contributors == st.contributors,
{
    let cs = st.contributors;
    let r = spec_apply_update(st, path, pd, owner_vk).0;
    match pd {
        SpecPageDelta::NewPage(pg) => {
            if r.pages != st.pages {
                let p = path_insert_pos(st.pages, pg.path);
                lemma_path_insert_pos(st.pages, pg.path);
                assert(r.pages == st.pages.insert(p, (pg.path, pg)));
                assert forall|k: int| 0 <= k < r.pages.len() implies #[trigger] author_signed_revision(
                    r.pages[k].1.revision,
                    cs,
                    owner_vk,
                ) by {
                    if k < p {
                        assert(r.pages[k] == st.pages[k]);
                    } else if k > p {
                        assert(r.pages[k] == st.pages[k - 1]);
                    }
                }
            }
        },
        SpecPageDelta::Updates { new_revision, new_patches } => {
            if let Some(i) = find_entry(st.pages, path) {
                if new_revision_problem(new_revision, cs, owner_vk) is None
                    && new_patches_problem(new_patches, cs, owner_vk) is None {
                    crate::text::lemma_first_index_from(entry_paths(st.pages), path, 0);
                    let pg = st.pages[i].1;
                    let max = st.config.config.max_patches_per_page as nat;
                    let pg2 = spec_update_page(pg, new_revision, new_patches, max).0;
                    match new_revision {
                        Some(rv) => {
                            if rv.revision.version > pg.revision.revision.version {
                                lemma_add_patches_keeps_revision(
                                    spec_apply_revision(pg, rv),
                                    new_patches,
                                    max,
                                );
                            }
                        },
                        None => {
                            lemma_add_patches_keeps_revision(pg, new_patches, max);
                        },
                    }
                    assert(author_signed_revision(pg2.revision, cs, owner_vk)) by {
                        assert(author_signed_revision(st.pages[i].1.revision, cs, owner_vk));
                    }
                    assert forall|k: int| 0 <= k < r.pages.len() implies #[trigger] author_signed_revision(
                        r.pages[k].1.revision,
                        cs,
                        owner_vk,
                    ) by {
                        if k != i {
                            assert(r.pages[k] == st.pages[k]);
                        }
                    }
                }
            }
        },
    }
}

proof fn lemma_apply_updates_keeps_revisions_signed(
    st: SpecState,
    updates: Seq<(Seq<char>, SpecPageDelta)>,
    owner_vk: Seq<u8>,
)
    requires
        revisions_signed(st.pages, st.contributors, owner_vk),
    ensures
        revisions_signed(
            spec_apply_updates(st, updates, owner_vk).0.pages,
            spec_apply_updates(st, updates, owner_vk).0.contributors,
            owner_vk,
        ),
    decreases updates.len(),
{
    if updates.len() > 0 {
        lemma_apply_update_keeps_revisions_signed(st, updates[0].0, updates[0].1, owner_vk);
        let (st2, e) = spec_apply_update(st, updates[0].0, updates[0].1, owner_vk);
        if e is None {
            lemma_apply_updates_keeps_revisions_signed(st2, updates.drop_first(), owner_vk);
        }
    }
}

/// Edits are signed: if every stored revision is signed by its author, the owner or a
/// contributor, this stays so after applying any delta (every new or replacing revision
/// is checked against its author's key, and contributors are only appended).
pub proof fn law_apply_delta_keeps_revisions_signed(st: SpecState, d: SpecStateDelta, owner_vk: Seq<u8>)
    requires
        revisions_signed(st.pages, st.contributors, owner_vk),
    ensures
        ({
            let r = spec_apply_state_delta(st, d, owner_vk).0;
            revisions_signed(r.pages, r.contributors, owner_vk)
        }),
{
    match d.config {
        Some(c) if !config_signed_by(c, owner_vk) => {},
        _ => {
            let st1 = match d.config {
                Some(c) => if c.config.version > st.config.config.version {
                    SpecState { config: c, contributors: st.contributors, pages: st.pages }
                } else {
                    st
                },
                None => st,
            };
            let (cs, ce) = match d.contributors {
                Some(added) => spec_apply_contributors(
                    st1.contributors,
                    added,
                    owner_vk,
                    st1.config.config.max_contributors as nat,
                ),
                None => (st1.contributors, None),
            };
            if let Some(added) = d.contributors {
                lemma_apply_contributors_prefix(
                    st1.contributors,
                    added,
                    owner_vk,
                    st1.config.config.max_contributors as nat,
                );
            } else {
                assert(cs.take(cs.len() as int) =~= cs);
            }
            let st2 = SpecState { config: st1.config, contributors: cs, pages: st1.pages };
            assert forall|i: int| 0 <= i < st2.pages.len() implies #[trigger] author_signed_revision(
                st2.pages[i].1.revision,
                cs,
                owner_vk,
            ) by {
                assert(author_signed_revision(st.pages[i].1.revision, st.contributors, owner_vk));
                lemma_key_lookup_extends(
                    st.contributors,
                    cs,
                    st.pages[i].1.revision.revision.author,
                    owner_vk,
                );
            }
            if ce is None {
                if let Some(updates) = d.pages {
                    lemma_apply_updates_keeps_revisions_signed(st2, updates, owner_vk);
                }
            }
        },
    }
}

} // verus!

verus! {

/// The canonical summary of a state summarizes it.
pub proof fn lemma_state_summary_summarizes(st: SpecState)
    ensures
        is_state_summary_of(spec_state_summary(st), st),
{
    crate::text::lemma_dedup(ids_of(st.contributors));
    let s = spec_state_summary(st);
    assert forall|i: int| 0 <= i < st.pages.len() implies #[trigger] s.pages[i].0 == st.pages[i].0
        && crate::page::is_page_summary_of(s.pages[i].1, st.pages[i].1) by {
        crate::text::lemma_dedup(crate::page::patch_ids(st.pages[i].1.patches));
    }
}

/// Each page offered whole.
pub open spec fn new_pages(es: Seq<(Seq<char>, SpecPage)>) -> Seq<(Seq<char>, SpecPageDelta)> {
    es.map_values(|e: (Seq<char>, SpecPage)| (e.0, SpecPageDelta::NewPage(e.1)))
}

proof fn lemma_find_entry_none<V>(s: Seq<(Seq<char>, V)>, p: Seq<char>)
    ensures
        find_entry(s, p) is None <==> !entry_paths(s).contains(p),
{
    crate::text::lemma_first_index_from(entry_paths(s), p, 0);
    if entry_paths(s).contains(p) {
        let j = choose|j: int| 0 <= j < entry_paths(s).len() && entry_paths(s)[j] == p;
        assert(entry_paths(s)[j] == p);
    }
}

proof fn lemma_page_ok(
    key: Seq<char>,
    pg: SpecPage,
    cs: Seq<SignedContributor>,
    owner_vk: Seq<u8>,
    cfg: SpecConfig,
)
    requires
        stored_page_problem(key, pg, cs, owner_vk, cfg) is None,
    ensures
        pg.path == key,
        author_signed_revision(pg.revision, cs, owner_vk),
        new_patches_problem(pg.patches, cs, owner_vk) is None,
{
    lemma_stored_patches_new_patches(pg.patches, cs, owner_vk);
}

proof fn lemma_stored_patches_new_patches(
    ps: Seq<SpecSignedPatch>,
    cs: Seq<SignedContributor>,
    owner_vk: Seq<u8>,
)
    ensures
        stored_patches_problem(ps, cs, owner_vk) is None <==> new_patches_problem(ps, cs, owner_vk)
            is None,
    decreases ps.len(),
{
    if ps.len() > 0 {
        lemma_stored_patches_new_patches(ps.drop_first(), cs, owner_vk);
    }
}

proof fn lemma_entries_ok(
    s: Seq<(Seq<char>, SpecPage)>,
    cs: Seq<SignedContributor>,
    owner_vk: Seq<u8>,
    cfg: SpecConfig,
)
    requires
        stored_entries_problem(s, cs, owner_vk, cfg) is None,
    ensures
        forall|i: int|
            0 <= i < s.len() ==> (#[trigger] s[i]).1.path == s[i].0 && author_signed_revision(
                s[i].1.revision,
                cs,
                owner_vk,
            ) && new_patches_problem(s[i].1.patches, cs, owner_vk) is None,
    decreases s.len(),
{
    if s.len() > 0 {
        lemma_page_ok(s[0].0, s[0].1, cs, owner_vk, cfg);
        lemma_entries_ok(s.drop_first(), cs, owner_vk, cfg);
        assert forall|i: int| 0 <= i < s.len() implies (#[trigger] s[i]).1.path == s[i].0
            && author_signed_revision(s[i].1.revision, cs, owner_vk) && new_patches_problem(
            s[i].1.patches,
            cs,
            owner_vk,
        ) is None by {
            if i > 0 {
                assert(s[i] == s.drop_first()[i - 1]);
            }
        }
    }
}

proof fn lemma_page_updates_all_new(
    entries: Seq<(Seq<char>, SpecPage)>,
    s: Seq<(Seq<char>, SpecPageSummary)>,
)
    requires
        forall|i: int| 0 <= i < entries.len() ==> find_entry(s, #[trigger] entries[i].0) is None,
    ensures
        page_updates(entries, s) == new_pages(entries),
    decreases entries.len(),
{
    if entries.len() > 0 {
        let p = entries.drop_last();
        assert forall|i: int| 0 <= i < p.len() implies find_entry(s, #[trigger] p[i].0) is None by {
            assert(p[i] == entries[i]);
        }
        lemma_page_updates_all_new(p, s);
        assert(find_entry(s, entries[entries.len() - 1].0) is None);
        assert(new_pages(entries) =~= new_pages(p).push(
            (entries.last().0, SpecPageDelta::NewPage(entries.last().1)),
        ));
    }
}

#[verifier::rlimit(40)]
proof fn lemma_apply_new_pages(st: SpecState, es: Seq<(Seq<char>, SpecPage)>, owner_vk: Seq<u8>)
    requires
        forall|i: int|
            0 <= i < es.len() ==> (#[trigger] es[i]).1.path == es[i].0 && author_signed_revision(
                es[i].1.revision,
                st.contributors,
                owner_vk,
            ) && new_patches_problem(es[i].1.patches, st.contributors, owner_vk) is None,
        entry_paths(es).no_duplicates(),
        forall|i: int| 0 <= i < es.len() ==> find_entry(st.pages, #[trigger] es[i].0) is None,
        st.pages.len() + es.len() <= st.config.config.max_pages,
    ensures
        ({
            let (r, e) = spec_apply_updates(st, new_pages(es), owner_vk);
            &&& e is None
            &&& r.config == st.config
            &&& r.contributors == st.contributors
            &&& forall|i: int| 0 <= i < st.pages.len() ==> r.pages.contains(#[trigger] st.pages[i])
            &&& forall|i: int| 0 <= i < es.len() ==> r.pages.contains(#[trigger] es[i])
        }),
    decreases es.len(),
{
    if es.len() > 0 {
        let e0 = es[0];
        let u = new_pages(es);
        assert(u[0] == (e0.0, SpecPageDelta::NewPage(e0.1)));
        let max = st.config.config.max_pages as nat;
        assert(find_entry(st.pages, e0.0) is None);
        let pos = path_insert_pos(st.pages, e0.1.path);
        lemma_path_insert_pos(st.pages, e0.1.path);
        let st1 = with_pages(st, st.pages.insert(pos, (e0.1.path, e0.1)));
        assert(spec_apply_update(st, e0.0, SpecPageDelta::NewPage(e0.1), owner_vk) == (
            st1,
            None::<WikiError>,
        ));
        let rest = es.drop_first();
        assert(u.drop_first() =~= new_pages(rest));
        lemma_find_entry_none(st.pages, e0.0);
        assert forall|j: int| 0 <= j < rest.len() implies find_entry(
            st1.pages,
            #[trigger] rest[j].0,
        ) is None by {
            assert(rest[j] == es[j + 1]);
            lemma_find_entry_none(st.pages, es[j + 1].0);
            lemma_find_entry_none(st1.pages, es[j + 1].0);
            assert(entry_paths(es)[0] == e0.0);
            assert(entry_paths(es)[j + 1] == es[j + 1].0);
            if entry_paths(st1.pages).contains(es[j + 1].0) {
                let k = choose|k: int|
                    0 <= k < entry_paths(st1.pages).len() && entry_paths(st1.pages)[k] == es[j + 1].0;
                if k < pos {
                    assert(st1.pages[k] == st.pages[k]);
                    assert(entry_paths(st.pages)[k] == es[j + 1].0);
                } else if k > pos {
                    assert(st1.pages[k] == st.pages[k - 1]);
                    assert(entry_paths(st.pages)[k - 1] == es[j + 1].0);
                }
            }
        }
        assert(entry_paths(rest).no_duplicates()) by {
            assert forall|a: int, b: int|
                0 <= a < entry_paths(rest).len() && 0 <= b < entry_paths(rest).len() && a != b implies entry_paths(
                rest,
            )[a] != entry_paths(rest)[b] by {
                assert(entry_paths(rest)[a] == entry_paths(es)[a + 1]);
                assert(entry_paths(rest)[b] == entry_paths(es)[b + 1]);
            }
        }
        assert forall|i: int| 0 <= i < rest.len() implies (#[trigger] rest[i]).1.path == rest[i].0
            && author_signed_revision(rest[i].1.revision, st1.contributors, owner_vk)
            && new_patches_problem(rest[i].1.patches, st1.contributors, owner_vk) is None by {
            assert(rest[i] == es[i + 1]);
        }
        lemma_apply_new_pages(st1, rest, owner_vk);
        let r = spec_apply_updates(st1, new_pages(rest), owner_vk).0;
        assert forall|i: int| 0 <= i < st.pages.len() implies r.pages.contains(#[trigger] st.pages[i]) by {
            if i < pos {
                assert(st1.pages[i] == st.pages[i]);
                assert(r.pages.contains(st1.pages[i]));
            } else {
                assert(st1.pages[i + 1] == st.pages[i]);
                assert(r.pages.contains(st1.pages[i + 1]));
            }
        }
        assert forall|i: int| 0 <= i < es.len() implies r.pages.contains(#[trigger] es[i]) by {
            if i == 0 {
                assert(st1.pages[pos] == e0);
                assert(r.pages.contains(st1.pages[pos]));
            } else {
                assert(es[i] == rest[i - 1]);
            }
        }
    }
}

/// Sync delivers missing pages: when a peer with the same configuration and
/// contributors lacks every page of a valid state, the delta against the peer's summary
/// offers each of those pages whole, and applying it to the peer succeeds and leaves the
/// peer with all of its own pages and all of the state's (when there is room for them).
pub proof fn law_sync_delivers_missing_pages(a: SpecState, b: SpecState, owner_vk: Seq<u8>)
    requires
        state_problem(a, owner_vk) is None,
        a.config == b.config,
        a.contributors == b.contributors,
        entry_paths(a.pages).no_duplicates(),
        forall|i: int| 0 <= i < a.pages.len() ==> find_entry(b.pages, #[trigger] a.pages[i].0) is None,
        a.pages.len() + b.pages.len() <= b.config.config.max_pages,
    ensures
        ({
            let d = spec_state_delta(a, spec_state_summary(b));
            &&& (d is Some <==> a.pages.len() > 0)
            &&& (d matches Some(dd) ==> {
                let (r, e) = spec_apply_state_delta(b, dd, owner_vk);
                &&& e is None
                &&& forall|i: int| 0 <= i < a.pages.len() ==> r.pages.contains(#[trigger] a.pages[i])
                &&& forall|i: int| 0 <= i < b.pages.len() ==> r.pages.contains(#[trigger] b.pages[i])
            })
        }),
{
    let sb = spec_state_summary(b);
    lemma_state_summary_summarizes(b);
    crate::contributor::law_contributors_delta_against_own_summary_is_empty(
        a.contributors,
        sb.contributor_ids,
    );
    assert(entry_paths(sb.pages) =~= entry_paths(b.pages));
    assert forall|i: int| 0 <= i < a.pages.len() implies find_entry(sb.pages, #[trigger] a.pages[i].0)
        is None by {
        assert(find_entry(b.pages, a.pages[i].0) is None);
    }
    lemma_page_updates_all_new(a.pages, sb.pages);
    lemma_entries_ok(a.pages, a.contributors, owner_vk, a.config.config);
    let news = new_pages(a.pages);
    if a.pages.len() > 0 {
        let dd = SpecStateDelta { config: None, contributors: None, pages: Some(news) };
        assert(spec_state_delta(a, sb) == Some(dd));
        let st2 = SpecState { config: b.config, contributors: b.contributors, pages: b.pages };
        assert(st2 == b);
        lemma_apply_new_pages(b, a.pages, owner_vk);
    } else {
        assert(news.len() == 0);
    }
}

} // verus!

verus! {

proof fn lemma_apply_updates_keeps_paths_sorted(
    st: SpecState,
    updates: Seq<(Seq<char>, SpecPageDelta)>,
    owner_vk: Seq<u8>,
)
    requires
        paths_sorted(st.pages),
    ensures
        paths_sorted(spec_apply_updates(st, updates, owner_vk).0.pages),
    decreases updates.len(),
{
    if updates.len() > 0 {
        let (st2, e) = spec_apply_update(st, updates[0].0, updates[0].1, owner_vk);
        match updates[0].1 {
            SpecPageDelta::NewPage(pg) => {
                law_add_page_keeps_paths_sorted(st.pages, pg, st.config.config.max_pages as nat);
            },
            SpecPageDelta::Updates { .. } => {
                if let Some(i) = find_entry(st.pages, updates[0].0) {
                    crate::text::lemma_first_index_from(entry_paths(st.pages), updates[0].0, 0);
                    assert forall|a: int, b: int| 0 <= a < b < st2.pages.len() implies crate::text::lex_lt(
                        st2.pages[a].0,
                        st2.pages[b].0,
                    ) by {
                        assert(st2.pages[a].0 == st.pages[a].0);
                        assert(st2.pages[b].0 == st.pages[b].0);
                    }
                }
            },
        }
        if e is None {
            lemma_apply_updates_keeps_paths_sorted(st2, updates.drop_first(), owner_vk);
        }
    }
}

/// Pages stay in strictly increasing path order (each path once) whatever delta is
/// applied.
pub proof fn law_apply_delta_keeps_paths_sorted(st: SpecState, d: SpecStateDelta, owner_vk: Seq<u8>)
    requires
        paths_sorted(st.pages),
    ensures
        paths_sorted(spec_apply_state_delta(st, d, owner_vk).0.pages),
{
    match d.config {
        Some(c) if !config_signed_by(c, owner_vk) => {},
        _ => {
            let st1 = match d.config {
                Some(c) => if c.config.version > st.config.config.version {
                    SpecState { config: c, contributors: st.contributors, pages: st.pages }
                } else {
                    st
                },
                None => st,
            };
            let (cs, ce) = match d.contributors {
                Some(added) => spec_apply_contributors(
                    st1.contributors,
                    added,
                    owner_vk,
                    st1.config.config.max_contributors as nat,
                ),
                None => (st1.contributors, None),
            };
            let st2 = SpecState { config: st1.config, contributors: cs, pages: st1.pages };
            if ce is None {
                if let Some(updates) = d.pages {
                    lemma_apply_updates_keeps_paths_sorted(st2, updates, owner_vk);
                }
            }
        },
    }
}

} // verus!

verus! {

/// A patch signed by its author, who is the owner or a listed contributor.
pub open spec fn author_signed_patch(
    p: SpecSignedPatch,
    cs: Seq<SignedContributor>,
    owner_vk: Seq<u8>,
) -> bool {
    match spec_get_verifying_key(cs, p.patch.author, owner_vk) {
        Some(k) => patch_signed_by(p, k),
        None => false,
    }
}

/// Every stored patch is signed by its author, who is the owner or a listed contributor.
pub open spec fn patches_signed(
    pages: Seq<(Seq<char>, SpecPage)>,
    cs: Seq<SignedContributor>,
    owner_vk: Seq<u8>,
) -> bool {
    forall|i: int, x: SpecSignedPatch|
        0 <= i < pages.len() && #[trigger] pages[i].1.patches.contains(x) ==> author_signed_patch(
            x,
            cs,
            owner_vk,
        )
}

proof fn lemma_new_patches_signed(ps: Seq<SpecSignedPatch>, cs: Seq<SignedContributor>, owner_vk: Seq<u8>)
    requires
        new_patches_problem(ps, cs, owner_vk) is None,
    ensures
        forall|x: SpecSignedPatch| #[trigger] ps.contains(x) ==> author_signed_patch(x, cs, owner_vk),
    decreases ps.len(),
{
    if ps.len() > 0 {
        lemma_new_patches_signed(ps.drop_first(), cs, owner_vk);
        assert forall|x: SpecSignedPatch| #[trigger] ps.contains(x) implies author_signed_patch(
            x,
            cs,
            owner_vk,
        ) by {
            let i = choose|i: int| 0 <= i < ps.len() && ps[i] == x;
            if i > 0 {
                assert(ps.drop_first()[i - 1] == x);
                assert(ps.drop_first().contains(x));
            }
        }
    }
}

proof fn lemma_add_patches_contains(pg: SpecPage, ps: Seq<SpecSignedPatch>, max: nat)
    ensures
        forall|x: SpecSignedPatch| #[trigger] spec_add_patches(pg, ps, max).0.patches.contains(x) ==> (
        pg.patches.contains(x) || ps.contains(x)),
    decreases ps.len(),
{
    if ps.len() > 0 && crate::page::add_patch_accepted(pg, ps[0], max) {
        let pg1 = crate::page::with_patches(pg, crate::page::spec_add_patch(pg, ps[0], max));
        lemma_add_patches_contains(pg1, ps.drop_first(), max);
        crate::page::law_add_patch_only_adds(pg, ps[0], max);
        assert(spec_add_patches(pg, ps, max) == spec_add_patches(pg1, ps.drop_first(), max));
        assert forall|x: SpecSignedPatch| #[trigger] spec_add_patches(pg, ps, max).0.patches.contains(
            x,
        ) implies pg.patches.contains(x) || ps.contains(x) by {
            assert(pg1.patches.contains(x) || ps.drop_first().contains(x));
            if pg1.patches.contains(x) {
                assert(pg.patches.contains(x) || x == ps[0]);
            }
            if ps.drop_first().contains(x) {
                let i = choose|i: int| 0 <= i < ps.drop_first().len() && ps.drop_first()[i] == x;
                assert(ps[i + 1] == x);
            }
            if x == ps[0] {
                assert(ps.contains(ps[0]));
            }
        }
    }
}

proof fn lemma_update_page_patches(
    pg: SpecPage,
    rev: Option<SpecSignedRevision>,
    ps: Seq<SpecSignedPatch>,
    max: nat,
)
    ensures
        forall|x: SpecSignedPatch| #[trigger] spec_update_page(pg, rev, ps, max).0.patches.contains(x)
            ==> pg.patches.contains(x) || ps.contains(x),
{
    let start = match rev {
        Some(rv) => if rv.revision.version <= pg.revision.revision.version {
            pg
        } else {
            spec_apply_revision(pg, rv)
        },
        None => pg,
    };
    if let Some(rv) = rev {
        crate::page::lemma_patches_from_contains(pg.patches, rv.revision.version);
    }
    lemma_add_patches_contains(start, ps, max);
}

proof fn lemma_apply_update_keeps_patches_signed(
    st: SpecState,
    path: Seq<char>,
    pd: SpecPageDelta,
    owner_vk: Seq<u8>,
)
    requires
        patches_signed(st.pages, st.contributors, owner_vk),
    ensures
        patches_signed(spec_apply_update(st, path, pd, owner_vk).0.pages, st.contributors, owner_vk),
{
    let cs = st.contributors;
    let r = spec_apply_update(st, path, pd, owner_vk).0;
    match pd {
        SpecPageDelta::NewPage(pg) => {
            if r.pages != st.pages {
                let p = path_insert_pos(st.pages, pg.path);
                lemma_path_insert_pos(st.pages, pg.path);
                lemma_new_patches_signed(pg.patches, cs, owner_vk);
                assert forall|k: int, x: SpecSignedPatch|
                    0 <= k < r.pages.len() && #[trigger] r.pages[k].1.patches.contains(x) implies author_signed_patch(
                    x,
                    cs,
                    owner_vk,
                ) by {
                    if k < p {
                        assert(r.pages[k] == st.pages[k]);
                    } else if k > p {
                        assert(r.pages[k] == st.pages[k - 1]);
                    }
                }
            }
        },
        SpecPageDelta::Updates { new_revision, new_patches } => {
            if let Some(i) = find_entry(st.pages, path) {
                if new_revision_problem(new_revision, cs, owner_vk) is None
                    && new_patches_problem(new_patches, cs, owner_vk) is None {
                    crate::text::lemma_first_index_from(entry_paths(st.pages), path, 0);
                    lemma_new_patches_signed(new_patches, cs, owner_vk);
                    let pg = st.pages[i].1;
                    let max = st.config.config.max_patches_per_page as nat;
                    let pg2 = spec_update_page(pg, new_revision, new_patches, max).0;
                    lemma_update_page_patches(pg, new_revision, new_patches, max);
                    assert forall|x: SpecSignedPatch| #[trigger] pg2.patches.contains(x) implies author_signed_patch(
                        x,
                        cs,
                        owner_vk,
                    ) by {
                        if pg.patches.contains(x) {
                            assert(st.pages[i].1.patches.contains(x));
                        }
                    }
                    assert forall|k: int, x: SpecSignedPatch|
                        0 <= k < r.pages.len() && #[trigger] r.pages[k].1.patches.contains(x) implies author_signed_patch(
                        x,
                        cs,
                        owner_vk,
                    ) by {
                        if k != i {
                            assert(r.pages[k] == st.pages[k]);
                        } else {
                            assert(r.pages[k].1 == pg2);
                        }
                    }
                }
            }
        },
    }
}

proof fn lemma_apply_updates_keeps_patches_signed(
    st: SpecState,
    updates: Seq<(Seq<char>, SpecPageDelta)>,
    owner_vk: Seq<u8>,
)
    requires
        patches_signed(st.pages, st.contributors, owner_vk),
    ensures
        patches_signed(
            spec_apply_updates(st, updates, owner_vk).0.pages,
            spec_apply_updates(st, updates, owner_vk).0.contributors,
            owner_vk,
        ),
    decreases updates.len(),
{
    if updates.len() > 0 {
        lemma_apply_update_keeps_patches_signed(st, updates[0].0, updates[0].1, owner_vk);
        lemma_apply_update_keeps_contributors(st, updates[0].0, updates[0].1, owner_vk);
        let (st2, e) = spec_apply_update(st, updates[0].0, updates[0].1, owner_vk);
        if e is None {
            lemma_apply_updates_keeps_patches_signed(st2, updates.drop_first(), owner_vk);
        }
    }
}

proof fn lemma_apply_update_keeps_contributors(
    st: SpecState,
    path: Seq<char>,
    pd: SpecPageDelta,
    owner_vk: Seq<u8>,
)
    ensures
        spec_apply_update(st, path, pd, owner_vk).0.contributors == st.contributors,
{
}

/// Every edit is signed: if every stored patch is signed by its author, the owner or a
/// contributor, this stays so after applying any delta (the patches of a new page and
/// the new patches of an update are checked against their authors' keys, and
/// contributors are only appended).
pub proof fn law_apply_delta_keeps_patches_signed(st: SpecState, d: SpecStateDelta, owner_vk: Seq<u8>)
    requires
        patches_signed(st.pages, st.contributors, owner_vk),
    ensures
        ({
            let r = spec_apply_state_delta(st, d, owner_vk).0;
            patches_signed(r.pages, r.contributors, owner_vk)
        }),
{
    match d.config {
        Some(c) if !config_signed_by(c, owner_vk) => {},
        _ => {
            let st1 = match d.config {
                Some(c) => if c.config.version > st.config.config.version {
                    SpecState { config: c, contributors: st.contributors, pages: st.pages }
                } else {
                    st
                },
                None => st,
            };
            let (cs, ce) = match d.contributors {
                Some(added) => spec_apply_contributors(
                    st1.contributors,
                    added,
                    owner_vk,
                    st1.config.config.max_contributors as nat,
                ),
                None => (st1.contributors, None),
            };
            if let Some(added) = d.contributors {
                lemma_apply_contributors_prefix(
                    st1.contributors,
                    added,
                    owner_vk,
                    st1.config.config.max_contributors as nat,
                );
            } else {
                assert(cs.take(cs.len() as int) =~= cs);
            }
            let st2 = SpecState { config: st1.config, contributors: cs, pages: st1.pages };
            assert forall|i: int, x: SpecSignedPatch|
                0 <= i < st2.pages.len() && #[trigger] st2.pages[i].1.patches.contains(x) implies author_signed_patch(
                x,
                cs,
                owner_vk,
            ) by {
                assert(author_signed_patch(x, st.contributors, owner_vk));
                lemma_key_lookup_extends(st.contributors, cs, x.patch.author, owner_vk);
            }
            if ce is None {
                if let Some(updates) = d.pages {
                    lemma_apply_updates_keeps_patches_signed(st2, updates, owner_vk);
                }
            }
        },
    }
}

} // verus!

verus! {

/// A stored page that passes every check: stored under its own path, its revision and
/// every patch signed by an authorized author, within the size and patch limits.
pub open spec fn stored_page_ok(
    key: Seq<char>,
    pg: SpecPage,
    cs: Seq<SignedContributor>,
    owner_vk: Seq<u8>,
    cfg: SpecConfig,
) -> bool {
    &&& pg.path == key
    &&& author_signed_revision(pg.revision, cs, owner_vk)
    &&& forall|j: int| 0 <= j < pg.patches.len() ==> author_signed_patch(#[trigger] pg.patches[j], cs, owner_vk)
    &&& vstd::utf8::encode_utf8(pg.revision.revision.content).len() <= cfg.max_page_size
    &&& pg.patches.len() <= cfg.max_patches_per_page
}

proof fn lemma_stored_patches_all(ps: Seq<SpecSignedPatch>, cs: Seq<SignedContributor>, owner_vk: Seq<u8>)
    ensures
        stored_patches_problem(ps, cs, owner_vk) is None <==> forall|j: int|
            0 <= j < ps.len() ==> author_signed_patch(#[trigger] ps[j], cs, owner_vk),
    decreases ps.len(),
{
    if ps.len() > 0 {
        lemma_stored_patches_all(ps.drop_first(), cs, owner_vk);
        if forall|j: int| 0 <= j < ps.len() ==> author_signed_patch(#[trigger] ps[j], cs, owner_vk) {
            assert(author_signed_patch(ps[0], cs, owner_vk));
            assert forall|j: int| 0 <= j < ps.drop_first().len() implies author_signed_patch(
                #[trigger] ps.drop_first()[j],
                cs,
                owner_vk,
            ) by {
                assert(ps.drop_first()[j] == ps[j + 1]);
            }
        }
        if stored_patches_problem(ps, cs, owner_vk) is None {
            assert forall|j: int| 0 <= j < ps.len() implies author_signed_patch(
                #[trigger] ps[j],
                cs,
                owner_vk,
            ) by {
                if j > 0 {
                    assert(ps[j] == ps.drop_first()[j - 1]);
                }
            }
        }
    }
}

proof fn lemma_stored_entries_all(
    s: Seq<(Seq<char>, SpecPage)>,
    cs: Seq<SignedContributor>,
    owner_vk: Seq<u8>,
    cfg: SpecConfig,
)
    ensures
        stored_entries_problem(s, cs, owner_vk, cfg) is None <==> forall|i: int|
            0 <= i < s.len() ==> stored_page_ok((#[trigger] s[i]).0, s[i].1, cs, owner_vk, cfg),
    decreases s.len(),
{
    if s.len() > 0 {
        lemma_stored_entries_all(s.drop_first(), cs, owner_vk, cfg);
        lemma_stored_patches_all(s[0].1.patches, cs, owner_vk);
        assert(stored_page_problem(s[0].0, s[0].1, cs, owner_vk, cfg) is None <==> stored_page_ok(
            s[0].0,
            s[0].1,
            cs,
            owner_vk,
            cfg,
        ));
        if forall|i: int| 0 <= i < s.len() ==> stored_page_ok((#[trigger] s[i]).0, s[i].1, cs, owner_vk, cfg) {
            assert(stored_page_ok(s[0].0, s[0].1, cs, owner_vk, cfg));
            assert forall|i: int| 0 <= i < s.drop_first().len() implies stored_page_ok(
                (#[trigger] s.drop_first()[i]).0,
                s.drop_first()[i].1,
                cs,
                owner_vk,
                cfg,
            ) by {
                assert(s.drop_first()[i] == s[i + 1]);
            }
        }
        if stored_entries_problem(s, cs, owner_vk, cfg) is None {
            assert forall|i: int| 0 <= i < s.len() implies stored_page_ok(
                (#[trigger] s[i]).0,
                s[i].1,
                cs,
                owner_vk,
                cfg,
            ) by {
                if i > 0 {
                    assert(s[i] == s.drop_first()[i - 1]);
                }
            }
        }
    }
}

/// Pages verify exactly when there are not too many and every page passes every check
/// (`stored_page_ok`), whatever the order in which the checks run.
pub proof fn law_pages_verify_iff_every_page_ok(
    s: Seq<(Seq<char>, SpecPage)>,
    st: SpecState,
    owner_vk: Seq<u8>,
)
    ensures
        pages_problem(s, st, owner_vk) is None <==> (s.len() <= st.config.config.max_pages && forall|
            i: int,
        |
            0 <= i < s.len() ==> stored_page_ok(
                (#[trigger] s[i]).0,
                s[i].1,
                st.contributors,
                owner_vk,
                st.config.config,
            )),
{
    lemma_stored_entries_all(s, st.contributors, owner_vk, st.config.config);
}

} // verus!

verus! {

proof fn lemma_contains_id(s: Seq<SpecSignedPatch>, x: SpecSignedPatch)
    requires
        s.contains(x),
    ensures
        crate::page::patch_ids(s).contains(crate::page::patch_id(x)),
{
    let j = choose|j: int| 0 <= j < s.len() && s[j] == x;
    assert(crate::page::patch_ids(s)[j] == crate::page::patch_id(x));
}

proof fn lemma_add_patch_ids(pg: SpecPage, p: SpecSignedPatch, max: nat)
    ensures
        forall|id: u64|
            crate::page::patch_ids(pg.patches).contains(id) ==> #[trigger] crate::page::patch_ids(
                crate::page::spec_add_patch(pg, p, max),
            ).contains(id),
        crate::page::add_patch_accepted(pg, p, max) ==> crate::page::patch_ids(
            crate::page::spec_add_patch(pg, p, max),
        ).contains(crate::page::patch_id(p)),
{
    let ids = crate::page::patch_ids(pg.patches);
    if crate::page::add_patch_accepted(pg, p, max) && !ids.contains(crate::page::patch_id(p)) {
        let t = pg.patches.push(p);
        crate::page::lemma_sort_contains(t);
        assert forall|id: u64| ids.contains(id) implies #[trigger] crate::page::patch_ids(
            crate::page::spec_add_patch(pg, p, max),
        ).contains(id) by {
            let j = choose|j: int| 0 <= j < ids.len() && ids[j] == id;
            let x = pg.patches[j];
            assert(t[j] == x);
            assert(t.contains(x));
            lemma_contains_id(crate::page::sort_patches(t), x);
        }
        assert(t[t.len() - 1] == p);
        assert(t.contains(p));
        lemma_contains_id(crate::page::sort_patches(t), p);
    }
}

proof fn lemma_add_patches_ids(pg: SpecPage, ps: Seq<SpecSignedPatch>, max: nat)
    ensures
        spec_add_patches(pg, ps, max).0.revision == pg.revision,
        forall|id: u64|
            crate::page::patch_ids(pg.patches).contains(id) ==> #[trigger] crate::page::patch_ids(
                spec_add_patches(pg, ps, max).0.patches,
            ).contains(id),
        spec_add_patches(pg, ps, max).1 is None ==> forall|j: int|
            0 <= j < ps.len() ==> crate::page::patch_ids(
                spec_add_patches(pg, ps, max).0.patches,
            ).contains(crate::page::patch_id(#[trigger] ps[j])),
    decreases ps.len(),
{
    if ps.len() > 0 && crate::page::add_patch_accepted(pg, ps[0], max) {
        let pg2 = crate::page::with_patches(pg, crate::page::spec_add_patch(pg, ps[0], max));
        lemma_add_patch_ids(pg, ps[0], max);
        lemma_add_patches_ids(pg2, ps.drop_first(), max);
        let fin = spec_add_patches(pg2, ps.drop_first(), max).0;
        assert(spec_add_patches(pg, ps, max) == spec_add_patches(pg2, ps.drop_first(), max));
        if spec_add_patches(pg, ps, max).1 is None {
            assert forall|j: int| 0 <= j < ps.len() implies crate::page::patch_ids(
                fin.patches,
            ).contains(crate::page::patch_id(#[trigger] ps[j])) by {
                if j == 0 {
                    assert(crate::page::patch_ids(pg2.patches).contains(crate::page::patch_id(ps[0])));
                } else {
                    assert(ps[j] == ps.drop_first()[j - 1]);
                }
            }
        }
    }
}

/// A page update that brings a newer revision and new patches, when it succeeds, leaves
/// the page at that revision with every one of the new patches pending (and every patch
/// that was pending for the new revision's version or later still pending): the page is
/// the revision applied and then the patches added.
pub proof fn law_update_with_newer_revision_keeps_its_patches(
    pg: SpecPage,
    r: SpecSignedRevision,
    ps: Seq<SpecSignedPatch>,
    max: nat,
)
    requires
        r.revision.version > pg.revision.revision.version,
    ensures
        spec_update_page(pg, Some(r), ps, max).0 == spec_add_patches(
            spec_apply_revision(pg, r),
            ps,
            max,
        ).0,
        spec_update_page(pg, Some(r), ps, max).1 is None ==> {
            let pg2 = spec_update_page(pg, Some(r), ps, max).0;
            &&& pg2.revision == r
            &&& forall|j: int|
                0 <= j < ps.len() ==> crate::page::patch_ids(pg2.patches).contains(
                    crate::page::patch_id(#[trigger] ps[j]),
                )
            &&& forall|id: u64|
                crate::page::patch_ids(crate::page::patches_from(pg.patches, r.revision.version)).contains(
                    id,
                ) ==> #[trigger] crate::page::patch_ids(pg2.patches).contains(id)
        },
{
    lemma_add_patches_ids(spec_apply_revision(pg, r), ps, max);
}

/// A state whose configuration is newer than a peer's sends it: the delta against the
/// peer's summary exists and carries the state's signed configuration; a configuration
/// that is not newer is never sent.
pub proof fn law_state_delta_sends_newer_config(st: SpecState, s: SpecStateSummary)
    ensures
        st.config.config.version > s.config_version ==> (spec_state_delta(st, s) matches Some(d)
            && d.config == Some(st.config)),
        st.config.config.version <= s.config_version ==> match spec_state_delta(st, s) {
            Some(d) => d.config is None,
            None => true,
        },
{
}

/// A peer that applies the delta of a state with a newer owner-signed configuration,
/// computed against the peer's own summary, ends up with that configuration, whatever
/// else the delta carries.
pub proof fn law_sync_delivers_newer_config(a: SpecState, b: SpecState, owner_vk: Seq<u8>)
    requires
        config_signed_by(a.config, owner_vk),
        a.config.config.version > b.config.config.version,
    ensures
        spec_state_delta(a, spec_state_summary(b)) matches Some(d) && spec_apply_state_delta(
            b,
            d,
            owner_vk,
        ).0.config == a.config,
{
    let d = spec_state_delta(a, spec_state_summary(b)).unwrap();
    let st1 = SpecState { config: a.config, contributors: b.contributors, pages: b.pages };
    let (cs, ce) = match d.contributors {
        Some(added) => spec_apply_contributors(
            st1.contributors,
            added,
            owner_vk,
            st1.config.config.max_contributors as nat,
        ),
        None => (st1.contributors, None),
    };
    let st2 = SpecState { config: st1.config, contributors: cs, pages: st1.pages };
    match d.pages {
        Some(updates) => lemma_apply_updates_keeps_config_and_contributors(st2, updates, owner_vk),
        None => {},
    }
}

} // verus!
