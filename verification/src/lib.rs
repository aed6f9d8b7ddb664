//! Freenet Wiki: the shared logic of a decentralized wiki, verified.
//!
//! A wiki is a signed configuration, a list of invited contributors (a chain of
//! trust rooted at the owner) and pages. Each page is a signed base revision plus
//! pending signed patches, whose line operations address lines by content hash so
//! that patches merge commutatively. Peers synchronize by exchanging summaries and
//! deltas.
//!
//! - `text`: character-level text model and helpers.
//! - `util`: hashing, keys, signatures and timestamps (BLAKE3, Ed25519, the clock).
//! - `encoding`: the byte strings that signatures cover.
//! - `patch_ops`: line operations and their laws.
//! - `wiki_links`: `[[link]]` extraction and rendering.
//! - `page`: pages, revisions, patches, summaries and deltas.
//! - `contributor`: contributors and invitations.
//! - `state`: the whole wiki state, its verification, summary, delta and merge.
//! - `contract`: the contract's decisions on states and updates.
//! - `delegate`: the key delegate's decisions.

pub mod text;
pub mod util;
pub mod encoding;
pub mod patch_ops;
pub mod wiki_links;
pub mod page;
pub mod contributor;
pub mod state;
pub mod contract;
pub mod delegate;
