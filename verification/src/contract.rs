//! The wiki contract's decisions: whether a state is valid, how updates merge into a
//! state, and what to send to a peer. Decoding and encoding the bytes that carry these
//! values is left to the caller.

use vstd::prelude::*;
use crate::state::{
    spec_apply_state_delta, spec_state_delta, spec_state_summary, state_problem, SpecState,
    SpecStateDelta, WikiParameters, WikiStateDelta, WikiStateSummary,
    WikiStateV1,
};

verus! {

/// An update as it arrives, once decoded.
#[derive(Debug)]
pub enum IncomingUpdate {
    /// A whole state to merge.
    State(WikiStateV1),
    /// A delta to apply.
    Delta(WikiStateDelta),
    /// An update that could not be decoded, with the decoder's message.
    Malformed(String),
    /// Another kind of update, which the wiki ignores.
    Ignored,
}

/// The mathematical value of an incoming update.
pub enum SpecUpdate {
    State(SpecState),
    Delta(SpecStateDelta),
    Malformed(Seq<char>),
    Ignored,
}

impl View for IncomingUpdate {
    type V = SpecUpdate;

    open spec fn view(&self) -> SpecUpdate {
        match self {
            IncomingUpdate::State(s) => SpecUpdate::State(s@),
            IncomingUpdate::Delta(d) => SpecUpdate::Delta(d@),
            IncomingUpdate::Malformed(m) => SpecUpdate::Malformed(m@),
            IncomingUpdate::Ignored => SpecUpdate::Ignored,
        }
    }
}

/// The views of a list of updates.
pub open spec fn incoming_view(v: Seq<IncomingUpdate>) -> Seq<SpecUpdate> {
    v.map_values(|u: IncomingUpdate| u@)
}

/// Why the contract refuses a state or an update.
#[derive(Debug)]
pub enum ContractFailure {
    /// Bytes that could not be decoded, with the decoder's message.
    Deser(String),
    /// A state that does not verify.
    InvalidState,
    /// An update that cannot be applied.
    InvalidUpdate,
}

/// The mathematical value of a refusal.
pub enum SpecFailure {
    Deser(Seq<char>),
    InvalidState,
    InvalidUpdate,
}

impl View for ContractFailure {
    type V = SpecFailure;

    open spec fn view(&self) -> SpecFailure {
        match self {
            ContractFailure::Deser(m) => SpecFailure::Deser(m@),
            ContractFailure::InvalidState => SpecFailure::InvalidState,
            ContractFailure::InvalidUpdate => SpecFailure::InvalidUpdate,
        }
    }
}

/// Merging a whole state into `st`: the incoming state must verify; then what it has
/// that `st` lacks (its delta against `st`'s summary) is applied.
pub open spec fn spec_merge_state(st: SpecState, incoming: SpecState, owner_vk: Seq<u8>) -> Result<
    SpecState,
    SpecFailure,
> {
    if state_problem(incoming, owner_vk) is Some {
        Err(SpecFailure::InvalidState)
    } else {
        match spec_state_delta(incoming, spec_state_summary(st)) {
            None => Ok(st),
            Some(d) => {
                let (st2, e) = spec_apply_state_delta(st, d, owner_vk);
                if e is Some {
                    Err(SpecFailure::InvalidUpdate)
                } else {
                    Ok(st2)
                }
            },
        }
    }
}

/// One incoming update applied to `st`.
#[verifier::opaque]
pub open spec fn spec_apply_incoming(st: SpecState, u: SpecUpdate, owner_vk: Seq<u8>) -> Result<
    SpecState,
    SpecFailure,
> {
    match u {
        SpecUpdate::State(incoming) => spec_merge_state(st, incoming, owner_vk),
        SpecUpdate::Delta(d) => {
            let (st2, e) = spec_apply_state_delta(st, d, owner_vk);
            if e is Some {
                Err(SpecFailure::InvalidUpdate)
            } else {
                Ok(st2)
            }
        },
        SpecUpdate::Malformed(m) => Err(SpecFailure::Deser(m)),
        SpecUpdate::Ignored => Ok(st),
    }
}

/// The updates applied in order; the first refusal stops; the result must verify.
#[verifier::opaque]
pub open spec fn spec_update_state(st: SpecState, ups: Seq<SpecUpdate>, owner_vk: Seq<u8>) -> Result<
    SpecState,
    SpecFailure,
>
    decreases ups.len(),
{
    if ups.len() == 0 {
        if state_problem(st, owner_vk) is Some {
            Err(SpecFailure::InvalidState)
        } else {
            Ok(st)
        }
    } else {
        match spec_apply_incoming(st, ups[0], owner_vk) {
            Err(f) => Err(f),
            Ok(st2) => spec_update_state(st2, ups.drop_first(), owner_vk),
        }
    }
}

/// Check that a state is valid.
pub fn validate_state(state: &WikiStateV1, params: &WikiParameters) -> (res: Result<
    (),
    ContractFailure,
>)
    ensures
        res is Ok <==> state_problem(state@, params.owner.0@) is None,
        res matches Err(f) ==> f@ == SpecFailure::InvalidState,
{
    match state.verify(params) {
        Ok(()) => Ok(()),
        Err(_) => Err(ContractFailure::InvalidState),
    }
}

fn apply_incoming(wiki_state: &mut WikiStateV1, update: &IncomingUpdate, params: &WikiParameters) -> (res:
    Result<(), ContractFailure>)
    ensures
        match spec_apply_incoming(old(wiki_state)@, update@, params.owner.0@) {
            Ok(st) => res is Ok && final(wiki_state)@ == st,
            Err(f) => res matches Err(g) && g@ == f,
        },
{
    reveal(spec_apply_incoming);
    match update {
        IncomingUpdate::State(incoming) => {
            match incoming.verify(params) {
                Ok(()) => {},
                Err(_) => {
                    return Err(ContractFailure::InvalidState);
                },
            }
            let our_summary = wiki_state.summarize();
            match incoming.delta(&our_summary) {
                Some(delta) => {
                    match wiki_state.apply_delta(&delta, params) {
                        Ok(()) => Ok(()),
                        Err(_) => Err(ContractFailure::InvalidUpdate),
                    }
                },
                None => Ok(()),
            }
        },
        IncomingUpdate::Delta(delta) => {
            match wiki_state.apply_delta(delta, params) {
                Ok(()) => Ok(()),
                Err(_) => Err(ContractFailure::InvalidUpdate),
            }
        },
        IncomingUpdate::Malformed(message) => Err(ContractFailure::Deser(message.clone())),
        IncomingUpdate::Ignored => Ok(()),
    }
}

/// Apply incoming updates to a state: a whole state is verified and merged, a delta is
/// applied; the resulting state must verify.
proof fn lemma_update_state_step(st: SpecState, ups: Seq<SpecUpdate>, owner_vk: Seq<u8>)
    ensures
        ups.len() == 0 ==> spec_update_state(st, ups, owner_vk) == if state_problem(st, owner_vk) is Some {
            Err::<SpecState, SpecFailure>(SpecFailure::InvalidState)
        } else {
            Ok::<SpecState, SpecFailure>(st)
        },
        ups.len() > 0 ==> spec_update_state(st, ups, owner_vk) == match spec_apply_incoming(
            st,
            ups[0],
            owner_vk,
        ) {
            Err(f) => Err::<SpecState, SpecFailure>(f),
            Ok(st2) => spec_update_state(st2, ups.drop_first(), owner_vk),
        },
{
    reveal(spec_update_state);
}

pub fn update_state(state: WikiStateV1, updates: &Vec<IncomingUpdate>, params: &WikiParameters) -> (res:
    Result<WikiStateV1, ContractFailure>)
    ensures
        match res {
            Ok(s) => spec_update_state(state@, incoming_view(updates@), params.owner.0@) == Ok::<
                SpecState,
                SpecFailure,
            >(s@),
            Err(f) => spec_update_state(state@, incoming_view(updates@), params.owner.0@) == Err::<
                SpecState,
                SpecFailure,
            >(f@),
        },
{
    let ghost ups = incoming_view(updates@);
    let ghost owner = params.owner.0@;
    let ghost expected = spec_update_state(state@, ups, owner);
    let mut wiki_state = state;
    let mut k: usize = 0;
    proof {
        assert(ups.skip(0) == ups);
    }
    while k < updates.len()
        invariant
            k <= updates@.len(),
            ups == incoming_view(updates@),
            owner == params.owner.0@,
            expected == spec_update_state(wiki_state@, ups.skip(k as int), owner),
            expected == spec_update_state(state@, ups, owner),
        decreases updates@.len() - k,
    {
        let ghost rest = ups.skip(k as int);
        proof {
            assert(rest[0] == updates@[k as int]@);
            assert(rest.drop_first() == ups.skip(k + 1));
        }
        proof {
            lemma_update_state_step(wiki_state@, rest, owner);
        }
        match apply_incoming(&mut wiki_state, &updates[k], params) {
            Ok(()) => {},
            Err(f) => {
                return Err(f);
            },
        }
        k = k + 1;
    }
    proof {
        assert(ups.skip(k as int).len() == 0);
        lemma_update_state_step(wiki_state@, ups.skip(k as int), owner);
    }
    match wiki_state.verify(params) {
        Ok(()) => Ok(wiki_state),
        Err(_) => Err(ContractFailure::InvalidState),
    }
}

/// What to send to a peer.
#[derive(Debug)]
pub enum DeltaReply {
    /// The peer lacks nothing.
    Nothing,
    /// The peer has nothing: send the whole state.
    WholeState,
    /// What the peer lacks.
    Delta(WikiStateDelta),
}

/// What to send to a peer that holds `summary` (or nothing at all).
pub fn get_state_delta(state: &WikiStateV1, summary: Option<&WikiStateSummary>) -> (res: DeltaReply)
    ensures
        match summary {
            None => res is WholeState,
            Some(s) => match spec_state_delta(state@, s@) {
                Some(d) => res matches DeltaReply::Delta(x) && x@ == d,
                None => res is Nothing,
            },
        },
{
    match summary {
        None => DeltaReply::WholeState,
        Some(s) => match state.delta(s) {
            Some(d) => DeltaReply::Delta(d),
            None => DeltaReply::Nothing,
        },
    }
}

} // verus!

verus! {

/// Every state that the contract accepts from updates verifies: its configuration is the
/// owner's, and every stored revision and patch is signed by an authorized author.
pub proof fn law_updated_state_verifies(st: SpecState, ups: Seq<SpecUpdate>, owner_vk: Seq<u8>)
    ensures
        spec_update_state(st, ups, owner_vk) matches Ok(s) ==> state_problem(s, owner_vk) is None,
    decreases ups.len(),
{
    reveal(spec_update_state);
    if ups.len() > 0 {
        if let Ok(st2) = spec_apply_incoming(st, ups[0], owner_vk) {
            law_updated_state_verifies(st2, ups.drop_first(), owner_vk);
        }
    }
}

} // verus!

verus! {

/// Merging a valid state into itself changes nothing, when no two of its pages share a
/// path.
pub proof fn law_merge_with_self_is_noop(st: SpecState, owner_vk: Seq<u8>)
    requires
        state_problem(st, owner_vk) is None,
        crate::state::entry_paths(st.pages).no_duplicates(),
    ensures
        spec_merge_state(st, st, owner_vk) == Ok::<SpecState, SpecFailure>(st),
{
    crate::state::lemma_state_summary_summarizes(st);
    crate::state::law_state_delta_against_own_summary_is_empty(st, spec_state_summary(st));
}

} // verus!
