use freenet_wiki_common::contract::{get_state_delta, update_state, validate_state, ContractFailure, DeltaReply, IncomingUpdate};
use freenet_wiki_common::page::{PagePath, WikiPageV1};
use freenet_wiki_common::state::{WikiConfig, WikiParameters, WikiStateV1};
use freenet_wiki_common::util::SigningKey;

fn contract_key(n: u8) -> SigningKey {
    SigningKey([n; 32])
}

fn contract_params(owner: &SigningKey) -> WikiParameters {
    WikiParameters { owner: owner.verifying_key(), wiki_id: [9u8; 32] }
}

#[test]
fn merging_a_whole_state_brings_its_pages() {
    let owner = contract_key(1);
    let params = contract_params(&owner);
    let ours = WikiStateV1::new(WikiConfig::default(), &owner);
    let mut theirs = WikiStateV1::new(WikiConfig::default(), &owner);
    let page = WikiPageV1::new(PagePath::normalize("home"), "hello".to_string(), &owner);
    theirs.pages.add_page(page, 10).unwrap();
    let merged = update_state(ours, &vec![IncomingUpdate::State(theirs)], &params).unwrap();
    assert!(merged.pages.get(&PagePath::normalize("home")).is_some());
    assert!(validate_state(&merged, &params).is_ok());
}

#[test]
fn invalid_incoming_state_is_refused() {
    let owner = contract_key(2);
    let params = contract_params(&owner);
    let ours = WikiStateV1::new(WikiConfig::default(), &owner);
    let forged = WikiStateV1::new(WikiConfig::default(), &contract_key(3));
    assert!(matches!(validate_state(&forged, &params), Err(ContractFailure::InvalidState)));
    let r = update_state(ours, &vec![IncomingUpdate::State(forged)], &params);
    assert!(matches!(r, Err(ContractFailure::InvalidState)));
}

#[test]
fn malformed_updates_report_the_decoder_message() {
    let owner = contract_key(4);
    let params = contract_params(&owner);
    let ours = WikiStateV1::new(WikiConfig::default(), &owner);
    let r = update_state(
        ours,
        &vec![IncomingUpdate::Ignored, IncomingUpdate::Malformed("bad bytes".to_string())],
        &params,
    );
    match r {
        Err(ContractFailure::Deser(m)) => assert_eq!(m, "bad bytes"),
        other => panic!("unexpected {:?}", other),
    }
}

#[test]
fn deltas_are_applied_and_checked() {
    let owner = contract_key(5);
    let params = contract_params(&owner);
    let mut source = WikiStateV1::new(WikiConfig::default(), &owner);
    let target = source.clone();
    let s = target.summarize();
    let page = WikiPageV1::new(PagePath::normalize("p"), "x".to_string(), &owner);
    source.pages.add_page(page, 10).unwrap();
    let delta = source.delta(&s).unwrap();
    let updated = update_state(target, &vec![IncomingUpdate::Delta(delta)], &params).unwrap();
    assert_eq!(updated.pages.pages.len(), 1);

    let stranger_page = WikiPageV1::new(PagePath::normalize("q"), "x".to_string(), &contract_key(6));
    let mut bad_source = updated.clone();
    bad_source.pages.add_page(stranger_page, 10).unwrap();
    let bad = bad_source.delta(&updated.summarize()).unwrap();
    assert!(matches!(
        update_state(updated, &vec![IncomingUpdate::Delta(bad)], &params),
        Err(ContractFailure::InvalidUpdate)
    ));
}

#[test]
fn reply_depends_on_what_the_peer_has() {
    let owner = contract_key(7);
    let mut state = WikiStateV1::new(WikiConfig::default(), &owner);
    assert!(matches!(get_state_delta(&state, None), DeltaReply::WholeState));
    let s = state.summarize();
    assert!(matches!(get_state_delta(&state, Some(&s)), DeltaReply::Nothing));
    let page = WikiPageV1::new(PagePath::normalize("p"), "x".to_string(), &owner);
    state.pages.add_page(page, 10).unwrap();
    match get_state_delta(&state, Some(&s)) {
        DeltaReply::Delta(d) => assert_eq!(d.pages.unwrap().updates.len(), 1),
        other => panic!("unexpected {:?}", other),
    }
}

#[test]
fn merging_a_state_into_itself_changes_nothing() {
    let owner = contract_key(8);
    let params = contract_params(&owner);
    let mut state = WikiStateV1::new(WikiConfig::default(), &owner);
    let page = WikiPageV1::new(PagePath::normalize("p"), "x".to_string(), &owner);
    state.pages.add_page(page, 10).unwrap();
    let copy = state.clone();
    let merged = update_state(state, &vec![IncomingUpdate::State(copy)], &params).unwrap();
    assert_eq!(merged.pages.pages.len(), 1);
    assert!(merged.delta(&merged.summarize()).is_none());
}
