use freenet_wiki_common::delegate::{
    key_response, process, wiki_key_secret_id, DelegateAction, DelegateInbound, WikiDelegateRequest,
    WikiDelegateResponse,
};

#[test]
fn secret_id_is_prefix_and_wiki_id() {
    let id = [7u8; 32];
    let key = wiki_key_secret_id(&id);
    let mut expected = b"wiki-signing-key:".to_vec();
    expected.extend_from_slice(&id);
    assert_eq!(key, expected);
}

#[test]
fn store_key_sets_the_secret_and_answers() {
    let msg = DelegateInbound::Request(WikiDelegateRequest::StoreKey { wiki_id: [1u8; 32], key_bytes: [2u8; 32] });
    let actions = process(&msg).unwrap();
    assert_eq!(actions.len(), 2);
    match &actions[0] {
        DelegateAction::SetSecret { key, value } => {
            assert_eq!(key, &wiki_key_secret_id(&[1u8; 32]));
            assert_eq!(value, &vec![2u8; 32]);
        }
        other => panic!("unexpected {:?}", other),
    }
    assert!(matches!(actions[1], DelegateAction::Reply(WikiDelegateResponse::KeyStored)));
}

#[test]
fn get_and_has_key_look_the_secret_up() {
    for req in [WikiDelegateRequest::GetKey { wiki_id: [3u8; 32] }, WikiDelegateRequest::HasKey { wiki_id: [3u8; 32] }] {
        let actions = process(&DelegateInbound::Request(req)).unwrap();
        assert_eq!(actions.len(), 1);
        match &actions[0] {
            DelegateAction::GetSecret { key } => assert_eq!(key, &wiki_key_secret_id(&[3u8; 32])),
            other => panic!("unexpected {:?}", other),
        }
    }
}

#[test]
fn other_messages_ask_for_nothing() {
    assert!(process(&DelegateInbound::Other).unwrap().is_empty());
    assert!(process(&DelegateInbound::SecretResponse(Some(vec![1u8; 32]))).unwrap().is_empty());
    assert_eq!(process(&DelegateInbound::Malformed("oops".to_string())).unwrap_err(), "oops");
}

#[test]
fn key_response_needs_exactly_32_bytes() {
    match key_response(&Some(vec![5u8; 32])) {
        WikiDelegateResponse::Key { key_bytes } => assert_eq!(key_bytes, [5u8; 32]),
        other => panic!("unexpected {:?}", other),
    }
    assert!(matches!(key_response(&Some(vec![5u8; 31])), WikiDelegateResponse::KeyNotFound));
    assert!(matches!(key_response(&None), WikiDelegateResponse::KeyNotFound));
}
