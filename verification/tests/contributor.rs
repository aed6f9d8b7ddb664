use freenet_wiki_common::contributor::{Contributor, ContributorId, ContributorsDelta, ContributorsV1, SignedContributor};
use freenet_wiki_common::util::{sign_message, SigningKey, Timestamp};

fn member_key(n: u8) -> SigningKey {
    SigningKey([n; 32])
}

fn invite(inviter: &SigningKey, owner_id: ContributorId, invitee: &SigningKey) -> SignedContributor {
    let contributor = Contributor {
        wiki_owner_id: owner_id,
        invited_by: ContributorId::from(inviter.verifying_key()),
        contributor_vk: invitee.verifying_key(),
        invited_at: Timestamp { secs: 1_700_000_000, nanos: 0 },
    };
    SignedContributor::new(contributor, inviter)
}

#[test]
fn test_owner_is_always_authorized() {
    let owner_key = member_key(1);
    let owner_id = ContributorId::from(owner_key.verifying_key());
    let contributors = ContributorsV1::default();

    assert!(contributors.is_authorized(&owner_id, &owner_id));
}

#[test]
fn test_invite_contributor() {
    let owner_key = member_key(2);
    let owner_vk = owner_key.verifying_key();
    let owner_id = ContributorId::from(&owner_vk);

    let contributor_key = member_key(3);
    let signed = invite(&owner_key, owner_id, &contributor_key);

    let mut contributors = ContributorsV1::default();
    let delta = ContributorsDelta { added: vec![signed.clone()] };

    contributors.apply_delta(&delta, &owner_vk, 100).unwrap();

    assert!(contributors.is_authorized(&signed.id(), &owner_id));
}

#[test]
fn test_invalid_signature_rejected() {
    let owner_key = member_key(4);
    let owner_vk = owner_key.verifying_key();
    let owner_id = ContributorId::from(&owner_vk);

    let attacker_key = member_key(5);
    let contributor_key = member_key(6);

    let contributor = Contributor {
        wiki_owner_id: owner_id,
        invited_by: owner_id,
        contributor_vk: contributor_key.verifying_key(),
        invited_at: Timestamp { secs: 1_700_000_000, nanos: 0 },
    };
    let signed = SignedContributor {
        signature: sign_message(&contributor.signing_bytes(), &attacker_key),
        contributor,
    };

    let mut contributors = ContributorsV1::default();
    let delta = ContributorsDelta { added: vec![signed] };

    assert!(contributors.apply_delta(&delta, &owner_vk, 100).is_err());
}

#[test]
fn invited_contributors_can_invite_others() {
    let owner = member_key(7);
    let owner_vk = owner.verifying_key();
    let owner_id = ContributorId::from(owner_vk);
    let alice = member_key(8);
    let bob = member_key(9);
    let a = invite(&owner, owner_id, &alice);
    let b = invite(&alice, owner_id, &bob);
    let mut cs = ContributorsV1::default();
    cs.apply_delta(&ContributorsDelta { added: vec![a, b] }, &owner_vk, 10).unwrap();
    assert_eq!(cs.contributors.len(), 2);
    assert!(cs.is_authorized(&ContributorId::from(bob.verifying_key()), &owner_id));
    assert_eq!(
        cs.get_verifying_key(&ContributorId::from(bob.verifying_key()), &owner_vk).map(|k| k.0),
        Some(bob.verifying_key().0)
    );
    assert_eq!(cs.get_verifying_key(&owner_id, &owner_vk).map(|k| k.0), Some(owner_vk.0));
}

#[test]
fn unknown_inviter_is_reported() {
    let owner = member_key(10);
    let owner_vk = owner.verifying_key();
    let owner_id = ContributorId::from(owner_vk);
    let stranger = member_key(11);
    let invitee = member_key(12);
    let c = invite(&stranger, owner_id, &invitee);
    let mut cs = ContributorsV1::default();
    let err = cs.apply_delta(&ContributorsDelta { added: vec![c] }, &owner_vk, 10).unwrap_err();
    let stranger_id = ContributorId::from(stranger.verifying_key());
    assert_eq!(err, format!("Inviter ContributorId(FastHash({})) not found", stranger_id.0 .0));
    assert!(cs.contributors.is_empty());
}

#[test]
fn wrong_owner_is_rejected() {
    let owner = member_key(13);
    let owner_vk = owner.verifying_key();
    let other_owner = ContributorId::from(member_key(14).verifying_key());
    let c = invite(&owner, other_owner, &member_key(15));
    let mut cs = ContributorsV1::default();
    let err = cs.apply_delta(&ContributorsDelta { added: vec![c] }, &owner_vk, 10).unwrap_err();
    assert_eq!(err, "Wiki owner ID mismatch");
}

#[test]
fn contributor_limit_stops_after_the_valid_ones() {
    let owner = member_key(16);
    let owner_vk = owner.verifying_key();
    let owner_id = ContributorId::from(owner_vk);
    let a = invite(&owner, owner_id, &member_key(17));
    let b = invite(&owner, owner_id, &member_key(18));
    let mut cs = ContributorsV1::default();
    let err = cs.apply_delta(&ContributorsDelta { added: vec![a, b] }, &owner_vk, 1).unwrap_err();
    assert_eq!(err, "Maximum contributors reached");
    assert_eq!(cs.contributors.len(), 1);
}

#[test]
fn duplicate_invitations_are_skipped() {
    let owner = member_key(19);
    let owner_vk = owner.verifying_key();
    let owner_id = ContributorId::from(owner_vk);
    let a = invite(&owner, owner_id, &member_key(20));
    let mut cs = ContributorsV1::default();
    cs.apply_delta(&ContributorsDelta { added: vec![a, a] }, &owner_vk, 10).unwrap();
    assert_eq!(cs.contributors.len(), 1);
}

#[test]
fn contributors_delta_against_own_summary_is_empty() {
    let owner = member_key(21);
    let owner_vk = owner.verifying_key();
    let owner_id = ContributorId::from(owner_vk);
    let a = invite(&owner, owner_id, &member_key(22));
    let mut cs = ContributorsV1::default();
    let empty = cs.summarize();
    cs.apply_delta(&ContributorsDelta { added: vec![a] }, &owner_vk, 10).unwrap();
    let summary = cs.summarize();
    assert_eq!(summary, vec![a.id()]);
    assert!(cs.delta(&summary).is_none());
    let d = cs.delta(&empty).expect("one new contributor");
    assert_eq!(d.added.len(), 1);
    assert_eq!(d.added[0].id(), a.id());
}

#[test]
fn verify_signature_reports_the_error() {
    let owner = member_key(23);
    let owner_id = ContributorId::from(owner.verifying_key());
    let a = invite(&owner, owner_id, &member_key(24));
    assert!(a.verify_signature(&owner.verifying_key()).is_ok());
    let err = a.verify_signature(&member_key(25).verifying_key()).unwrap_err();
    assert!(err.starts_with("Invalid contributor signature: "));
}

#[test]
fn get_finds_contributors_by_id() {
    let owner = member_key(26);
    let owner_vk = owner.verifying_key();
    let owner_id = ContributorId::from(owner_vk);
    let a = invite(&owner, owner_id, &member_key(27));
    let mut cs = ContributorsV1::default();
    assert!(cs.get(&a.id()).is_none());
    cs.apply_delta(&ContributorsDelta { added: vec![a] }, &owner_vk, 10).unwrap();
    assert_eq!(cs.get(&a.id()).map(|c| c.id()), Some(a.id()));
    assert_eq!(a.id(), a.contributor.id());
}

#[test]
fn try_new_checks_the_inviter() {
    let owner = member_key(28);
    let owner_id = ContributorId::from(owner.verifying_key());
    let c = Contributor {
        wiki_owner_id: owner_id,
        invited_by: owner_id,
        contributor_vk: member_key(29).verifying_key(),
        invited_at: Timestamp { secs: 5, nanos: 6 },
    };
    assert!(SignedContributor::try_new(c, &owner).is_some());
    assert!(SignedContributor::try_new(c, &member_key(30)).is_none());
}

#[test]
fn authorized_exactly_when_a_key_is_known() {
    let owner = member_key(31);
    let owner_vk = owner.verifying_key();
    let owner_id = ContributorId::from(owner_vk);
    let a = invite(&owner, owner_id, &member_key(32));
    let mut cs = ContributorsV1::default();
    cs.apply_delta(&ContributorsDelta { added: vec![a] }, &owner_vk, 10).unwrap();
    for id in [owner_id, a.id(), ContributorId::from(member_key(33).verifying_key())] {
        assert_eq!(cs.is_authorized(&id, &owner_id), cs.get_verifying_key(&id, &owner_vk).is_some());
    }
}
