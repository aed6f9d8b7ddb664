use freenet_wiki_common::contributor::{Contributor, ContributorId, ContributorsDelta, SignedContributor};
use freenet_wiki_common::page::{PageDelta, PagePath, Patch, SignedPatch, WikiPageV1};
use freenet_wiki_common::patch_ops::delete_line;
use freenet_wiki_common::state::{
    WikiConfig, WikiConfigV1, WikiPagesDelta, WikiParameters, WikiStateDelta, WikiStateV1,
};
use freenet_wiki_common::util::{SigningKey, Timestamp};

fn wiki_key(n: u8) -> SigningKey {
    SigningKey([n; 32])
}

fn params_for(owner: &SigningKey) -> WikiParameters {
    WikiParameters { owner: owner.verifying_key(), wiki_id: [0u8; 32] }
}

#[test]
fn test_create_wiki() {
    let owner_key = wiki_key(1);
    let config = WikiConfig { name: "My Wiki".to_string(), ..Default::default() };

    let wiki = WikiStateV1::new(config, &owner_key);

    assert_eq!(wiki.config.config.name, "My Wiki");
    assert!(wiki.contributors.contributors.is_empty());
    assert!(wiki.pages.pages.is_empty());
}

#[test]
fn test_add_page() {
    let owner_key = wiki_key(2);
    let params = WikiParameters { owner: owner_key.verifying_key(), wiki_id: [0u8; 32] };

    let mut wiki = WikiStateV1::new(WikiConfig::default(), &owner_key);

    let page = WikiPageV1::new(PagePath::normalize("home"), "# Welcome".to_string(), &owner_key);

    wiki.pages.add_page(page, 1000).unwrap();

    assert!(wiki.pages.get(&PagePath::normalize("home")).is_some());
    assert!(wiki.verify(&params).is_ok());
}

#[test]
fn test_delta_sync() {
    let owner_key = wiki_key(3);
    let params = WikiParameters { owner: owner_key.verifying_key(), wiki_id: [0u8; 32] };

    let mut wiki = WikiStateV1::new(WikiConfig::default(), &owner_key);

    let summary1 = wiki.summarize();

    let page = WikiPageV1::new(PagePath::normalize("home"), "# Welcome".to_string(), &owner_key);
    wiki.pages.add_page(page, 1000).unwrap();

    let delta = wiki.delta(&summary1).expect("Should have delta");

    let mut wiki2 = WikiStateV1::new(WikiConfig::default(), &owner_key);
    wiki2.apply_delta(&delta, &params).unwrap();

    assert!(wiki2.pages.get(&PagePath::normalize("home")).is_some());
}

#[test]
fn default_config_values() {
    let c = WikiConfig::default();
    assert_eq!(c.version, 1);
    assert_eq!(c.name, "Untitled Wiki");
    assert_eq!(c.description, None);
    assert_eq!(c.max_pages, 1000);
    assert_eq!(c.max_page_size, 1024 * 1024);
    assert_eq!(c.max_patches_per_page, 100);
    assert_eq!(c.max_contributors, 100);
    let d = WikiStateV1::default();
    assert_eq!(d.config.signature.0, [0u8; 64]);
    assert!(d.pages.pages.is_empty());
}

#[test]
fn pages_stay_in_path_order() {
    let owner = wiki_key(4);
    let mut wiki = WikiStateV1::new(WikiConfig::default(), &owner);
    for name in ["b", "c", "a"] {
        let page = WikiPageV1::new(PagePath::normalize(name), "x".to_string(), &owner);
        wiki.pages.add_page(page, 10).unwrap();
    }
    let names: Vec<&str> = wiki.pages.pages.iter().map(|(p, _)| p.as_str()).collect();
    assert_eq!(names, vec!["a", "b", "c"]);
}

#[test]
fn add_page_errors() {
    let owner = wiki_key(5);
    let mut wiki = WikiStateV1::new(WikiConfig::default(), &owner);
    let page = WikiPageV1::new(PagePath::normalize("home"), "x".to_string(), &owner);
    wiki.pages.add_page(page.clone(), 10).unwrap();
    assert_eq!(wiki.pages.add_page(page.clone(), 10).unwrap_err(), "Page 'home' already exists");
    let other = WikiPageV1::new(PagePath::normalize("other"), "x".to_string(), &owner);
    assert_eq!(wiki.pages.add_page(other, 1).unwrap_err(), "Maximum pages reached");
}

#[test]
fn get_mut_changes_the_stored_page() {
    let owner = wiki_key(6);
    let mut wiki = WikiStateV1::new(WikiConfig::default(), &owner);
    let page = WikiPageV1::new(PagePath::normalize("home"), "x".to_string(), &owner);
    wiki.pages.add_page(page, 10).unwrap();
    wiki.pages.get_mut(&PagePath::normalize("home")).unwrap().revision.revision.version = 5;
    assert_eq!(wiki.pages.get(&PagePath::normalize("home")).unwrap().revision.revision.version, 5);
    assert!(wiki.pages.get_mut(&PagePath::normalize("none")).is_none());
}

#[test]
fn verify_reports_each_problem() {
    let owner = wiki_key(7);
    let params = params_for(&owner);
    let stranger = wiki_key(8);

    let wiki = WikiStateV1::new(WikiConfig::default(), &stranger);
    assert!(wiki.verify(&params).unwrap_err().starts_with("Invalid config signature: "));

    let mut wiki = WikiStateV1::new(WikiConfig { max_pages: 0, ..Default::default() }, &owner);
    let page = WikiPageV1::new(PagePath::normalize("p"), "x".to_string(), &owner);
    wiki.pages.pages.push((PagePath::normalize("p"), page));
    assert_eq!(wiki.verify(&params).unwrap_err(), "Too many pages");

    let mut wiki = WikiStateV1::new(WikiConfig::default(), &owner);
    let page = WikiPageV1::new(PagePath::normalize("p"), "x".to_string(), &owner);
    wiki.pages.pages.push((PagePath::normalize("q"), page));
    assert_eq!(wiki.verify(&params).unwrap_err(), "Page path mismatch: p vs q");

    let mut wiki = WikiStateV1::new(WikiConfig::default(), &owner);
    let page = WikiPageV1::new(PagePath::normalize("p"), "x".to_string(), &stranger);
    wiki.pages.add_page(page, 10).unwrap();
    let sid = ContributorId::from(stranger.verifying_key());
    assert_eq!(
        wiki.verify(&params).unwrap_err(),
        format!("Revision author ContributorId(FastHash({})) not authorized", sid.0 .0)
    );

    let mut wiki = WikiStateV1::new(WikiConfig { max_page_size: 3, ..Default::default() }, &owner);
    let page = WikiPageV1::new(PagePath::normalize("p"), "four".to_string(), &owner);
    wiki.pages.add_page(page, 10).unwrap();
    assert_eq!(wiki.verify(&params).unwrap_err(), "Page 'p' exceeds max size");
}

fn patch_by(key: &SigningKey, secs: i64) -> SignedPatch {
    let patch = Patch {
        target_version: 1,
        author: ContributorId::from(key.verifying_key()),
        created_at: Timestamp { secs, nanos: 0 },
        operations: vec![delete_line("x")],
        message: None,
    };
    SignedPatch::new(patch, key)
}

#[test]
fn verify_checks_patches() {
    let owner = wiki_key(9);
    let params = params_for(&owner);
    let stranger = wiki_key(10);

    let mut wiki = WikiStateV1::new(WikiConfig::default(), &owner);
    let mut page = WikiPageV1::new(PagePath::normalize("p"), "x".to_string(), &owner);
    page.patches.push(patch_by(&stranger, 1));
    wiki.pages.add_page(page, 10).unwrap();
    let sid = ContributorId::from(stranger.verifying_key());
    assert_eq!(
        wiki.verify(&params).unwrap_err(),
        format!("Patch author ContributorId(FastHash({})) not authorized", sid.0 .0)
    );

    let mut wiki = WikiStateV1::new(WikiConfig { max_patches_per_page: 0, ..Default::default() }, &owner);
    let mut page = WikiPageV1::new(PagePath::normalize("p"), "x".to_string(), &owner);
    page.patches.push(patch_by(&owner, 1));
    wiki.pages.add_page(page, 10).unwrap();
    assert_eq!(wiki.verify(&params).unwrap_err(), "Page 'p' has too many patches");

    let mut wiki = WikiStateV1::new(WikiConfig::default(), &owner);
    let mut page = WikiPageV1::new(PagePath::normalize("p"), "x".to_string(), &owner);
    let mut bad = patch_by(&owner, 1);
    bad.patch.created_at.secs = 2;
    page.patches.push(bad);
    wiki.pages.add_page(page, 10).unwrap();
    assert!(wiki.verify(&params).unwrap_err().starts_with("Invalid patch signature: "));
}

#[test]
fn too_many_contributors_fails_verification() {
    let owner = wiki_key(11);
    let params = params_for(&owner);
    let owner_id = ContributorId::from(owner.verifying_key());
    let mut wiki = WikiStateV1::new(WikiConfig { max_contributors: 0, ..Default::default() }, &owner);
    let c = Contributor {
        wiki_owner_id: owner_id,
        invited_by: owner_id,
        contributor_vk: wiki_key(12).verifying_key(),
        invited_at: Timestamp { secs: 1, nanos: 0 },
    };
    wiki.contributors.contributors.push(SignedContributor::new(c, &owner));
    assert_eq!(wiki.verify(&params).unwrap_err(), "Too many contributors");
}

#[test]
fn state_delta_against_own_summary_is_empty() {
    let owner = wiki_key(13);
    let mut wiki = WikiStateV1::new(WikiConfig::default(), &owner);
    let page = WikiPageV1::new(PagePath::normalize("home"), "x".to_string(), &owner);
    wiki.pages.add_page(page, 10).unwrap();
    let s = wiki.summarize();
    assert_eq!(s.config_version, 1);
    assert_eq!(s.pages.len(), 1);
    assert!(wiki.delta(&s).is_none());
}

#[test]
fn unsigned_config_is_refused_and_nothing_changes() {
    let owner = wiki_key(14);
    let params = params_for(&owner);
    let mut wiki = WikiStateV1::new(WikiConfig::default(), &owner);
    let forged = WikiConfigV1::new(WikiConfig { version: 2, ..Default::default() }, &wiki_key(15));
    let delta = WikiStateDelta { config: Some(forged), contributors: None, pages: None };
    let err = wiki.apply_delta(&delta, &params).unwrap_err();
    assert!(err.starts_with("Invalid config signature: "));
    assert_eq!(wiki.config.config.version, 1);

    let signed = WikiConfigV1::new(WikiConfig { version: 2, ..Default::default() }, &owner);
    let delta = WikiStateDelta { config: Some(signed), contributors: None, pages: None };
    wiki.apply_delta(&delta, &params).unwrap();
    assert_eq!(wiki.config.config.version, 2);
}

#[test]
fn apply_delta_errors_for_pages() {
    let owner = wiki_key(16);
    let params = params_for(&owner);
    let stranger = wiki_key(17);
    let mut wiki = WikiStateV1::new(WikiConfig::default(), &owner);

    let page = WikiPageV1::new(PagePath::normalize("p"), "x".to_string(), &stranger);
    let delta = WikiStateDelta {
        config: None,
        contributors: None,
        pages: Some(WikiPagesDelta { updates: vec![(PagePath::normalize("p"), PageDelta::NewPage(page))] }),
    };
    assert_eq!(wiki.apply_delta(&delta, &params).unwrap_err(), "Page author not authorized");

    let delta = WikiStateDelta {
        config: None,
        contributors: None,
        pages: Some(WikiPagesDelta {
            updates: vec![(
                PagePath::normalize("missing"),
                PageDelta::Updates { new_revision: None, new_patches: vec![] },
            )],
        }),
    };
    assert_eq!(wiki.apply_delta(&delta, &params).unwrap_err(), "Page 'missing' not found");

    let page = WikiPageV1::new(PagePath::normalize("p"), "x".to_string(), &owner);
    wiki.pages.add_page(page, 10).unwrap();
    let delta = WikiStateDelta {
        config: None,
        contributors: None,
        pages: Some(WikiPagesDelta {
            updates: vec![(
                PagePath::normalize("p"),
                PageDelta::Updates { new_revision: None, new_patches: vec![patch_by(&stranger, 1)] },
            )],
        }),
    };
    assert_eq!(wiki.apply_delta(&delta, &params).unwrap_err(), "Patch author not authorized");

    let stale = wiki.pages.get(&PagePath::normalize("p")).unwrap().revision.clone();
    let delta = WikiStateDelta {
        config: None,
        contributors: None,
        pages: Some(WikiPagesDelta {
            updates: vec![(
                PagePath::normalize("p"),
                PageDelta::Updates { new_revision: Some(stale), new_patches: vec![] },
            )],
        }),
    };
    assert_eq!(
        wiki.apply_delta(&delta, &params).unwrap_err(),
        "New revision version must be greater than current"
    );

    let foreign = WikiPageV1::new(PagePath::normalize("p"), "y".to_string(), &stranger);
    let mut rev = foreign.revision.clone();
    rev.revision.version = 2;
    let delta = WikiStateDelta {
        config: None,
        contributors: None,
        pages: Some(WikiPagesDelta {
            updates: vec![(
                PagePath::normalize("p"),
                PageDelta::Updates { new_revision: Some(rev), new_patches: vec![] },
            )],
        }),
    };
    assert_eq!(wiki.apply_delta(&delta, &params).unwrap_err(), "Revision author not authorized");
}

#[test]
fn apply_delta_adds_patches_to_existing_pages() {
    let owner = wiki_key(18);
    let params = params_for(&owner);
    let mut a = WikiStateV1::new(WikiConfig::default(), &owner);
    let page = WikiPageV1::new(PagePath::normalize("p"), "x\ny".to_string(), &owner);
    a.pages.add_page(page.clone(), 10).unwrap();
    let mut b = a.clone();
    let s = b.summarize();
    a.pages.get_mut(&PagePath::normalize("p")).unwrap().add_patch(patch_by(&owner, 1), 10).unwrap();
    let d = a.delta(&s).expect("a patch is new");
    b.apply_delta(&d, &params).unwrap();
    assert_eq!(b.pages.get(&PagePath::normalize("p")).unwrap().render(), "y");
    assert!(a.delta(&b.summarize()).is_none());
}

#[test]
fn contributors_from_delta_authorize_their_pages() {
    let owner = wiki_key(19);
    let params = params_for(&owner);
    let owner_id = ContributorId::from(owner.verifying_key());
    let alice = wiki_key(20);
    let invite = SignedContributor::new(
        Contributor {
            wiki_owner_id: owner_id,
            invited_by: owner_id,
            contributor_vk: alice.verifying_key(),
            invited_at: Timestamp { secs: 1, nanos: 0 },
        },
        &owner,
    );
    let page = WikiPageV1::new(PagePath::normalize("alice"), "hi".to_string(), &alice);
    let mut wiki = WikiStateV1::new(WikiConfig::default(), &owner);
    let delta = WikiStateDelta {
        config: None,
        contributors: Some(ContributorsDelta { added: vec![invite] }),
        pages: Some(WikiPagesDelta { updates: vec![(PagePath::normalize("alice"), PageDelta::NewPage(page))] }),
    };
    wiki.apply_delta(&delta, &params).unwrap();
    assert!(wiki.is_authorized(&ContributorId::from(alice.verifying_key()), &params));
    assert!(wiki.get_contributor_vk(&ContributorId::from(alice.verifying_key()), &params).is_some());
    assert!(wiki.verify(&params).is_ok());
    assert_eq!(params.owner_id(), owner_id);
}

#[test]
fn sync_delivers_missing_pages_and_keeps_own() {
    let owner = wiki_key(21);
    let params = params_for(&owner);
    let mut a = WikiStateV1::new(WikiConfig::default(), &owner);
    let mut b = a.clone();
    for name in ["p1", "p2"] {
        let page = WikiPageV1::new(PagePath::normalize(name), name.to_string(), &owner);
        a.pages.add_page(page, 10).unwrap();
    }
    let own = WikiPageV1::new(PagePath::normalize("q"), "q".to_string(), &owner);
    b.pages.add_page(own, 10).unwrap();
    let d = a.delta(&b.summarize()).expect("b lacks pages");
    b.apply_delta(&d, &params).unwrap();
    let names: Vec<&str> = b.pages.pages.iter().map(|(p, _)| p.as_str()).collect();
    assert_eq!(names, vec!["p1", "p2", "q"]);
    assert!(b.verify(&params).is_ok());
}

#[test]
fn new_page_with_unsigned_patch_is_refused() {
    let owner = wiki_key(22);
    let params = params_for(&owner);
    let stranger = wiki_key(23);
    let mut wiki = WikiStateV1::new(WikiConfig::default(), &owner);
    let mut page = WikiPageV1::new(PagePath::normalize("p"), "x".to_string(), &owner);
    page.patches.push(patch_by(&stranger, 1));
    let delta = WikiStateDelta {
        config: None,
        contributors: None,
        pages: Some(WikiPagesDelta { updates: vec![(PagePath::normalize("p"), PageDelta::NewPage(page))] }),
    };
    assert_eq!(wiki.apply_delta(&delta, &params).unwrap_err(), "Patch author not authorized");
    assert!(wiki.pages.pages.is_empty());
}
