use freenet_wiki_common::contributor::ContributorId;
use freenet_wiki_common::page::{PageDelta, PagePath, Patch, Revision, SignedPatch, SignedRevision, WikiPageV1};
use freenet_wiki_common::patch_ops::{delete_line, insert_after};
use freenet_wiki_common::util::{SigningKey, Timestamp};

fn page_key(n: u8) -> SigningKey {
    SigningKey([n; 32])
}

fn at(secs: i64, nanos: u32) -> Timestamp {
    Timestamp { secs, nanos }
}

#[test]
fn test_create_page() {
    let key = page_key(1);
    let page = WikiPageV1::new(
        PagePath::normalize("home"),
        "# Welcome\n\nThis is the home page.".to_string(),
        &key,
    );

    assert_eq!(page.path.as_str(), "home");
    assert_eq!(page.revision.revision.version, 1);
    assert!(page.patches.is_empty());
}

#[test]
fn test_render_with_patches() {
    let key = page_key(2);
    let mut page = WikiPageV1::new(PagePath::normalize("test"), "line1\nline2\nline3".to_string(), &key);

    let patch = Patch {
        target_version: 1,
        author: ContributorId::from(key.verifying_key()),
        created_at: at(1_700_000_000, 0),
        operations: vec![delete_line("line2")],
        message: None,
    };
    let signed_patch = SignedPatch::new(patch, &key);
    page.add_patch(signed_patch, 100).unwrap();

    let rendered = page.render();
    assert_eq!(rendered, "line1\nline3");
}

#[test]
fn test_commit_patches() {
    let key = page_key(3);
    let mut page = WikiPageV1::new(PagePath::normalize("test"), "line1\nline2".to_string(), &key);

    let patch = Patch {
        target_version: 1,
        author: ContributorId::from(key.verifying_key()),
        created_at: at(1_700_000_000, 0),
        operations: vec![insert_after(Some("line1"), vec!["inserted".to_string()])],
        message: Some("Add line".to_string()),
    };
    let signed_patch = SignedPatch::new(patch, &key);
    page.add_patch(signed_patch, 100).unwrap();

    let new_revision = page.commit(&key);
    assert_eq!(new_revision.revision.version, 2);
    assert_eq!(new_revision.revision.content, "line1\ninserted\nline2");

    page.apply_revision(new_revision).unwrap();
    assert_eq!(page.revision.revision.version, 2);
    assert!(page.patches.is_empty());
}

#[test]
fn test_patches_merge_commutatively() {
    let key = page_key(4);
    let base_content = "line1\nline2\nline3\nline4";

    let mut page_ab = WikiPageV1::new(PagePath::normalize("test"), base_content.to_string(), &key);
    let mut page_ba = WikiPageV1::new(PagePath::normalize("test"), base_content.to_string(), &key);

    let author_id = ContributorId::from(key.verifying_key());

    let patch_a = Patch {
        target_version: 1,
        author: author_id,
        created_at: at(1_700_000_000, 5_000_000),
        operations: vec![delete_line("line2")],
        message: None,
    };
    let signed_a = SignedPatch::new(patch_a, &key);

    let patch_b = Patch {
        target_version: 1,
        author: author_id,
        created_at: at(1_700_000_000, 6_000_000),
        operations: vec![delete_line("line3")],
        message: None,
    };
    let signed_b = SignedPatch::new(patch_b, &key);

    page_ab.add_patch(signed_a.clone(), 100).unwrap();
    page_ab.add_patch(signed_b.clone(), 100).unwrap();

    page_ba.add_patch(signed_b, 100).unwrap();
    page_ba.add_patch(signed_a, 100).unwrap();

    assert_eq!(page_ab.render(), page_ba.render());
    assert_eq!(page_ab.render(), "line1\nline4");
}

#[test]
fn test_path_normalization() {
    assert_eq!(PagePath::normalize("Home").as_str(), "home");
    assert_eq!(PagePath::normalize("/docs/api/").as_str(), "docs/api");
    assert_eq!(PagePath::normalize("").as_str(), "home");
    assert_eq!(PagePath::normalize("//double//slash").as_str(), "double/slash");
}

fn patch_at(key: &SigningKey, target: u64, when: Timestamp, line: &str) -> SignedPatch {
    let patch = Patch {
        target_version: target,
        author: ContributorId::from(key.verifying_key()),
        created_at: when,
        operations: vec![insert_after(None, vec![line.to_string()])],
        message: None,
    };
    SignedPatch::new(patch, key)
}

#[test]
fn patches_are_kept_in_time_order() {
    let key = page_key(5);
    let mut page = WikiPageV1::new(PagePath::normalize("p"), "base".to_string(), &key);
    page.add_patch(patch_at(&key, 1, at(30, 0), "third"), 10).unwrap();
    page.add_patch(patch_at(&key, 1, at(10, 0), "first"), 10).unwrap();
    page.add_patch(patch_at(&key, 1, at(20, 0), "second"), 10).unwrap();
    let times: Vec<i64> = page.patches.iter().map(|p| p.patch.created_at.secs).collect();
    assert_eq!(times, vec![10, 20, 30]);
    // Each insert goes to the top, so the last applied comes first.
    assert_eq!(page.render(), "third\nsecond\nfirst\nbase");
}

#[test]
fn add_patch_rejects_other_versions() {
    let key = page_key(6);
    let mut page = WikiPageV1::new(PagePath::normalize("p"), "base".to_string(), &key);
    let err = page.add_patch(patch_at(&key, 2, at(1, 0), "x"), 10).unwrap_err();
    assert_eq!(err, "Patch targets version 2 but current is 1");
    assert!(page.patches.is_empty());
}

#[test]
fn add_patch_enforces_the_limit() {
    let key = page_key(7);
    let mut page = WikiPageV1::new(PagePath::normalize("p"), "base".to_string(), &key);
    page.add_patch(patch_at(&key, 1, at(1, 0), "a"), 1).unwrap();
    let err = page.add_patch(patch_at(&key, 1, at(2, 0), "b"), 1).unwrap_err();
    assert_eq!(err, "Maximum pending patches reached");
    assert_eq!(page.patches.len(), 1);
}

#[test]
fn add_patch_skips_duplicates() {
    let key = page_key(8);
    let mut page = WikiPageV1::new(PagePath::normalize("p"), "base".to_string(), &key);
    let p = patch_at(&key, 1, at(1, 0), "a");
    page.add_patch(p.clone(), 1).unwrap();
    page.add_patch(p, 1).unwrap();
    assert_eq!(page.patches.len(), 1);
}

#[test]
fn apply_revision_requires_a_newer_version() {
    let key = page_key(9);
    let mut page = WikiPageV1::new(PagePath::normalize("p"), "base".to_string(), &key);
    let same = page.revision.clone();
    let err = page.apply_revision(same).unwrap_err();
    assert_eq!(err, "New revision version must be greater than current");
    assert_eq!(page.revision.revision.version, 1);
}

#[test]
fn apply_revision_keeps_patches_for_later_versions() {
    let key = page_key(10);
    let mut page = WikiPageV1::new(PagePath::normalize("p"), "base".to_string(), &key);
    page.patches.push(patch_at(&key, 1, at(1, 0), "old"));
    page.patches.push(patch_at(&key, 3, at(2, 0), "future"));
    let rev = Revision {
        version: 2,
        content: "new".to_string(),
        author: ContributorId::from(key.verifying_key()),
        created_at: at(3, 0),
    };
    page.apply_revision(SignedRevision::new(rev, &key)).unwrap();
    assert_eq!(page.patches.len(), 1);
    assert_eq!(page.patches[0].patch.target_version, 3);
    // The remaining patch targets version 3, so it does not apply to version 2.
    assert_eq!(page.render(), "new");
}

#[test]
fn commit_then_apply_keeps_the_rendered_text() {
    let key = page_key(11);
    let mut page = WikiPageV1::new(PagePath::normalize("p"), "a\nb".to_string(), &key);
    page.add_patch(patch_at(&key, 1, at(1, 0), "top"), 10).unwrap();
    let before = page.render();
    let rev = page.commit(&key);
    page.apply_revision(rev).unwrap();
    assert_eq!(page.render(), before);
    assert_eq!(before, "top\na\nb");
}

#[test]
fn signatures_verify_with_the_signer_only() {
    let key = page_key(12);
    let other = page_key(13);
    let page = WikiPageV1::new(PagePath::normalize("p"), "text".to_string(), &key);
    assert!(page.revision.verify(&key.verifying_key()).is_ok());
    let err = page.revision.verify(&other.verifying_key()).unwrap_err();
    assert!(err.starts_with("Invalid revision signature: "));

    let p = patch_at(&key, 1, at(1, 0), "x");
    assert!(p.verify(&key.verifying_key()).is_ok());
    let err = p.verify(&other.verifying_key()).unwrap_err();
    assert!(err.starts_with("Invalid patch signature: "));
}

#[test]
fn tampered_revision_fails_verification() {
    let key = page_key(14);
    let mut page = WikiPageV1::new(PagePath::normalize("p"), "text".to_string(), &key);
    page.revision.revision.content = "changed".to_string();
    assert!(page.revision.verify(&key.verifying_key()).is_err());
}

#[test]
fn new_page_records_author_and_time() {
    let key = page_key(15);
    let page = WikiPageV1::new(PagePath::normalize("p"), "text".to_string(), &key);
    assert_eq!(page.revision.revision.author, ContributorId::from(key.verifying_key()));
    assert!(page.revision.revision.created_at.secs > 1_600_000_000);
}

#[test]
fn patch_ids_come_from_signatures() {
    let key = page_key(16);
    let a = patch_at(&key, 1, at(1, 0), "x");
    let b = patch_at(&key, 1, at(1, 0), "y");
    assert_eq!(a.id(), a.clone().id());
    assert_ne!(a.id(), b.id());
}

#[test]
fn page_delta_against_own_summary_is_empty() {
    let key = page_key(17);
    let mut page = WikiPageV1::new(PagePath::normalize("p"), "base".to_string(), &key);
    page.add_patch(patch_at(&key, 1, at(1, 0), "a"), 10).unwrap();
    let summary = page.summarize();
    assert_eq!(summary.revision_version, 1);
    assert_eq!(summary.patch_ids.len(), 1);
    assert!(page.compute_delta(&summary).is_none());
}

#[test]
fn page_delta_carries_new_revision_and_patches() {
    let key = page_key(18);
    let mut page = WikiPageV1::new(PagePath::normalize("p"), "base".to_string(), &key);
    let old = page.summarize();
    page.add_patch(patch_at(&key, 1, at(1, 0), "a"), 10).unwrap();
    match page.compute_delta(&old) {
        Some(PageDelta::Updates { new_revision, new_patches }) => {
            assert!(new_revision.is_none());
            assert_eq!(new_patches.len(), 1);
        }
        _ => panic!("expected updates"),
    }
}
