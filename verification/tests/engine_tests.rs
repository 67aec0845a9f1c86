use pfp_history::engine::NameStep;
use pfp_history::engine::Outcome;
use pfp_history::engine::ReconcileError;
use pfp_history::engine::ReconcileStep;
use pfp_history::engine::reconcile_image_event;
use pfp_history::engine::reconcile_image_event_now;
use pfp_history::engine::reconcile_name_event;
use pfp_history::engine::record_archived;
use pfp_history::engine::SourceEvent;
use pfp_history::fingerprint::fingerprint;
use pfp_history::model::EntityKind;
use pfp_history::repository::HistoryRepo;

/// Runs one full reconciliation including the archival leg: where the engine
/// asks for an archival, a fresh link is minted (as the store would) and
/// recorded. Returns the step and whether an archival happened.
fn reconcile_with_store(
    repo: &mut HistoryRepo,
    id: i64,
    event: &SourceEvent,
    now: i64,
    link: &str,
) -> (ReconcileStep, bool) {
    let step = reconcile_image_event(repo, id, event, now);
    if let ReconcileStep::ArchiveNeeded(fp) = &step {
        let entry = record_archived(repo, id, fp.clone(), link.to_string(), now).unwrap();
        return (ReconcileStep::Done(Outcome::Archived(entry)), true);
    }
    (step, false)
}

#[test]
fn test_fingerprint_known_values() {
    // SHA-1 of the empty input and of "hello world", as the digest's own
    // documentation gives them.
    assert_eq!(
        fingerprint(&Vec::new()),
        "da39a3ee5e6b4b0d3255bfef95601890afd80709"
    );
    assert_eq!(
        fingerprint(&b"hello world".to_vec()),
        "2aae6c35c94fcfb415dbe95f408b9ce91ee846ed"
    );
}

#[test]
fn test_first_sight_archival() {
    let mut repo = HistoryRepo::new();
    repo.enroll(1, EntityKind::Account, 10);
    let bytes = b"image-b".to_vec();
    let event = SourceEvent::Image(bytes.clone());

    let step = reconcile_image_event(&mut repo, 1, &event, 100);
    let fp = match step {
        ReconcileStep::ArchiveNeeded(fp) => fp,
        other => panic!("expected an archival request, got {:?}", other),
    };
    assert_eq!(fp, fingerprint(&bytes));
    assert_eq!(repo.image_count(1), 0, "nothing is written before archival");

    let entry = record_archived(&mut repo, 1, fp.clone(), "https://archive/b".to_string(), 100)
        .unwrap();
    assert_eq!(entry.fingerprint, fp);
    assert_eq!(entry.archive_link, "https://archive/b");
    assert_eq!(repo.image_count(1), 1, "exactly one row after archival");
    assert_eq!(repo.image_entries(1)[0].fingerprint, fp);
}

#[test]
fn test_dedup_idempotence() {
    let mut repo = HistoryRepo::new();
    repo.enroll(1, EntityKind::Account, 10);
    let event = SourceEvent::Image(b"stable-image".to_vec());

    let (_, archived) = reconcile_with_store(&mut repo, 1, &event, 100, "https://archive/s");
    assert!(archived);
    let second = reconcile_image_event(&mut repo, 1, &event, 200);
    assert!(
        matches!(second, ReconcileStep::Done(Outcome::Unchanged)),
        "the second reconciliation against unchanged bytes is Unchanged"
    );
    assert_eq!(repo.image_count(1), 1, "no new row on the second pass");
}

#[test]
fn test_reappearance_reuse() {
    let mut repo = HistoryRepo::new();
    repo.enroll(1, EntityKind::Account, 10);
    let b = SourceEvent::Image(b"content-b".to_vec());
    let c = SourceEvent::Image(b"content-c".to_vec());

    let (_, archived_b) = reconcile_with_store(&mut repo, 1, &b, 100, "https://archive/b");
    let (_, archived_c) = reconcile_with_store(&mut repo, 1, &c, 200, "https://archive/c");
    let (step, archived_b_again) = reconcile_with_store(&mut repo, 1, &b, 300, "https://archive/unused");

    assert!(archived_b && archived_c, "B and C are each archived once");
    assert!(!archived_b_again, "the reappearance of B is not archived again");
    match step {
        ReconcileStep::Done(Outcome::Reused(e)) => {
            assert_eq!(e.archive_link, "https://archive/b", "the old link is reused");
            assert_eq!(e.observed_at, 300);
        },
        other => panic!("expected a reuse, got {:?}", other),
    }

    let rows = repo.image_entries(1);
    assert_eq!(rows.len(), 3, "three rows exist");
    assert_eq!(rows[0].fingerprint, rows[2].fingerprint, "rows 1 and 3 share the fingerprint");
    assert_eq!(rows[0].archive_link, rows[2].archive_link, "rows 1 and 3 share the link");
    assert_eq!(rows[1].archive_link, "https://archive/c");
}

#[test]
fn test_name_append_once_ever() {
    let mut repo = HistoryRepo::new();
    repo.enroll(5, EntityKind::Account, 10);

    let s1 = reconcile_name_event(&mut repo, 5, Some("alice".to_string()), 100);
    assert!(matches!(s1, NameStep::Recorded(_)));
    let s2 = reconcile_name_event(&mut repo, 5, Some("bob".to_string()), 200);
    assert!(matches!(s2, NameStep::Recorded(_)));
    let s3 = reconcile_name_event(&mut repo, 5, Some("alice".to_string()), 300);
    assert!(
        matches!(s3, NameStep::AlreadyKnown),
        "the second alice is suppressed: the name already exists for the account"
    );
    let rows = repo.name_entries(5);
    assert_eq!(rows.len(), 2, "exactly two name rows are created");
    assert_eq!(rows[0].name, "alice");
    assert_eq!(rows[1].name, "bob");
}

#[test]
fn test_name_skipped_when_absent_or_untracked() {
    let mut repo = HistoryRepo::new();
    repo.enroll(5, EntityKind::Account, 10);
    assert!(matches!(
        reconcile_name_event(&mut repo, 5, None, 100),
        NameStep::NoName
    ));
    assert!(matches!(
        reconcile_name_event(&mut repo, 6, Some("carol".to_string()), 100),
        NameStep::NotTracked
    ));
    assert_eq!(repo.name_count(5), 0);
    assert_eq!(repo.name_count(6), 0);
}

#[test]
fn test_cascade_delete_images_and_names() {
    let mut repo = HistoryRepo::new();
    repo.enroll(5, EntityKind::Account, 10);
    repo.enroll(6, EntityKind::Account, 10);
    let ev1 = SourceEvent::Image(b"one".to_vec());
    let ev2 = SourceEvent::Image(b"two".to_vec());
    reconcile_with_store(&mut repo, 5, &ev1, 100, "https://archive/1");
    reconcile_with_store(&mut repo, 5, &ev2, 200, "https://archive/2");
    reconcile_with_store(&mut repo, 6, &ev1, 100, "https://archive/3");
    reconcile_name_event(&mut repo, 5, Some("alice".to_string()), 100);
    reconcile_name_event(&mut repo, 5, Some("bob".to_string()), 200);
    assert_eq!(repo.image_count(5), 2);
    assert_eq!(repo.name_count(5), 2);

    let removed = repo.delete_entity(5);
    assert!(removed);
    assert_eq!(repo.image_count(5), 0, "no image row references the entity");
    assert_eq!(repo.name_count(5), 0, "no name row references the entity");
    assert!(!repo.is_tracked(5));
    assert_eq!(repo.image_count(6), 1, "the other entity's history is untouched");
}

#[test]
fn test_same_instant_requests_write_at_most_one_row() {
    let mut repo = HistoryRepo::new();
    repo.enroll(1, EntityKind::Account, 10);
    let b = SourceEvent::Image(b"content-b".to_vec());
    let c = SourceEvent::Image(b"content-c".to_vec());
    reconcile_with_store(&mut repo, 1, &b, 100, "https://archive/b");
    reconcile_with_store(&mut repo, 1, &c, 200, "https://archive/c");

    // Two requests for the same entity land at the same instant; the
    // per-entity lock serializes them. The first appends the reuse row, the
    // second finds the content current and writes nothing.
    let first = reconcile_image_event(&mut repo, 1, &b, 300);
    assert!(matches!(first, ReconcileStep::Done(Outcome::Reused(_))));
    let second = reconcile_image_event(&mut repo, 1, &b, 300);
    assert!(matches!(second, ReconcileStep::Done(Outcome::Unchanged)));
    assert_eq!(repo.image_count(1), 3, "at most one new row for the instant");

    // Racing commits of first-sight content at one instant: the second
    // commit is refused by the one-row-per-instant constraint.
    let fp = fingerprint(&b"content-d".to_vec());
    let ok = record_archived(&mut repo, 1, fp.clone(), "https://archive/d1".to_string(), 400);
    assert!(ok.is_ok());
    let refused = record_archived(&mut repo, 1, fp, "https://archive/d2".to_string(), 400);
    assert_eq!(refused.unwrap_err(), ReconcileError::ConstraintViolation);
    assert_eq!(repo.image_count(1), 4);
}

#[test]
fn test_partial_failure_isolation() {
    let mut repo = HistoryRepo::new();
    repo.enroll(1, EntityKind::Account, 10);
    repo.enroll(2, EntityKind::Account, 10);
    repo.enroll(3, EntityKind::Account, 10);

    let events = [
        (1i64, SourceEvent::Image(b"one".to_vec())),
        (2i64, SourceEvent::TransportFailed),
        (3i64, SourceEvent::Image(b"three".to_vec())),
    ];
    let mut outcomes = Vec::new();
    for (id, event) in events.iter() {
        let (step, _) = reconcile_with_store(&mut repo, *id, event, 100, "https://archive/x");
        outcomes.push(step);
    }
    assert!(matches!(&outcomes[0], ReconcileStep::Done(Outcome::Archived(_))));
    assert!(
        matches!(&outcomes[1], ReconcileStep::Done(Outcome::TransportError)),
        "the failing entity settles as a transport error"
    );
    assert!(matches!(&outcomes[2], ReconcileStep::Done(Outcome::Archived(_))));
    assert_eq!(repo.image_count(1), 1, "entity 1 still produced its row");
    assert_eq!(repo.image_count(2), 0, "the failing entity wrote nothing");
    assert_eq!(repo.image_count(3), 1, "entity 3 still produced its row");
}

#[test]
fn test_fetch_failures_write_nothing() {
    let mut repo = HistoryRepo::new();
    repo.enroll(1, EntityKind::Account, 10);
    assert!(matches!(
        reconcile_image_event(&mut repo, 1, &SourceEvent::NoImage, 100),
        ReconcileStep::Done(Outcome::NoImage)
    ));
    assert!(matches!(
        reconcile_image_event(&mut repo, 1, &SourceEvent::Unavailable, 100),
        ReconcileStep::Done(Outcome::SourceUnavailable)
    ));
    assert!(matches!(
        reconcile_image_event(&mut repo, 1, &SourceEvent::TransportFailed, 100),
        ReconcileStep::Done(Outcome::TransportError)
    ));
    assert_eq!(repo.image_count(1), 0);
}

#[test]
fn test_untracked_entity_is_refused() {
    let mut repo = HistoryRepo::new();
    let step = reconcile_image_event(&mut repo, 99, &SourceEvent::Image(b"x".to_vec()), 100);
    assert!(matches!(
        step,
        ReconcileStep::Failed(ReconcileError::NotTracked)
    ));
}

#[test]
fn test_reconcile_now_first_sight() {
    let mut repo = HistoryRepo::new();
    repo.enroll(1, EntityKind::Account, 10);
    let bytes = b"wall-clock".to_vec();
    let step = reconcile_image_event_now(&mut repo, 1, &SourceEvent::Image(bytes.clone()));
    match step {
        ReconcileStep::ArchiveNeeded(fp) => assert_eq!(fp, fingerprint(&bytes)),
        other => panic!("expected an archival request, got {:?}", other),
    }
}
