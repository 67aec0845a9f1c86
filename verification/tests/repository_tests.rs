use pfp_history::engine::ReconcileError;
use pfp_history::engine::record_archived;
use pfp_history::model::EntityKind;
use pfp_history::repository::EnrollOutcome;
use pfp_history::repository::HistoryRepo;
use pfp_history::repository::RepoError;

#[test]
fn test_insert_server() {
    let mut repo = HistoryRepo::new();
    let server_id: i64 = 123456789;
    let outcome = repo.enroll(server_id, EntityKind::Community, 1_700_000_000);
    assert!(
        matches!(outcome, EnrollOutcome::Enrolled),
        "Should be able to insert a server"
    );
    assert_eq!(repo.tracked_count(), 1, "Should insert exactly one row");
}

#[test]
fn test_retrieve_server() {
    let mut repo = HistoryRepo::new();
    let server_id: i64 = 987654321;
    let timestamp: i64 = 1_700_000_123;
    repo.enroll(server_id, EntityKind::Community, timestamp);
    let since = repo.tracked_since(server_id);
    assert!(since.is_some(), "Should be able to retrieve the server");
    assert!(repo.is_tracked(server_id), "Server ID should match");
    assert_eq!(since.unwrap(), timestamp, "Timestamp should match");
}

#[test]
fn test_delete_server() {
    let mut repo = HistoryRepo::new();
    let server_id: i64 = 111222333;
    repo.enroll(server_id, EntityKind::Community, 1_700_000_000);
    let removed = repo.delete_entity(server_id);
    assert!(removed, "Should be able to delete the server");
    assert_eq!(repo.tracked_count(), 0, "Should delete exactly one row");
    assert!(!repo.is_tracked(server_id), "Server should be deleted");
}

#[test]
fn test_insert_server_picture() {
    let mut repo = HistoryRepo::new();
    let server_id: i64 = 444555666;
    repo.enroll(server_id, EntityKind::Community, 1_700_000_000);
    let res = repo.insert_image_entry(
        server_id,
        "abcdef1234567890".to_string(),
        "https://example.com/icon.png".to_string(),
        1_700_000_100,
    );
    assert!(res.is_ok(), "Should be able to insert a server picture");
    assert_eq!(repo.image_count(server_id), 1, "Should insert exactly one row");
}

#[test]
fn test_retrieve_server_pictures() {
    let mut repo = HistoryRepo::new();
    let server_id: i64 = 777888999;
    repo.enroll(server_id, EntityKind::Community, 50);
    let rows = [
        ("checksum1", "https://example.com/icon1.png", 100i64),
        ("checksum2", "https://example.com/icon2.png", 200i64),
        ("checksum3", "https://example.com/icon3.png", 300i64),
    ];
    for (checksum, link, at) in rows.iter() {
        let res = repo.insert_image_entry(
            server_id,
            checksum.to_string(),
            link.to_string(),
            *at,
        );
        assert!(res.is_ok(), "Should be able to retrieve server pictures");
    }
    let entries = repo.image_entries(server_id);
    assert_eq!(entries.len(), 3, "Should retrieve all three pictures");
    assert_eq!(entries[0].fingerprint, "checksum1");
    assert_eq!(entries[1].archive_link, "https://example.com/icon2.png");
    assert_eq!(entries[2].observed_at, 300);
}

#[test]
fn test_cascade_delete_server_pictures() {
    let mut repo = HistoryRepo::new();
    let server_id: i64 = 123123123;
    repo.enroll(server_id, EntityKind::Community, 1_700_000_000);
    repo.insert_image_entry(
        server_id,
        "checksum_test".to_string(),
        "https://example.com/icon.png".to_string(),
        1_700_000_100,
    )
    .unwrap();
    let removed = repo.delete_entity(server_id);
    assert!(removed);
    assert_eq!(
        repo.image_count(server_id),
        0,
        "Server pictures should be cascade deleted"
    );
}

#[test]
fn test_unique_server_id_constraint() {
    let mut repo = HistoryRepo::new();
    let server_id: i64 = 999888777;
    let first = repo.enroll(server_id, EntityKind::Community, 1000);
    assert!(matches!(first, EnrollOutcome::Enrolled));
    let second = repo.enroll(server_id, EntityKind::Community, 2000);
    assert!(
        matches!(second, EnrollOutcome::AlreadyTracked(1000)),
        "Should not allow duplicate server IDs"
    );
    assert_eq!(repo.tracked_count(), 1);
}

#[test]
fn test_server_picture_composite_key() {
    let mut repo = HistoryRepo::new();
    let server_id: i64 = 555444333;
    repo.enroll(server_id, EntityKind::Community, 50);
    repo.insert_image_entry(
        server_id,
        "test_checksum".to_string(),
        "https://example.com/icon.png".to_string(),
        100,
    )
    .unwrap();
    let duplicate = repo.insert_image_entry(
        server_id,
        "test_checksum".to_string(),
        "https://example.com/icon.png".to_string(),
        100,
    );
    assert_eq!(
        duplicate,
        Err(RepoError::ConstraintViolation),
        "Should not allow duplicate composite keys"
    );
    let later = repo.insert_image_entry(
        server_id,
        "test_checksum".to_string(),
        "https://example.com/icon.png".to_string(),
        101,
    );
    assert!(
        later.is_ok(),
        "Should allow same checksum with different timestamp"
    );
}

#[test]
fn test_query_latest_server_picture() {
    let mut repo = HistoryRepo::new();
    let server_id: i64 = 333222111;
    repo.enroll(server_id, EntityKind::Community, 500);
    repo.insert_image_entry(
        server_id,
        "old_checksum".to_string(),
        "https://example.com/old.png".to_string(),
        1000,
    )
    .unwrap();
    repo.insert_image_entry(
        server_id,
        "latest_checksum".to_string(),
        "https://example.com/latest.png".to_string(),
        2000,
    )
    .unwrap();
    let latest = repo.most_recent(server_id);
    assert!(latest.is_some(), "Should retrieve the latest picture");
    let latest = latest.unwrap();
    assert_eq!(
        latest.fingerprint, "latest_checksum",
        "Should get the latest checksum"
    );
    assert_eq!(
        latest.archive_link, "https://example.com/latest.png",
        "Should get the latest link"
    );
}

#[test]
fn test_insert_requires_tracked_entity() {
    let mut repo = HistoryRepo::new();
    let res = repo.insert_image_entry(
        42,
        "deadbeef".to_string(),
        "https://example.com/a.png".to_string(),
        100,
    );
    assert_eq!(res, Err(RepoError::NotTracked));
    let res = repo.insert_name_entry(42, "alice".to_string(), 100);
    assert_eq!(res, Err(RepoError::NotTracked));
    let res = record_archived(
        &mut repo,
        42,
        "deadbeef".to_string(),
        "https://example.com/a.png".to_string(),
        100,
    );
    assert_eq!(res.unwrap_err(), ReconcileError::NotTracked);
}

#[test]
fn test_name_uniqueness_constraint() {
    let mut repo = HistoryRepo::new();
    repo.enroll(7, EntityKind::Account, 10);
    assert!(repo.insert_name_entry(7, "alice".to_string(), 100).is_ok());
    let dup = repo.insert_name_entry(7, "alice".to_string(), 200);
    assert_eq!(dup, Err(RepoError::ConstraintViolation));
    assert!(repo.exists_by_name(7, &"alice".to_string()));
    assert!(!repo.exists_by_name(7, &"bob".to_string()));
    assert_eq!(repo.name_count(7), 1);
}

#[test]
fn test_find_by_fingerprint_prefers_most_recent_match() {
    let mut repo = HistoryRepo::new();
    repo.enroll(9, EntityKind::Account, 10);
    repo.insert_image_entry(9, "ff00".to_string(), "https://example.com/first.png".to_string(), 100)
        .unwrap();
    repo.insert_image_entry(9, "aa11".to_string(), "https://example.com/other.png".to_string(), 200)
        .unwrap();
    repo.insert_image_entry(9, "ff00".to_string(), "https://example.com/again.png".to_string(), 300)
        .unwrap();
    let found = repo.find_by_fingerprint(9, &"ff00".to_string()).unwrap();
    assert_eq!(found.archive_link, "https://example.com/again.png");
    assert_eq!(found.observed_at, 300);
    assert!(repo.find_by_fingerprint(9, &"0000".to_string()).is_none());
}

#[test]
fn test_tracked_ids_of_kind() {
    let mut repo = HistoryRepo::new();
    repo.enroll(1, EntityKind::Account, 10);
    repo.enroll(2, EntityKind::Community, 20);
    repo.enroll(3, EntityKind::Account, 30);
    assert_eq!(repo.tracked_ids_of_kind(EntityKind::Account), vec![1, 3]);
    assert_eq!(repo.tracked_ids_of_kind(EntityKind::Community), vec![2]);
}

#[test]
fn test_newest_first_ordering() {
    let mut repo = HistoryRepo::new();
    repo.enroll(11, EntityKind::Account, 10);
    repo.insert_image_entry(11, "a1".to_string(), "https://example.com/1.png".to_string(), 300)
        .unwrap();
    repo.insert_image_entry(11, "a2".to_string(), "https://example.com/2.png".to_string(), 100)
        .unwrap();
    repo.insert_image_entry(11, "a3".to_string(), "https://example.com/3.png".to_string(), 200)
        .unwrap();
    let rows = repo.image_entries_newest_first(11);
    let times: Vec<i64> = rows.iter().map(|e| e.observed_at).collect();
    assert_eq!(times, vec![300, 200, 100]);

    repo.insert_name_entry(11, "alice".to_string(), 250).unwrap();
    repo.insert_name_entry(11, "bob".to_string(), 150).unwrap();
    let names = repo.name_entries_newest_first(11);
    assert_eq!(names[0].name, "alice");
    assert_eq!(names[1].name, "bob");
}
