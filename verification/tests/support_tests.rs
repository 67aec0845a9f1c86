use pfp_history::config::Config;
use pfp_history::imgbb::archived_link;
use pfp_history::imgbb::ImgBBData;
use pfp_history::imgbb::ImgBBError;
use pfp_history::imgbb::ImgBBResponse;
use pfp_history::pagination::nav_target_page;
use pfp_history::pagination::page_slice;
use pfp_history::pagination::page_window;
use pfp_history::pagination::NavDirection;
use pfp_history::pagination::ProfilePictureEntry;
use pfp_history::pagination::ENTRIES_PER_PAGE;
use pfp_history::scheduler::Scheduler;
use pfp_history::stats::average_change_stats;
use pfp_history::stats::latency_millis;

#[test]
fn test_page_window_middle_page() {
    let w = page_window(25, 1);
    assert_eq!(w.start, 10);
    assert_eq!(w.end, 20);
    assert_eq!(w.total_pages, 3);
    assert!(!w.back_disabled);
    assert!(!w.next_disabled);
}

#[test]
fn test_page_window_edges() {
    let first = page_window(25, 0);
    assert_eq!((first.start, first.end), (0, 10));
    assert!(first.back_disabled);
    assert!(!first.next_disabled);

    let last = page_window(25, 2);
    assert_eq!((last.start, last.end), (20, 25));
    assert!(!last.back_disabled);
    assert!(last.next_disabled);

    let empty = page_window(0, 0);
    assert_eq!((empty.start, empty.end, empty.total_pages), (0, 0, 0));
    assert!(empty.back_disabled && empty.next_disabled);

    let exact = page_window(ENTRIES_PER_PAGE, 0);
    assert_eq!(exact.total_pages, 1);
    assert!(exact.next_disabled);
}

#[test]
fn test_page_slice_contents() {
    let mut entries = Vec::new();
    for i in 0..13 {
        entries.push(ProfilePictureEntry {
            title: format!("row {}", i),
            content: format!("body {}", i),
            inline: false,
        });
    }
    let page0 = page_slice(&entries, 0);
    assert_eq!(page0.len(), 10);
    assert_eq!(page0[0].title, "row 0");
    assert_eq!(page0[9].title, "row 9");
    let page1 = page_slice(&entries, 1);
    assert_eq!(page1.len(), 3);
    assert_eq!(page1[0].title, "row 10");
    assert_eq!(page1[2].content, "body 12");
}

#[test]
fn test_nav_target_page() {
    assert_eq!(nav_target_page(NavDirection::Back, 0), 0);
    assert_eq!(nav_target_page(NavDirection::Back, 3), 2);
    assert_eq!(nav_target_page(NavDirection::Next, 3), 4);
    assert_eq!(nav_target_page(NavDirection::Stay, 3), 3);
}

#[test]
fn test_average_change_stats_exact() {
    let r = average_change_stats(&vec![0, 100]).unwrap();
    assert_eq!(r.changes, 2);
    assert_eq!(r.average_seconds, 50);
    assert_eq!(r.average_hours, 0);
    assert_eq!(r.average_days, 0);

    // span 250 over 3 rows: 83.33 rounds to 83.
    let r = average_change_stats(&vec![0, 100, 250]).unwrap();
    assert_eq!(r.average_seconds, 83);

    // span of three days over 2 rows: 36 hours, one whole day.
    let r = average_change_stats(&vec![0, 259_200]).unwrap();
    assert_eq!(r.average_seconds, 129_600);
    assert_eq!(r.average_hours, 36);
    assert_eq!(r.average_days, 1);

    // ties round up: span 5 over 2 rows.
    let r = average_change_stats(&vec![10, 15]).unwrap();
    assert_eq!(r.average_seconds, 3);
}

#[test]
fn test_average_change_stats_needs_two_rows() {
    assert!(average_change_stats(&vec![]).is_none());
    assert!(average_change_stats(&vec![100]).is_none());
}

#[test]
fn test_latency_millis() {
    assert_eq!(latency_millis(5000, 2), 3000);
    assert_eq!(latency_millis(1000, 1), 0);
}

#[test]
fn test_scheduler_coalesces_requests() {
    let mut s = Scheduler::new(1800);
    assert_eq!(s.interval_seconds(), 1800);
    assert!(!s.is_running());

    assert!(s.request_cycle(), "an idle scheduler starts a cycle");
    assert!(s.is_running());
    assert!(
        !s.request_cycle(),
        "a request during a running cycle never starts a second one"
    );
    assert!(!s.request_cycle(), "further requests coalesce into the same rerun");

    assert!(s.cycle_complete(), "the coalesced request owes one more cycle");
    assert!(s.is_running());
    assert!(!s.cycle_complete(), "with nothing pending the scheduler goes idle");
    assert!(!s.is_running());
    assert!(!s.cycle_complete(), "completion while idle changes nothing");
}

#[test]
fn test_config_fields() {
    let c = Config::new(
        "SECRET-REDACTED".to_string(),
        "database.sqlite".to_string(),
        "SECRET-REDACTED".to_string(),
    );
    assert_eq!(c.database_url, "database.sqlite");
    assert_eq!(c.discord_token, "SECRET-REDACTED");
    assert_eq!(c.imgbb_key, "SECRET-REDACTED");
}

#[test]
fn test_imgbb_response_link() {
    let resp = ImgBBResponse {
        data: ImgBBData {
            id: "abc123".to_string(),
            url: "https://i.ibb.co/abc123/pfp.png".to_string(),
            display_url: "https://ibb.co/abc123".to_string(),
        },
    };
    assert_eq!(archived_link(&resp), "https://i.ibb.co/abc123/pfp.png");
}

#[test]
fn test_imgbb_error_detail() {
    let e = ImgBBError::RequestError("connection reset".to_string());
    assert_eq!(e.detail(), "connection reset");
    let e = ImgBBError::ParseError("missing field".to_string());
    assert_eq!(e.detail(), "missing field");
}
