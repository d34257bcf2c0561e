use notilog::aggregate::aggregate_records;
use notilog::dismiss::{mark_user_dismissed, DismissError, DismissTarget};
use notilog::record::{close_reason_label, make_event_uid, LogRecord};
use notilog::retention::{
    age_cutoff, prune_older_than, prune_to_max_notifications, trim_records_to_latest_notifications,
};

fn open_fact(uid: Option<&str>, id: u32, epoch: i64, summary: &str) -> LogRecord {
    let mut r = LogRecord::empty(id);
    r.event_uid = uid.map(String::from);
    r.epoch = Some(epoch);
    r.summary = Some(summary.to_string());
    r
}

fn close_fact(uid: Option<&str>, id: u32, code: u32, closed_epoch: i64) -> LogRecord {
    let mut r = LogRecord::empty(id);
    r.event_uid = uid.map(String::from);
    r.close_reason_code = Some(code);
    r.close_reason = Some(close_reason_label(code).to_string());
    r.closed_epoch = Some(closed_epoch);
    r
}

fn uids(records: &[LogRecord]) -> Vec<String> {
    records.iter().map(|r| r.event_uid.clone().unwrap_or_default()).collect()
}

#[test]
fn facts_without_uid_stay_apart() {
    let facts = vec![open_fact(None, 7, 100, "A"), close_fact(None, 7, 1, 200)];
    let merged = aggregate_records(&facts);
    assert_eq!(merged.len(), 2);
    assert_eq!(uids(&merged), vec!["legacy:7:1".to_string(), "legacy:7:0".to_string()]);
    assert_eq!(merged[0].close_reason_code, Some(1));
    assert_eq!(merged[0].summary, None);
    assert_eq!(merged[1].summary.as_deref(), Some("A"));
    assert_eq!(merged[1].close_reason_code, None);
}

#[test]
fn facts_with_shared_uid_merge() {
    let facts = vec![open_fact(Some("7_x"), 7, 100, "A"), close_fact(Some("7_x"), 7, 1, 200)];
    let merged = aggregate_records(&facts);
    assert_eq!(merged.len(), 1);
    let m = &merged[0];
    assert_eq!(m.id, 7);
    assert_eq!(m.event_uid.as_deref(), Some("7_x"));
    assert_eq!(m.summary.as_deref(), Some("A"));
    assert_eq!(m.epoch, Some(100));
    assert_eq!(m.close_reason_code, Some(1));
    assert_eq!(m.closed_epoch, Some(200));
}

#[test]
fn later_field_wins() {
    let mut a = open_fact(Some("k"), 3, 10, "first");
    a.body = Some("kept".to_string());
    let b = open_fact(Some("k"), 3, 20, "second");
    let merged = aggregate_records(&vec![a, b]);
    assert_eq!(merged.len(), 1);
    assert_eq!(merged[0].summary.as_deref(), Some("second"));
    assert_eq!(merged[0].epoch, Some(20));
    assert_eq!(merged[0].body.as_deref(), Some("kept"));
}

#[test]
fn aggregate_orders_by_best_epoch_then_index() {
    let facts = vec![
        open_fact(Some("a"), 1, 300, "a"),
        open_fact(Some("b"), 2, 100, "b"),
        close_fact(Some("b"), 2, 1, 500),
        open_fact(Some("c"), 3, 300, "c"),
        open_fact(None, 4, 0, "d"),
    ];
    let merged = aggregate_records(&facts);
    assert_eq!(
        uids(&merged),
        vec!["b".to_string(), "c".to_string(), "a".to_string(), "legacy:4:4".to_string()]
    );
}

#[test]
fn aggregate_of_aggregate_keeps_states() {
    let facts = vec![
        open_fact(Some("a"), 1, 300, "a"),
        close_fact(Some("a"), 1, 1, 50),
        open_fact(None, 2, 100, "b"),
        close_fact(Some("c"), 3, 3, 200),
    ];
    let first = aggregate_records(&facts);
    let again = aggregate_records(&first);
    assert_eq!(first.len(), again.len());
    for state in &first {
        let twin = again.iter().find(|s| s.event_uid == state.event_uid).unwrap();
        assert_eq!(format!("{:?}", twin), format!("{:?}", state));
    }
}

#[test]
fn retention_keeps_highest_key() {
    let facts = vec![open_fact(Some("K1"), 1, 100, "one"), open_fact(Some("K2"), 2, 200, "two")];
    let kept = trim_records_to_latest_notifications(facts, 1);
    assert_eq!(uids(&kept), vec!["K2".to_string()]);
}

#[test]
fn retention_drops_every_fact_of_an_evicted_key() {
    let facts = vec![
        open_fact(Some("K1"), 1, 100, "one"),
        open_fact(Some("K2"), 2, 200, "two"),
        close_fact(Some("K1"), 1, 1, 150),
        open_fact(Some("K3"), 3, 300, "three"),
    ];
    let kept = trim_records_to_latest_notifications(facts, 2);
    assert_eq!(uids(&kept), vec!["K2".to_string(), "K3".to_string()]);
    let again = trim_records_to_latest_notifications(kept, 2);
    assert_eq!(uids(&again), vec!["K2".to_string(), "K3".to_string()]);
    assert!(prune_to_max_notifications(again, 2).is_none());
}

#[test]
fn prune_to_max_reports_rewrites_only() {
    let facts = vec![open_fact(Some("K1"), 1, 100, "one"), open_fact(Some("K2"), 2, 200, "two")];
    assert!(prune_to_max_notifications(
        vec![open_fact(Some("K1"), 1, 100, "one")],
        0
    )
    .is_none());
    assert!(prune_to_max_notifications(Vec::new(), 3).is_none());
    let rewritten = prune_to_max_notifications(facts, 1).unwrap();
    assert_eq!(uids(&rewritten), vec!["K2".to_string()]);
}

#[test]
fn age_prune_drops_old_lines_and_keeps_undated() {
    let now = 1_000_000;
    let cutoff = age_cutoff(now, 1);
    assert_eq!(cutoff, 1_000_000 - 86_400);
    let old = close_fact(Some("a"), 1, 1, 1_000_000 - 100_000);
    let undated = LogRecord::empty(2);
    let recent = open_fact(Some("b"), 3, 999_999, "recent");
    let kept = prune_older_than(&vec![old, undated, recent], cutoff);
    assert_eq!(kept.len(), 2);
    assert_eq!(kept[0].id, 2);
    assert_eq!(kept[1].id, 3);
}

#[test]
fn age_cutoff_saturates() {
    assert_eq!(age_cutoff(0, u64::MAX), i64::MIN);
    assert_eq!(age_cutoff(10, 0), 10);
}

#[test]
fn event_uid_is_sanitized() {
    assert_eq!(make_event_uid(7, "Mon 01 Jan 10:00:00"), "7_Mon_01_Jan_10_00_00");
    assert_eq!(make_event_uid(0, ""), "0_");
}

#[test]
fn close_reason_labels() {
    assert_eq!(close_reason_label(1), "expired");
    assert_eq!(close_reason_label(2), "dismissed-by-user");
    assert_eq!(close_reason_label(3), "closed-by-call");
    assert_eq!(close_reason_label(4), "undefined");
    assert_eq!(close_reason_label(9), "unknown");
}

#[test]
fn dismiss_succeeds_once() {
    let mut facts = vec![open_fact(Some("7_x"), 7, 100, "A"), close_fact(Some("7_x"), 7, 1, 200)];
    let merged = aggregate_records(&facts);
    let target = DismissTarget::Event("7_x".to_string());
    let fact = mark_user_dismissed(&merged, &target, 300, "10:05".to_string()).unwrap();
    assert_eq!(fact.event_uid.as_deref(), Some("7_x"));
    assert_eq!(fact.id, 7);
    assert_eq!(fact.close_reason_code, Some(2));
    assert_eq!(fact.close_reason.as_deref(), Some("dismissed-by-user"));
    assert_eq!(fact.closed_epoch, Some(300));
    assert_eq!(fact.closed_hhmm.as_deref(), Some("10:05"));
    facts.push(fact);
    let merged = aggregate_records(&facts);
    assert_eq!(merged[0].close_reason_code, Some(2));
    assert_eq!(merged[0].summary.as_deref(), Some("A"));
    let second = mark_user_dismissed(&merged, &target, 400, "10:06".to_string());
    assert_eq!(
        second.unwrap_err(),
        DismissError::NotAutoDismissed(Some("dismissed-by-user".to_string()))
    );
}

#[test]
fn dismiss_by_id_and_not_found() {
    let facts = vec![
        open_fact(Some("5_a"), 5, 100, "A"),
        close_fact(Some("5_a"), 5, 3, 200),
        open_fact(Some("5_b"), 5, 50, "B"),
        close_fact(Some("5_b"), 5, 1, 60),
    ];
    let merged = aggregate_records(&facts);
    let by_id = mark_user_dismissed(&merged, &DismissTarget::Id(5), 1, "--:--".to_string());
    assert_eq!(by_id.unwrap().event_uid.as_deref(), Some("5_b"));
    let missing = mark_user_dismissed(&merged, &DismissTarget::Id(6), 1, "--:--".to_string());
    assert_eq!(missing.unwrap_err(), DismissError::NotFound);
    let closed = mark_user_dismissed(
        &merged,
        &DismissTarget::Event("5_a".to_string()),
        1,
        "--:--".to_string(),
    );
    assert_eq!(
        closed.unwrap_err(),
        DismissError::NotAutoDismissed(Some("closed-by-call".to_string()))
    );
}

#[test]
fn uid_shaped_like_synthetic_key_can_split_after_retention() {
    let facts = vec![
        open_fact(Some("a"), 1, 1, "a"),
        open_fact(None, 7, 100, "legacy"),
        open_fact(Some("legacy:7:1"), 7, 100, "look-alike"),
    ];
    let kept = trim_records_to_latest_notifications(facts, 1);
    assert_eq!(kept.len(), 2);
    assert_eq!(aggregate_records(&kept).len(), 2);
    let again = trim_records_to_latest_notifications(kept, 1);
    assert_eq!(again.len(), 1);
}
