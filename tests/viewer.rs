use notilog::aggregate::aggregate_records;
use notilog::cli::parse_id_list;
use notilog::record::LogRecord;
use notilog::text::parse_resolver_output;
use notilog::view::{
    body_lines, clamp_selection, entry_at_row, notification_item_height,
    notifications_from_log_records, select_last, select_next, select_previous, truncate,
    FilterMode, Notification,
};

#[test]
fn id_lists() {
    assert_eq!(parse_id_list("3, 5,,8 ").unwrap(), vec![3, 5, 8]);
    assert_eq!(parse_id_list("").unwrap(), Vec::<u32>::new());
    assert_eq!(parse_id_list("1,x2,3").unwrap_err(), "invalid id 'x2' in --ids");
}

#[test]
fn resolver_output_fields() {
    assert_eq!(
        parse_resolver_output("1704103200 10:00\n"),
        (Some(1704103200), Some("10:00".to_string()))
    );
    assert_eq!(parse_resolver_output("-5"), (Some(-5), None));
    assert_eq!(parse_resolver_output("abc 11:11"), (None, Some("11:11".to_string())));
    assert_eq!(parse_resolver_output("  \n"), (None, None));
    assert_eq!(parse_resolver_output("-9223372036854775808 x").0, Some(i64::MIN));
    assert_eq!(parse_resolver_output("9223372036854775808 x").0, None);
}

fn state(uid: &str, id: u32, code: Option<u32>, reason: Option<&str>) -> LogRecord {
    let mut r = LogRecord::empty(id);
    r.event_uid = Some(uid.to_string());
    r.close_reason_code = code;
    r.close_reason = reason.map(String::from);
    r
}

#[test]
fn listed_entries_follow_filter() {
    let mut a = state("a", 1, Some(1), Some("expired"));
    a.summary = Some("first".to_string());
    a.closed_hhmm = Some("09:00".to_string());
    let b = state("b", 2, Some(3), Some("closed-by-call"));
    let c = state("c", 3, None, Some("expired"));
    let merged = vec![a, b, c];
    let missed = notifications_from_log_records(&merged, FilterMode::AutoDismissed);
    assert_eq!(missed.len(), 2);
    assert_eq!(missed[0].summary, "first");
    assert_eq!(missed[0].time_hhmm.as_deref(), Some("09:00"));
    assert!(missed[0].is_undismissed);
    assert_eq!(missed[1].id, 3);
    assert_eq!(missed[1].summary, "(no summary)");
    let all = notifications_from_log_records(&merged, FilterMode::All);
    assert_eq!(all.len(), 3);
    assert!(!all[1].is_undismissed);
    assert_eq!(FilterMode::All.label(), "history");
    assert_eq!(FilterMode::AutoDismissed.label(), "missed");
    assert_eq!(FilterMode::All.toggle(), FilterMode::AutoDismissed);
    assert!(aggregate_records(&Vec::new()).is_empty());
}

#[test]
fn selection_moves() {
    assert_eq!(select_next(2, 3), 0);
    assert_eq!(select_next(0, 3), 1);
    assert_eq!(select_next(4, 0), 4);
    assert_eq!(select_previous(0, 3), 2);
    assert_eq!(select_previous(2, 3), 1);
    assert_eq!(select_last(0, 5), 4);
    assert_eq!(select_last(1, 0), 1);
    assert_eq!(clamp_selection(7, 3), 2);
    assert_eq!(clamp_selection(7, 0), 0);
}

#[test]
fn text_layout() {
    assert_eq!(truncate("abcdef", 3), "abc...");
    assert_eq!(truncate("abc", 3), "abc");
    assert_eq!(body_lines("  one \n\n two\r\n   "), vec!["one".to_string(), "two".to_string()]);
    let mut n = Notification::new(1, "s".to_string());
    assert_eq!(notification_item_height(&n), 1);
    n.body = Some("a\n\nb\n".to_string());
    assert_eq!(notification_item_height(&n), 3);
    let heights = vec![2, 1, 3];
    assert_eq!(entry_at_row(&heights, 0), Some(0));
    assert_eq!(entry_at_row(&heights, 1), Some(0));
    assert_eq!(entry_at_row(&heights, 2), None);
    assert_eq!(entry_at_row(&heights, 3), Some(1));
    assert_eq!(entry_at_row(&heights, 5), Some(2));
    assert_eq!(entry_at_row(&heights, 8), None);
}
