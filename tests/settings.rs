use notilog::cli::{
    handle_logger, lookup, parse_mark_user_args, parse_single_string_flag, parse_single_u32_flag,
    parse_single_u64_flag, parse_tail_args, query, tail_line, tail_start,
};
use notilog::config::{expand_path, parse_config, DEFAULT_MAX_NOTIFICATIONS};
use notilog::decode::{opt_non_empty, value_to_record, JsonField, RawLine};
use notilog::dismiss::DismissTarget;
use notilog::record::LogRecord;
use notilog::text::decimal_string;

fn args(items: &[&str]) -> Vec<String> {
    items.iter().map(|s| s.to_string()).collect()
}

fn text(s: &str) -> Option<JsonField> {
    Some(JsonField { as_u64: None, as_i64: None, as_str: Some(s.to_string()) })
}

fn number(n: u64) -> Option<JsonField> {
    Some(JsonField { as_u64: Some(n), as_i64: i64::try_from(n).ok(), as_str: None })
}

fn raw(id: Option<JsonField>) -> RawLine {
    RawLine {
        event_uid: None,
        id,
        epoch: None,
        hhmm: None,
        app_name: None,
        summary: None,
        body: None,
        close_reason_code: None,
        close_reason: None,
        closed_epoch: None,
        closed_hhmm: None,
    }
}

#[test]
fn expand_path_forms() {
    assert_eq!(expand_path("~", "/home/u"), "/home/u");
    assert_eq!(expand_path("~/logs/a.jsonl", "/home/u"), "/home/u/logs/a.jsonl");
    assert_eq!(expand_path("/var/log/x", "/home/u"), "/var/log/x");
    assert_eq!(expand_path("rel/x", "/home/u/"), "/home/u/rel/x");
}

#[test]
fn config_defaults_and_overrides() {
    let d = parse_config("", "/home/u");
    assert_eq!(d.log_file_path, "/home/u/.local/state/notilog/log.jsonl");
    assert_eq!(d.max_notification_length, DEFAULT_MAX_NOTIFICATIONS);
    let c = parse_config(
        "# comment\nlog_file_path = \"~/n/log.jsonl\" # trailing\r\nmax_notifications = '12'\nunknown = 3\n",
        "/home/u",
    );
    assert_eq!(c.log_file_path, "/home/u/n/log.jsonl");
    assert_eq!(c.max_notification_length, 12);
    let bad = parse_config("max_notification_length = 0\nmax_notification_length=abc\nlog_file_path=\n", "/h");
    assert_eq!(bad.max_notification_length, 30);
    assert_eq!(bad.log_file_path, "/h/.local/state/notilog/log.jsonl");
}

#[test]
fn decode_reads_numeric_and_string_ids() {
    let mut line = raw(text("12"));
    line.summary = text("  hi  ");
    line.body = text("   ");
    line.epoch = Some(JsonField { as_u64: None, as_i64: Some(-5), as_str: None });
    line.close_reason_code = number(1);
    let r = value_to_record(&line).unwrap();
    assert_eq!(r.id, 12);
    assert_eq!(r.summary.as_deref(), Some("hi"));
    assert_eq!(r.body, None);
    assert_eq!(r.epoch, Some(-5));
    assert_eq!(r.close_reason_code, Some(1));
    assert_eq!(value_to_record(&raw(number(7))).unwrap().id, 7);
    assert!(value_to_record(&raw(number(1 << 40))).is_none());
    assert!(value_to_record(&raw(text("x1"))).is_none());
    assert!(value_to_record(&raw(None)).is_none());
    assert_eq!(opt_non_empty(&text("\tA b\n")).as_deref(), Some("A b"));
}

#[test]
fn single_flags() {
    assert_eq!(parse_single_string_flag(&args(&["--ids", "1,2"]), "--ids").unwrap(), "1,2");
    assert_eq!(
        parse_single_string_flag(&args(&["--id"]), "--ids").unwrap_err(),
        "usage: notilog --ids <value>"
    );
    assert_eq!(parse_single_u32_flag(&args(&["--id", "+42"]), "--id").unwrap(), 42);
    assert_eq!(
        parse_single_u32_flag(&args(&["--id", "4294967296"]), "--id").unwrap_err(),
        "--id expects an integer"
    );
    assert_eq!(parse_single_u64_flag(&args(&["--days", "4294967296"]), "--days").unwrap(), 4294967296);
    assert_eq!(
        parse_single_u64_flag(&args(&["--days", "-1"]), "--days").unwrap_err(),
        "--days expects an integer"
    );
}

#[test]
fn logger_and_mark_user_args() {
    assert!(handle_logger(&args(&["run"])).is_ok());
    assert_eq!(handle_logger(&args(&[])).unwrap_err(), "usage: notilog logger run");
    match parse_mark_user_args(&args(&["--event", "7_x"])).unwrap() {
        DismissTarget::Event(u) => assert_eq!(u, "7_x"),
        other => panic!("unexpected {:?}", other),
    }
    match parse_mark_user_args(&args(&["--id", "9"])).unwrap() {
        DismissTarget::Id(i) => assert_eq!(i, 9),
        other => panic!("unexpected {:?}", other),
    }
    assert_eq!(parse_mark_user_args(&args(&["--id", "x"])).unwrap_err(), "--id expects an integer");
    assert_eq!(
        parse_mark_user_args(&args(&["--other", "x"])).unwrap_err(),
        "usage: notilog mark-user --event <uid> (or --id <id>)"
    );
}

#[test]
fn tail_args_and_lines() {
    assert_eq!(parse_tail_args(&args(&[])).unwrap(), 20);
    assert_eq!(parse_tail_args(&args(&["--n", "3", "--n", "5"])).unwrap(), 5);
    assert_eq!(parse_tail_args(&args(&["--n"])).unwrap_err(), "usage: notilog tail [--n N]");
    assert_eq!(parse_tail_args(&args(&["--n", "q"])).unwrap_err(), "--n expects a positive integer");
    assert_eq!(tail_start(10, 3), 7);
    assert_eq!(tail_start(2, 5), 0);
    let mut r = LogRecord::empty(4);
    r.closed_hhmm = Some("09:30".to_string());
    r.close_reason = Some("expired".to_string());
    assert_eq!(tail_line(&r), "#4 09:30 (no summary) [closed:expired]");
    let mut o = LogRecord::empty(12);
    o.summary = Some("Hello".to_string());
    assert_eq!(tail_line(&o), "#12 --:-- Hello");
}

#[test]
fn query_and_lookup_take_first_state() {
    let mut a = LogRecord::empty(1);
    a.hhmm = Some("10:00".to_string());
    let mut b = LogRecord::empty(1);
    b.hhmm = Some("09:00".to_string());
    let c = LogRecord::empty(2);
    let mut d = LogRecord::empty(3);
    d.hhmm = Some("08:00".to_string());
    let merged = vec![a, b, c, d];
    assert_eq!(query(&merged, 1).unwrap().hhmm.as_deref(), Some("10:00"));
    assert!(query(&merged, 9).is_none());
    let found = lookup(&merged, &vec![1, 2, 3]);
    assert_eq!(found, vec![(1, "10:00".to_string()), (3, "08:00".to_string())]);
}

#[test]
fn decimal_notation() {
    assert_eq!(decimal_string(0), "0");
    assert_eq!(decimal_string(1234567890), "1234567890");
    assert_eq!(decimal_string(u64::MAX), "18446744073709551615");
}
