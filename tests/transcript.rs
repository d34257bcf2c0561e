use notilog::correlator::Correlator;
use notilog::lexer::{
    block_contains, extract_strings, first_uint32, quoted_value_after, token_value, uint32_values,
    BlockAssembler,
};

fn lines(text: &[&str]) -> Vec<String> {
    text.iter().map(|l| l.to_string()).collect()
}

fn notify_call() -> Vec<String> {
    lines(&[
        "\u{2023} Type=method_call  Endian=l  Flags=0  Version=1 Cookie=42  Timestamp=\"Mon 2024-01-01 10:00:00.123456 UTC\"",
        "  Sender=:1.99  Destination=org.freedesktop.Notifications  Path=/org/freedesktop/Notifications  Interface=org.freedesktop.Notifications  Member=Notify",
        "  MESSAGE \"susssasa{sv}i\" {",
        "          STRING \"firefox\";",
        "          UINT32 0;",
        "          STRING \"\";",
        "          STRING \"Download done\";",
        "          STRING \"file.zip\";",
        "  };",
    ])
}

fn reply(cookie: u64, id: u32) -> Vec<String> {
    lines(&[
        &format!("\u{2023} Type=method_return  Endian=l  Flags=1  Version=1 Cookie=7  ReplyCookie={cookie}  Timestamp=\"Mon 2024-01-01 10:00:00.200000 UTC\""),
        "  Sender=:1.5  Destination=:1.99",
        "  MESSAGE \"u\" {",
        &format!("          UINT32 {id};"),
        "  };",
    ])
}

fn closed(id: u32, code: u32) -> Vec<String> {
    lines(&[
        "\u{2023} Type=signal  Endian=l  Flags=1  Version=1 Cookie=9  Timestamp=\"Mon 2024-01-01 10:00:05.000000 UTC\"",
        "  Sender=:1.5  Path=/org/freedesktop/Notifications  Interface=org.freedesktop.Notifications  Member=NotificationClosed",
        "  MESSAGE \"uu\" {",
        &format!("          UINT32 {id};"),
        &format!("          UINT32 {code};"),
        "  };",
    ])
}

#[test]
fn token_value_reads_header_tokens() {
    let header = "\u{2023} Type=method_call  Endian=l Cookie=42;  Name=\"quoted\"";
    assert_eq!(token_value(header, "Type=").as_deref(), Some("method_call"));
    assert_eq!(token_value(header, "Cookie=").as_deref(), Some("42"));
    assert_eq!(token_value(header, "Name=").as_deref(), Some("quoted"));
    assert_eq!(token_value(header, "Missing="), None);
    assert_eq!(token_value("Key=   ", "Key="), None);
}

#[test]
fn quoted_value_after_reads_first_quoted_text() {
    let header = "Cookie=1  Timestamp=\"Mon 2024-01-01 10:00:00 UTC\" Other=\"x\"";
    assert_eq!(
        quoted_value_after(header, "Timestamp=").as_deref(),
        Some("Mon 2024-01-01 10:00:00 UTC")
    );
    assert_eq!(quoted_value_after("Timestamp=\"open", "Timestamp="), None);
    assert_eq!(quoted_value_after("nothing here", "Timestamp="), None);
}

#[test]
fn extract_strings_in_block_order() {
    let block = notify_call();
    assert_eq!(
        extract_strings(&block),
        vec!["firefox".to_string(), String::new(), "Download done".to_string(), "file.zip".to_string()]
    );
}

#[test]
fn uint32_values_skip_unparsable() {
    let block = lines(&["  UINT32 5;", "UINT32 x;", "  UINT32 4294967296;", " UINT32  7 ;", "STRING \"9\";"]);
    assert_eq!(uint32_values(&block), vec![5, 7]);
    assert_eq!(first_uint32(&block), Some(5));
    assert_eq!(first_uint32(&lines(&["STRING \"a\";"])), None);
}

#[test]
fn block_contains_any_line() {
    let block = notify_call();
    assert!(block_contains(&block, "Member=Notify"));
    assert!(!block_contains(&block, "Member=NotificationClosed"));
}

#[test]
fn assembler_splits_blocks_at_markers() {
    let mut gather = BlockAssembler::new();
    assert!(gather.push_line(String::new()).is_none());
    assert!(gather.push_line("\u{2023} Type=signal a".to_string()).is_none());
    assert!(gather.push_line("  body".to_string()).is_none());
    assert!(gather.push_line(String::new()).is_none());
    let first = gather.push_line("\u{2023} Type=method_call b".to_string()).unwrap();
    assert_eq!(first, lines(&["\u{2023} Type=signal a", "  body", ""]));
    assert!(gather.push_line("\u{2023} no type here".to_string()).is_none());
    assert_eq!(gather.finish(), lines(&["\u{2023} Type=method_call b", "\u{2023} no type here"]));
}

#[test]
fn call_reply_close_lifecycle() {
    let mut c = Correlator::new();
    assert!(c.process_block(&notify_call()).is_none());
    assert_eq!(c.pending.len(), 1);

    let open = c.process_block(&reply(42, 17)).unwrap();
    assert!(!open.closing);
    assert_eq!(open.bus_timestamp, "Mon 2024-01-01 10:00:00.123456 UTC");
    let uid = "17_Mon_2024_01_01_10_00_00_123456_UTC";
    assert_eq!(open.record.event_uid.as_deref(), Some(uid));
    assert_eq!(open.record.app_name.as_deref(), Some("firefox"));
    assert_eq!(open.record.summary.as_deref(), Some("Download done"));
    assert_eq!(open.record.body.as_deref(), Some("file.zip"));
    assert!(c.pending.is_empty());
    let rec = open.resolved(Some(1_704_103_200), Some("10:00".to_string()));
    assert_eq!(rec.epoch, Some(1_704_103_200));
    assert_eq!(rec.hhmm.as_deref(), Some("10:00"));
    assert_eq!(rec.closed_epoch, None);

    assert!(c.process_block(&reply(42, 17)).is_none());

    let close = c.process_block(&closed(17, 1)).unwrap();
    assert!(close.closing);
    assert_eq!(close.record.event_uid.as_deref(), Some(uid));
    assert_eq!(close.record.close_reason_code, Some(1));
    assert_eq!(close.record.close_reason.as_deref(), Some("expired"));
    let rec = close.resolved(None, None);
    assert_eq!(rec.closed_epoch, None);

    let late = c.process_block(&closed(17, 2)).unwrap();
    assert_eq!(late.record.event_uid, None);
    assert_eq!(late.record.close_reason.as_deref(), Some("dismissed-by-user"));
}

#[test]
fn malformed_blocks_yield_nothing() {
    let mut c = Correlator::new();
    assert!(c.process_block(&Vec::new()).is_none());
    let short_call = lines(&[
        "\u{2023} Type=method_call Cookie=1 Timestamp=\"t\"",
        " Member=Notify",
        " STRING \"a\";",
    ]);
    assert!(c.process_block(&short_call).is_none());
    assert!(c.pending.is_empty());
    let short_close = lines(&["\u{2023} Type=signal Timestamp=\"t\"", " Member=NotificationClosed", " UINT32 3;"]);
    assert!(c.process_block(&short_close).is_none());
    let unknown = lines(&["\u{2023} Type=error Cookie=1"]);
    assert!(c.process_block(&unknown).is_none());
}
