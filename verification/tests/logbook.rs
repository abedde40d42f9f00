use magicpad_companion::logbook::{severity_of, LogBook, LogEntry, Severity, Timestamp, MAX_LOGS};

fn entry(n: usize) -> LogEntry {
    LogEntry {
        id: format!("id-{n}"),
        timestamp: Timestamp { secs: n as i64, nanos: 0 },
        level: "info".to_string(),
        source: "test".to_string(),
        message: format!("message {n}"),
    }
}

#[test]
fn push_and_snapshot_keep_order() {
    let mut b = LogBook::new();
    assert!(b.logs_snapshot().is_empty());
    b.push_entry(entry(1));
    b.push_entry(entry(2));
    let s = b.logs_snapshot();
    assert_eq!(s.len(), 2);
    assert_eq!(s[0].message, "message 1");
    assert_eq!(s[1].message, "message 2");
}

#[test]
fn window_keeps_last_five_hundred() {
    let mut b = LogBook::new();
    for n in 0..(MAX_LOGS + 25) {
        b.push_entry(entry(n));
    }
    let s = b.logs_snapshot();
    assert_eq!(s.len(), MAX_LOGS);
    assert_eq!(s[0].message, "message 25");
    assert_eq!(s[MAX_LOGS - 1].message, format!("message {}", MAX_LOGS + 24));
    assert_eq!(MAX_LOGS, 500);
}

#[test]
fn push_log_fills_an_entry() {
    let mut b = LogBook::new();
    b.push_log("warn", "driver", "Install requested".to_string());
    let s = b.logs_snapshot();
    assert_eq!(s.len(), 1);
    assert_eq!(s[0].level, "warn");
    assert_eq!(s[0].source, "driver");
    assert_eq!(s[0].message, "Install requested");
    let id: Vec<char> = s[0].id.chars().collect();
    assert_eq!(id.len(), 36);
    for (i, c) in id.iter().enumerate() {
        if i == 8 || i == 13 || i == 18 || i == 23 {
            assert_eq!(*c, '-');
        } else {
            assert!(c.is_ascii_digit() || ('a'..='f').contains(c), "{c}");
        }
    }
    assert_eq!(id[14], '4');
    assert!(s[0].timestamp.secs > 0);
    assert!(s[0].timestamp.nanos < 1_000_000_000);
    // each entry gets its own identifier
    b.push_log("info", "app", "again".to_string());
    let s = b.logs_snapshot();
    assert_ne!(s[0].id, s[1].id);
}

#[test]
fn clear_empties_the_log() {
    let mut b = LogBook::new();
    b.push_entry(entry(1));
    b.clear_logs();
    assert!(b.logs_snapshot().is_empty());
    b.push_entry(entry(2));
    assert_eq!(b.logs_snapshot().len(), 1);
}

#[test]
fn severities() {
    assert_eq!(severity_of("error"), Severity::Error);
    assert_eq!(severity_of("warn"), Severity::Warn);
    assert_eq!(severity_of("debug"), Severity::Debug);
    assert_eq!(severity_of("info"), Severity::Info);
    assert_eq!(severity_of("ERROR"), Severity::Info);
    assert_eq!(severity_of(""), Severity::Info);
}
