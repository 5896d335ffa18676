use logview::level::LogLevel;
use logview::log_entry::{newest_index, record_text, LogEntry};

fn entry(level: &str, logger: &str, text: &str) -> LogEntry {
    LogEntry {
        time: "16:19:06.288".to_string(),
        level: level.to_string(),
        logger: logger.to_string(),
        text: text.to_string(),
    }
}

#[test]
fn single_line_entry() {
    let e = entry("INFO", "L_Default", "Some message");
    assert!(!e.is_multiline());
    assert_eq!(e.line_count(), 1);
    assert_eq!(e.first_line(), "Some message");
    assert_eq!(e.lines(), vec!["Some message"]);
    assert_eq!(e.log_level(), LogLevel::Info);
}

#[test]
fn multi_line_entry() {
    let e = entry("warn", "L_SysInfo", "first\nsecond\r\nthird");
    assert!(e.is_multiline());
    assert_eq!(e.line_count(), 3);
    assert_eq!(e.first_line(), "first");
    assert_eq!(e.lines(), vec!["first", "second", "third"]);
    assert_eq!(e.log_level(), LogLevel::Warn);
}

#[test]
fn empty_text_has_one_display_line() {
    let e = entry("bogus", "x", "");
    assert!(!e.is_multiline());
    assert_eq!(e.line_count(), 1);
    assert_eq!(e.first_line(), "");
    assert!(e.lines().is_empty());
    assert_eq!(e.log_level(), LogLevel::Trace);
}

#[test]
fn loading_trims_line_feeds_around_the_message() {
    let e = entry("INFO", "L", "\n\nbody\nmore\n").with_trimmed_text();
    assert_eq!(e.text, "body\nmore");
    assert_eq!(e.time, "16:19:06.288");
    assert_eq!(e.level, "INFO");
    assert_eq!(e.logger, "L");
    let kept = entry("INFO", "L", " keep spaces ").with_trimmed_text();
    assert_eq!(kept.text, " keep spaces ");
}

#[test]
fn record_lines() {
    assert_eq!(record_text("   "), None);
    assert_eq!(record_text(""), None);
    assert_eq!(record_text("  {\"a\":1}\t"), Some("{\"a\":1}"));
}

#[test]
fn clone_keeps_fields() {
    let e = entry("DEBUG", "L_X", "a\nb");
    let c = e.clone();
    assert_eq!(c.time, e.time);
    assert_eq!(c.level, e.level);
    assert_eq!(c.logger, e.logger);
    assert_eq!(c.text, e.text);
}

#[test]
fn newest_file() {
    assert_eq!(newest_index(&[]), None);
    assert_eq!(newest_index(&[5]), Some(0));
    assert_eq!(newest_index(&[3, 9, 1, 9, -4]), Some(1));
    assert_eq!(newest_index(&[-10, -3, -7]), Some(1));
}
