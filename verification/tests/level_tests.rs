use logview::level::{level_color, parse_level_name, Hue, LogLevel};

#[test]
fn order_and_names() {
    let all = LogLevel::all();
    assert_eq!(all, [LogLevel::Trace, LogLevel::Debug, LogLevel::Info, LogLevel::Warn, LogLevel::Error]);
    for (i, l) in all.iter().enumerate() {
        assert_eq!(l.rank() as usize, i);
    }
    assert_eq!(LogLevel::Info.as_str(), "INFO");
    assert_eq!(LogLevel::Error.as_str(), "ERROR");
    assert!(LogLevel::Error.at_least(LogLevel::Warn));
    assert!(LogLevel::Warn.at_least(LogLevel::Warn));
    assert!(!LogLevel::Debug.at_least(LogLevel::Info));
}

#[test]
fn cycling_visits_every_level() {
    let mut l = LogLevel::Trace;
    let mut seen = vec![];
    for _ in 0..5 {
        seen.push(l);
        l = l.cycled();
    }
    assert_eq!(l, LogLevel::Trace);
    assert_eq!(seen, LogLevel::all().to_vec());
}

#[test]
fn parsing_level_fields() {
    assert_eq!(parse_level_name("INFO"), Some(LogLevel::Info));
    assert_eq!(parse_level_name("info"), Some(LogLevel::Info));
    assert_eq!(parse_level_name("WaRn"), Some(LogLevel::Warn));
    assert_eq!(parse_level_name("ERROR"), Some(LogLevel::Error));
    assert_eq!(parse_level_name("trace"), Some(LogLevel::Trace));
    assert_eq!(parse_level_name("Debug"), Some(LogLevel::Debug));
    assert_eq!(parse_level_name("WARNING"), None);
    assert_eq!(parse_level_name(""), None);
    assert_eq!(parse_level_name(" INFO"), None);
}

#[test]
fn colors() {
    assert_eq!(level_color(LogLevel::Error), Hue::Red);
    assert_eq!(level_color(LogLevel::Warn), Hue::Yellow);
    assert_eq!(level_color(LogLevel::Info), Hue::Green);
    assert_eq!(level_color(LogLevel::Debug), Hue::Cyan);
    assert_eq!(level_color(LogLevel::Trace), Hue::DarkGray);
}
