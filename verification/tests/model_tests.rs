use logview::level::LogLevel;
use logview::log_entry::LogEntry;
use logview::model::{field_matches, FilteredVec, Filters, TableLogEntry, TableModel};

fn entry(level: &str, logger: &str, text: &str) -> LogEntry {
    LogEntry {
        time: "12:00:00.000".to_string(),
        level: level.to_string(),
        logger: logger.to_string(),
        text: text.to_string(),
    }
}

fn sample() -> Vec<LogEntry> {
    vec![
        entry("INFO", "L_Default", "Some message"),
        entry("DEBUG", "L_SysInfo", "cpu\nmem\ndisk"),
        entry("ERROR", "L_Net", "Connection refused"),
        entry("WARN", "L_SYSINFO", "low memory"),
        entry("TRACE", "L_Default", "tick"),
    ]
}

#[test]
fn filtered_vec_basics() {
    let mut v = FilteredVec::new(vec![5, 8, 3, 10, 1]);
    assert_eq!(v.len(), 5);
    assert_eq!(v.total_len(), 5);
    assert_eq!(v.visible_indices(), &[0, 1, 2, 3, 4]);
    v.update_filter(|x: &i32| *x > 4);
    assert_eq!(v.visible_indices(), &[0, 1, 3]);
    assert_eq!(v.len(), 3);
    assert_eq!(v.total_len(), 5);
    assert_eq!(v.entries(), &[5, 8, 3, 10, 1]);
    v.update_filter(|_: &i32| false);
    assert_eq!(v.len(), 0);
}

#[test]
fn filter_fields() {
    assert!(field_matches("", "anything"));
    assert!(field_matches("sysinfo", "l_sysinfo"));
    assert!(!field_matches("net", "l_sysinfo"));
}

#[test]
fn default_filters_show_everything() {
    let f = Filters::new();
    assert_eq!(f.logger, "");
    assert_eq!(f.message, "");
    assert_eq!(f.min_level, LogLevel::Trace);
    let p = f.predicate();
    for e in sample() {
        assert!(p.is_visible(&e));
    }
}

#[test]
fn logger_filter_is_a_case_insensitive_substring() {
    let mut f = Filters::new();
    f.logger = "SysInfo".to_string();
    let p = f.predicate();
    let shown: Vec<bool> = sample().iter().map(|e| p.is_visible(e)).collect();
    assert_eq!(shown, vec![false, true, false, true, false]);
}

#[test]
fn filters_ignore_unicode_case() {
    let mut f = Filters::new();
    f.message = "ÄRGER".to_string();
    let p = f.predicate();
    assert!(p.is_visible(&entry("INFO", "x", "großer ärger")));
    assert!(!p.is_visible(&entry("INFO", "x", "arger")));
}

#[test]
fn message_and_level_filters() {
    let mut f = Filters::new();
    f.message = "MEM".to_string();
    let p = f.predicate();
    let shown: Vec<bool> = sample().iter().map(|e| p.is_visible(e)).collect();
    assert_eq!(shown, vec![false, true, false, true, false]);

    let mut g = Filters::new();
    g.min_level = LogLevel::Warn;
    let q = g.predicate();
    let shown: Vec<bool> = sample().iter().map(|e| q.is_visible(e)).collect();
    assert_eq!(shown, vec![false, false, true, true, false]);
}

#[test]
fn table_model_new_shows_all() {
    let m = TableModel::new(sample());
    assert_eq!(m.filtered_indices, vec![0, 1, 2, 3, 4]);
    assert!(m.expanded.is_empty());
    assert_eq!(m.all_entries.len(), 5);
    assert_eq!(m.entries.total_len(), 5);
    assert_eq!(m.entries.len(), 5);
    assert_eq!(m.entries.visible_indices(), m.filtered_indices.as_slice());
    assert_eq!(m.entries.entries()[1].as_ref().text, "cpu\nmem\ndisk");
}

#[test]
fn table_model_apply_filters() {
    let mut m = TableModel::new(sample());
    let mut f = Filters::new();
    f.logger = "default".to_string();
    m.apply_filters(&f);
    assert_eq!(m.filtered_indices, vec![0, 4]);
    f.logger.clear();
    f.min_level = LogLevel::Debug;
    m.apply_filters(&f);
    assert_eq!(m.filtered_indices, vec![0, 1, 2, 3]);
    f.message = "no such text".to_string();
    m.apply_filters(&f);
    assert!(m.filtered_indices.is_empty());
}

#[test]
fn toggle_expand_and_row_height() {
    let mut m = TableModel::new(sample());
    assert_eq!(m.row_height(1), 1);
    m.toggle_expand(1);
    assert!(m.expanded.contains(&1));
    assert_eq!(m.row_height(1), 3);
    // single-line entries are never expanded
    m.toggle_expand(0);
    assert!(!m.expanded.contains(&0));
    assert_eq!(m.row_height(0), 1);
    // a row that does not exist
    m.toggle_expand(99);
    assert_eq!(m.row_height(99), 1);
    // toggling twice restores the set
    m.toggle_expand(1);
    assert!(m.expanded.is_empty());
    assert_eq!(m.row_height(1), 1);
}

#[test]
fn toggle_follows_filtered_rows() {
    let mut m = TableModel::new(sample());
    let mut f = Filters::new();
    f.logger = "sysinfo".to_string();
    m.apply_filters(&f);
    assert_eq!(m.filtered_indices, vec![1, 3]);
    m.toggle_expand(0);
    assert!(m.expanded.contains(&1));
    assert_eq!(m.row_height(0), 3);
    assert_eq!(m.row_height(1), 1);
}

#[test]
fn table_log_entry_conversions() {
    let t = TableLogEntry::from(entry("INFO", "a", "b"));
    assert_eq!(t.as_ref().logger, "a");
    let u: TableLogEntry = entry("INFO", "c", "d").into();
    assert_eq!(u.as_ref().text, "d");
}

#[test]
fn typing_more_filter_text_never_shows_more() {
    let entries = sample();
    let mut f = Filters::new();
    let mut previous: Vec<bool> = entries.iter().map(|_| true).collect();
    for c in "l_sys".chars() {
        f.logger.push(c);
        let p = f.predicate();
        let now: Vec<bool> = entries.iter().map(|e| p.is_visible(e)).collect();
        for (a, b) in previous.iter().zip(now.iter()) {
            assert!(!*b || *a);
        }
        previous = now;
    }
    assert_eq!(previous, vec![false, true, false, true, false]);
    f.min_level = LogLevel::Warn;
    let p = f.predicate();
    let now: Vec<bool> = entries.iter().map(|e| p.is_visible(e)).collect();
    assert_eq!(now, vec![false, false, false, true, false]);
}
