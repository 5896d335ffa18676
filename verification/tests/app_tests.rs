use logview::app::{App, Focus};
use logview::level::LogLevel;
use logview::log_entry::LogEntry;
use logview::model::TableModel;

fn entry(level: &str, logger: &str, text: &str) -> LogEntry {
    LogEntry {
        time: "12:00:00.000".to_string(),
        level: level.to_string(),
        logger: logger.to_string(),
        text: text.to_string(),
    }
}

fn app_with(n: usize) -> App {
    let entries = (0..n)
        .map(|i| {
            let text = if i % 3 == 0 { format!("row {i}\nmore\nlines") } else { format!("row {i}") };
            let level = ["TRACE", "DEBUG", "INFO", "WARN", "ERROR"][i % 5];
            entry(level, if i % 2 == 0 { "L_Even" } else { "L_Odd" }, &text)
        })
        .collect();
    App::new(TableModel::new(entries), "test.ndjson".to_string())
}

/// The selected row is on screen: the rows from the first one shown through it fit.
fn selection_on_screen(app: &App) -> bool {
    let s = &app.scroll;
    if s.scroll_offset > s.selected {
        return false;
    }
    if s.scroll_offset == s.selected {
        return true;
    }
    let used: usize = (s.scroll_offset..=s.selected).map(|r| app.model.row_height(r)).sum();
    used <= s.visible_rows
}

#[test]
fn new_app() {
    let app = app_with(3);
    assert_eq!(app.scroll.selected, 0);
    assert_eq!(app.scroll.scroll_offset, 0);
    assert_eq!(app.focus, Focus::Table);
    assert_eq!(app.filename, "test.ndjson");
    assert_eq!(app.filters.min_level, LogLevel::Trace);
    assert!(app.save_status.is_none());
}

#[test]
fn navigation_keeps_selection_on_screen() {
    let mut app = app_with(50);
    app.scroll.visible_rows = 7;
    for _ in 0..30 {
        app.next_row();
        assert!(selection_on_screen(&app));
    }
    assert_eq!(app.scroll.selected, 30);
    assert_eq!(app.scroll.scroll_offset, 24);
    app.page_down();
    assert_eq!(app.scroll.selected, 35);
    assert!(selection_on_screen(&app));
    app.last_row();
    assert_eq!(app.scroll.selected, 49);
    assert!(selection_on_screen(&app));
    app.page_up();
    assert_eq!(app.scroll.selected, 44);
    assert!(selection_on_screen(&app));
    for _ in 0..50 {
        app.prev_row();
        assert!(selection_on_screen(&app));
    }
    assert_eq!(app.scroll.selected, 0);
    assert_eq!(app.scroll.scroll_offset, 0);
    app.last_row();
    app.first_row();
    assert_eq!((app.scroll.selected, app.scroll.scroll_offset), (0, 0));
}

#[test]
fn expanded_rows_take_more_lines() {
    let mut app = app_with(10);
    app.scroll.visible_rows = 5;
    app.toggle_expand(); // row 0 has three lines
    assert!(app.model.expanded.contains(&0));
    app.next_row();
    app.next_row();
    // rows 0..=2 take 3 + 1 + 1 = 5 lines
    assert_eq!(app.scroll.scroll_offset, 0);
    app.next_row();
    assert_eq!(app.scroll.selected, 3);
    assert_eq!(app.scroll.scroll_offset, 1);
    assert!(selection_on_screen(&app));
}

#[test]
fn filtering_moves_selection_into_range() {
    let mut app = app_with(10);
    app.last_row();
    assert_eq!(app.scroll.selected, 9);
    app.filters.logger = "even".to_string();
    app.apply_filters();
    assert_eq!(app.model.filtered_indices, vec![0, 2, 4, 6, 8]);
    assert_eq!(app.scroll.selected, 4);
    assert!(selection_on_screen(&app));
    app.filters.logger = "nothing matches".to_string();
    app.apply_filters();
    assert!(app.model.filtered_indices.is_empty());
    assert_eq!(app.scroll.selected, 0);
    assert_eq!(app.scroll.scroll_offset, 0);
}

#[test]
fn cycling_the_level_filter() {
    let mut app = app_with(10);
    app.cycle_level();
    assert_eq!(app.filters.min_level, LogLevel::Debug);
    assert_eq!(app.model.filtered_indices, vec![1, 2, 3, 4, 6, 7, 8, 9]);
    app.cycle_level();
    app.cycle_level();
    app.cycle_level();
    assert_eq!(app.filters.min_level, LogLevel::Error);
    assert_eq!(app.model.filtered_indices, vec![4, 9]);
    app.cycle_level();
    assert_eq!(app.filters.min_level, LogLevel::Trace);
    assert_eq!(app.model.filtered_indices.len(), 10);
}

#[test]
fn toggle_on_empty_table_does_nothing() {
    let mut app = app_with(0);
    app.toggle_expand();
    app.next_row();
    app.page_down();
    app.last_row();
    assert_eq!(app.scroll.selected, 0);
    assert!(app.model.expanded.is_empty());
}
