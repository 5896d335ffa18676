use std::collections::HashSet;

use logview::app::{App, Focus};
use logview::level::{Hue, LogLevel};
use logview::log_entry::LogEntry;
use logview::model::TableModel;
use logview::widgets::{
    body_height, filter_cursor, fmt_ms, timeline_axis_width, timeline_marker_edges, help_hue, help_text, multiline_marker, save_cursor_x, save_prompt_label,
    Area, FilterInput, LevelSelect, LogTable, RowPlan,
};

fn entry(level: &str, logger: &str, text: &str) -> LogEntry {
    LogEntry {
        time: "16:19:06.288".to_string(),
        level: level.to_string(),
        logger: logger.to_string(),
        text: text.to_string(),
    }
}

#[test]
fn filter_input_cursor() {
    let input = FilterInput { text: "abc", title: " Logger Filter (l) ", focused: true };
    let area = Area { x: 10, y: 4, width: 30, height: 3 };
    assert_eq!(input.cursor_x(area), 14);
    assert_eq!(input.cursor_y(area), 5);
    assert_eq!(input.border_hue(), Hue::Red);
    let wide = FilterInput { text: "é", title: "", focused: false };
    assert_eq!(wide.cursor_x(area), 13);
    assert_eq!(wide.border_hue(), Hue::DarkGray);
}

#[test]
fn level_select_labels() {
    let s = LevelSelect { level: LogLevel::Warn, focused: false };
    assert_eq!(s.label(LogLevel::Warn), "[WARN]");
    assert_eq!(s.label(LogLevel::Info), " INFO ");
    assert_eq!(s.border_hue(), Hue::DarkGray);
    assert_eq!(LevelSelect { level: LogLevel::Info, focused: true }.border_hue(), Hue::Yellow);
}

#[test]
fn milliseconds() {
    assert_eq!(fmt_ms(0), "0.000");
    assert_eq!(fmt_ms(1234), "1.234");
    assert_eq!(fmt_ms(-5), "0.005");
    assert_eq!(fmt_ms(60_070), "60.070");
    assert_eq!(fmt_ms(i64::MIN), "9223372036854775.808");
}

#[test]
fn markers() {
    let single = entry("INFO", "a", "one");
    let multi = entry("INFO", "a", "one\ntwo");
    assert_eq!(multiline_marker(&single, true), "  ");
    assert_eq!(multiline_marker(&multi, true), "\u{25bc} ");
    assert_eq!(multiline_marker(&multi, false), "\u{25b6} ");
}

#[test]
fn table_body_height() {
    assert_eq!(body_height(0), 0);
    assert_eq!(body_height(1), 0);
    assert_eq!(body_height(12), 11);
}

#[test]
fn table_plan_and_cells() {
    let entries = vec![
        entry("INFO", "L_A", "first"),
        entry("DEBUG", "L_B", "one\ntwo\nthree"),
        entry("WARN", "L_C", "third"),
        entry("ERROR", "L_D", "x\ny"),
    ];
    let filtered = vec![0, 1, 2, 3];
    let mut expanded = HashSet::new();
    expanded.insert(1);
    let table = LogTable {
        all_entries: &entries,
        filtered_indices: &filtered,
        expanded: &expanded,
        selected: 1,
        scroll_offset: 0,
    };
    assert_eq!(table.title(), " Logs [2/4] ");
    let plan = table.plan(4);
    assert_eq!(
        plan,
        vec![
            RowPlan { row: 0, entry_index: 0, lines: 1, expanded: false, selected: false },
            RowPlan { row: 1, entry_index: 1, lines: 3, expanded: true, selected: true },
        ]
    );
    let cut = table.plan(3);
    assert_eq!(cut[1].lines, 2);
    let c0 = table.row_cells(&plan[0]);
    assert_eq!(c0.time, "16:19:06.288");
    assert_eq!(c0.level, "INFO ");
    assert_eq!(c0.logger, "L_A");
    assert_eq!(c0.message, "  first");
    let c1 = table.row_cells(&plan[1]);
    assert_eq!(c1.time, "16:19:06.288\n \n ");
    assert_eq!(c1.level, "DEBUG\n     \n     ");
    assert_eq!(c1.logger, "L_B\n \n ");
    assert_eq!(c1.message, "\u{25bc} one\n  two\n  three");
    let c1cut = table.row_cells(&cut[1]);
    assert_eq!(c1cut.message, "\u{25bc} one\n  two");
    let whole = table.plan(100);
    assert_eq!(whole.len(), 4);
    let c3 = table.row_cells(&whole[3]);
    assert_eq!(c3.message, "\u{25b6} x ...");
    assert_eq!(c3.level, "ERROR");
}

#[test]
fn table_title_when_empty() {
    let entries: Vec<LogEntry> = vec![];
    let filtered: Vec<usize> = vec![];
    let expanded = HashSet::new();
    let table = LogTable {
        all_entries: &entries,
        filtered_indices: &filtered,
        expanded: &expanded,
        selected: 0,
        scroll_offset: 0,
    };
    assert_eq!(table.title(), " Logs [0/0] ");
    assert!(table.plan(10).is_empty());
}

#[test]
fn help_bar() {
    let mut app = App::new(TableModel::new(vec![]), "f".to_string());
    assert!(help_text(&app).starts_with(" q:Quit"));
    assert_eq!(help_hue(&app), Hue::DarkGray);
    app.focus = Focus::LoggerFilter;
    assert_eq!(help_text(&app), " Enter/Esc:Back to table  Tab:Switch filter");
    app.save_status = Some(" Saved 3 entries".to_string());
    assert_eq!(help_text(&app), " Saved 3 entries");
    assert_eq!(help_hue(&app), Hue::Green);
    assert_eq!(save_prompt_label(), " Save to: ");
    assert_eq!(save_cursor_x(Area { x: 2, y: 0, width: 80, height: 1 }, "out"), 15);
}

#[test]
fn selected_row_is_drawn_after_navigation() {
    let entries: Vec<LogEntry> = (0..40)
        .map(|i| entry("INFO", "L", &if i % 4 == 0 { format!("r{i}\na\nb\nc") } else { format!("r{i}") }))
        .collect();
    let mut app = App::new(TableModel::new(entries), "f".to_string());
    app.scroll.visible_rows = 6;
    for step in 0..39 {
        if step % 4 == 0 {
            app.toggle_expand();
        }
        app.next_row();
        let table = LogTable {
            all_entries: &app.model.all_entries,
            filtered_indices: &app.model.filtered_indices,
            expanded: &app.model.expanded,
            selected: app.scroll.selected,
            scroll_offset: app.scroll.scroll_offset,
        };
        let plan = table.plan(app.scroll.visible_rows);
        let used: usize = plan.iter().map(|p| p.lines).sum();
        assert!(used <= app.scroll.visible_rows);
        assert!(plan.iter().any(|p| p.row == app.scroll.selected && p.selected));
        assert_eq!(plan.iter().filter(|p| p.selected).count(), 1);
    }
}

#[test]
fn filter_bar_cursor() {
    let la = Area { x: 0, y: 1, width: 30, height: 3 };
    let ma = Area { x: 30, y: 1, width: 30, height: 3 };
    let logger = FilterInput { text: "sys", title: "", focused: true };
    let message = FilterInput { text: "", title: "", focused: false };
    assert_eq!(filter_cursor(&logger, la, &message, ma), Some((4, 2)));
    let logger = FilterInput { text: "sys", title: "", focused: false };
    let message = FilterInput { text: "ab", title: "", focused: true };
    assert_eq!(filter_cursor(&logger, la, &message, ma), Some((33, 2)));
    let message = FilterInput { text: "ab", title: "", focused: false };
    assert_eq!(filter_cursor(&logger, la, &message, ma), None);
}

#[test]
fn timeline_layout() {
    assert_eq!(timeline_axis_width(9, 5, 5), None);
    assert_eq!(timeline_axis_width(12, 5, 5), None);
    assert_eq!(timeline_axis_width(40, 5, 6), Some(27));
    assert_eq!(timeline_marker_edges(10, 10, 5), None);
    assert_eq!(timeline_marker_edges(30, 10, 0), Some((0, 20)));
    assert_eq!(timeline_marker_edges(30, 10, 14), Some((9, 11)));
    assert_eq!(timeline_marker_edges(30, 10, 29), Some((20, 0)));
}
