use logview::app::{App, Focus};
use logview::input::{handle_key, is_interrupt, Key, KeyOutcome};
use logview::level::LogLevel;
use logview::log_entry::LogEntry;
use logview::model::TableModel;

fn app_with(n: usize) -> App {
    let entries = (0..n)
        .map(|i| LogEntry {
            time: format!("00:00:{i:02}.000"),
            level: if i % 2 == 0 { "INFO".to_string() } else { "ERROR".to_string() },
            logger: if i % 2 == 0 { "L_SysInfo".to_string() } else { "L_Net".to_string() },
            text: if i == 1 { "a\nb".to_string() } else { format!("message {i}") },
        })
        .collect();
    App::new(TableModel::new(entries), "f".to_string())
}

fn press(app: &mut App, key: Key) -> KeyOutcome {
    handle_key(app, key)
}

fn is_continue(o: &KeyOutcome) -> bool {
    matches!(o, KeyOutcome::Continue)
}

#[test]
fn quit_keys() {
    let mut app = app_with(3);
    assert!(matches!(press(&mut app, Key::Char('q')), KeyOutcome::Quit));
    assert!(is_interrupt(Key::Char('c'), true));
    assert!(!is_interrupt(Key::Char('c'), false));
    assert!(!is_interrupt(Key::Char('x'), true));
    // in a filter field 'q' is text
    press(&mut app, Key::Char('l'));
    assert!(is_continue(&press(&mut app, Key::Char('q'))));
    assert_eq!(app.filters.logger, "q");
}

#[test]
fn table_navigation_keys() {
    let mut app = app_with(10);
    press(&mut app, Key::Down);
    press(&mut app, Key::Char('j'));
    assert_eq!(app.scroll.selected, 2);
    press(&mut app, Key::Char('k'));
    assert_eq!(app.scroll.selected, 1);
    press(&mut app, Key::Char('G'));
    assert_eq!(app.scroll.selected, 9);
    press(&mut app, Key::Home);
    assert_eq!(app.scroll.selected, 0);
    press(&mut app, Key::End);
    press(&mut app, Key::Up);
    assert_eq!(app.scroll.selected, 8);
    press(&mut app, Key::Char('g'));
    press(&mut app, Key::PageDown);
    assert_eq!(app.scroll.selected, 9);
    press(&mut app, Key::PageUp);
    assert_eq!(app.scroll.selected, 0);
}

#[test]
fn expanding_with_space() {
    let mut app = app_with(3);
    press(&mut app, Key::Down);
    press(&mut app, Key::Char(' '));
    assert!(app.model.expanded.contains(&1));
    press(&mut app, Key::Char(' '));
    assert!(app.model.expanded.is_empty());
}

#[test]
fn focus_changes() {
    let mut app = app_with(3);
    press(&mut app, Key::Char('/'));
    assert_eq!(app.focus, Focus::MessageFilter);
    press(&mut app, Key::Tab);
    assert_eq!(app.focus, Focus::LoggerFilter);
    press(&mut app, Key::Tab);
    assert_eq!(app.focus, Focus::MessageFilter);
    press(&mut app, Key::Esc);
    assert_eq!(app.focus, Focus::Table);
    press(&mut app, Key::Tab);
    assert_eq!(app.focus, Focus::LoggerFilter);
    press(&mut app, Key::Enter);
    assert_eq!(app.focus, Focus::Table);
    press(&mut app, Key::Other);
    assert_eq!(app.focus, Focus::Table);
}

#[test]
fn typing_filters_updates_live() {
    let mut app = app_with(6);
    press(&mut app, Key::Char('l'));
    for c in "sys".chars() {
        press(&mut app, Key::Char(c));
    }
    assert_eq!(app.filters.logger, "sys");
    assert_eq!(app.model.filtered_indices, vec![0, 2, 4]);
    press(&mut app, Key::Backspace);
    press(&mut app, Key::Backspace);
    press(&mut app, Key::Backspace);
    press(&mut app, Key::Backspace);
    assert_eq!(app.filters.logger, "");
    assert_eq!(app.model.filtered_indices.len(), 6);
    press(&mut app, Key::Tab);
    for c in "MESSAGE 3".chars() {
        press(&mut app, Key::Char(c));
    }
    assert_eq!(app.model.filtered_indices, vec![3]);
    assert_eq!(app.scroll.selected, 0);
}

#[test]
fn level_key_cycles() {
    let mut app = app_with(4);
    for _ in 0..4 {
        press(&mut app, Key::Char('v'));
    }
    assert_eq!(app.filters.min_level, LogLevel::Error);
    assert_eq!(app.model.filtered_indices, vec![1, 3]);
}

#[test]
fn save_prompt() {
    let mut app = app_with(2);
    app.save_status = Some("old".to_string());
    press(&mut app, Key::Char('s'));
    assert_eq!(app.focus, Focus::SavePrompt);
    assert!(app.save_status.is_none());
    for c in "out.ndjsonx".chars() {
        press(&mut app, Key::Char(c));
    }
    press(&mut app, Key::Backspace);
    assert_eq!(app.save_prompt, "out.ndjson");
    for _ in 0..20 {
        press(&mut app, Key::Backspace);
    }
    assert_eq!(app.save_prompt, "");
    for c in "out.ndjson".chars() {
        press(&mut app, Key::Char(c));
    }
    match press(&mut app, Key::Enter) {
        KeyOutcome::Save(p) => assert_eq!(p, "out.ndjson"),
        _ => panic!("expected a save request"),
    }
    assert_eq!(app.focus, Focus::Table);
    press(&mut app, Key::Char('s'));
    assert_eq!(app.save_prompt, "");
    app.save_status = Some("x".to_string());
    assert!(is_continue(&press(&mut app, Key::Esc)));
    assert!(app.save_status.is_none());
    assert_eq!(app.focus, Focus::Table);
}
