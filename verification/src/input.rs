//! What each key does, depending on which part of the screen has the keyboard.

use vstd::prelude::*;
use crate::app::{
    App,
    Focus,
    next_selected,
    prev_selected,
    last_selected,
    page_down_selected,
    page_up_selected,
};
use crate::text::{pop_char, push_char};

verus! {

/// A key as the viewer tells keys apart.
#[derive(Clone, Copy, Debug, PartialEq, Eq, Structural)]
pub enum Key {
    Char(char),
    Up,
    Down,
    Home,
    End,
    PageUp,
    PageDown,
    Tab,
    Enter,
    Esc,
    Backspace,
    Other,
}

/// What the caller has to do after a key was handled.
pub enum KeyOutcome {
    /// Keep running.
    Continue,
    /// Quit the viewer.
    Quit,
    /// Write the entries shown to this path, then keep running.
    Save(String),
}

/// Control-C quits from anywhere.
pub open spec fn spec_is_interrupt(key: Key, control: bool) -> bool {
    control && key == Key::Char('c')
}

/// Whether the key, pressed with or without Control, is the chord that quits from anywhere.
pub fn is_interrupt(key: Key, control: bool) -> (b: bool)
    ensures
        b == spec_is_interrupt(key, control),
{
    control && match key {
        Key::Char(c) => c == 'c',
        _ => false,
    }
}

impl App {
    /// `self` is `old` with only the focus changed to `f`.
    pub open spec fn focused_from(&self, old: &App, f: Focus) -> bool {
        &&& self.model == old.model
        &&& self.scroll == old.scroll
        &&& self.filters == old.filters
        &&& self.filename == old.filename
        &&& self.save_prompt == old.save_prompt
        &&& self.save_status == old.save_status
        &&& self.focus == f
    }

    /// The typed text after `key`: a character appended, or the last one removed.
    pub open spec fn edited(text: Seq<char>, key: Key) -> Seq<char> {
        match key {
            Key::Backspace => if text.len() > 0 {
                text.drop_last()
            } else {
                text
            },
            Key::Char(c) => text.push(c),
            _ => text,
        }
    }
}

/// The effect of a key while the table has the keyboard.
pub open spec fn table_key(old: App, new: App, key: Key, quit: bool) -> bool {
    let sel = old.scroll.selected as int;
    let rows = old.rows() as int;
    let vis = old.scroll.visible_rows as int;
    match key {
        Key::Char('q') => quit && new == old,
        Key::Down | Key::Char('j') => !quit && new.moved_to(&old, next_selected(sel, rows)),
        Key::Up | Key::Char('k') => !quit && new.moved_to(&old, prev_selected(sel)),
        Key::Home | Key::Char('g') => !quit && (old.model.wf() ==> new.wf()) && new.same_but_scroll(&old)
            && new.scroll.selected == 0 && new.scroll.scroll_offset == 0,
        Key::End | Key::Char('G') => !quit && new.moved_to(&old, last_selected(sel, rows)),
        Key::PageDown => !quit && new.moved_to(&old, page_down_selected(sel, vis, rows)),
        Key::PageUp => !quit && new.moved_to(&old, page_up_selected(sel, vis)),
        Key::Char(' ') => !quit && new.toggled_from(&old),
        Key::Char('/') => !quit && new.focused_from(&old, Focus::MessageFilter),
        Key::Char('l') | Key::Tab => !quit && new.focused_from(&old, Focus::LoggerFilter),
        Key::Char('v') => !quit && new.filters.min_level == old.filters.min_level.spec_cycled()
            && new.filters.logger == old.filters.logger && new.filters.message
            == old.filters.message && new.refiltered_from(&old),
        Key::Char('s') => !quit && new.model == old.model && new.scroll == old.scroll
            && new.filters == old.filters && new.filename == old.filename && new.save_prompt@.len()
            == 0 && new.save_status is None && new.focus == Focus::SavePrompt,
        _ => !quit && new == old,
    }
}

/// The effect of a key while a filter field has the keyboard: `logger` tells
/// which field, `other` is the focus that Tab moves to.
pub open spec fn filter_key(old: App, new: App, key: Key, logger: bool, other: Focus) -> bool {
    match key {
        Key::Esc | Key::Enter => new.focused_from(&old, Focus::Table),
        Key::Tab => new.focused_from(&old, other),
        Key::Backspace | Key::Char(_) => {
            &&& new.filters.min_level == old.filters.min_level
            &&& if logger {
                &&& new.filters.logger@ == App::edited(old.filters.logger@, key)
                &&& new.filters.message == old.filters.message
            } else {
                &&& new.filters.message@ == App::edited(old.filters.message@, key)
                &&& new.filters.logger == old.filters.logger
            }
            &&& new.refiltered_from(&old)
        },
        _ => new == old,
    }
}

/// The effect of a key at the save prompt; `saved` is the path handed back
/// for writing, if any.
pub open spec fn save_key(old: App, new: App, key: Key, saved: Option<Seq<char>>) -> bool {
    match key {
        Key::Esc => saved is None && new.model == old.model && new.scroll == old.scroll
            && new.filters == old.filters && new.filename == old.filename && new.save_prompt
            == old.save_prompt && new.save_status is None && new.focus == Focus::Table,
        Key::Enter => saved == Some(old.save_prompt@) && new.focused_from(&old, Focus::Table),
        Key::Backspace | Key::Char(_) => saved is None && new.model == old.model && new.scroll
            == old.scroll && new.filters == old.filters && new.filename == old.filename
            && new.save_status == old.save_status && new.focus == old.focus && new.save_prompt@
            == App::edited(old.save_prompt@, key),
        _ => saved is None && new == old,
    }
}

/// A key typed in a filter field edits only that field: Backspace drops the
/// last character of the focused field's text (nothing when it is empty), a
/// character is appended to it, and the other field's text and the minimum
/// level stay as they were; any other key leaves both texts as they were.
pub proof fn lemma_filter_key_edits_own_field(
    old: App,
    new: App,
    key: Key,
    logger: bool,
    other: Focus,
)
    requires
        filter_key(old, new, key, logger, other),
    ensures
        new.filters.min_level == old.filters.min_level,
        logger ==> new.filters.message@ == old.filters.message@,
        !logger ==> new.filters.logger@ == old.filters.logger@,
        key == Key::Backspace ==> (if logger {
            new.filters.logger@
        } else {
            new.filters.message@
        }) == (if logger {
            old.filters.logger@
        } else {
            old.filters.message@
        }).take(
            if (if logger {
                old.filters.logger@
            } else {
                old.filters.message@
            }).len() > 0 {
                (if logger {
                    old.filters.logger@
                } else {
                    old.filters.message@
                }).len() - 1
            } else {
                0
            },
        ),
        forall|c: char|
            key == Key::Char(c) ==> (if logger {
                new.filters.logger@
            } else {
                new.filters.message@
            }) == (if logger {
                old.filters.logger@
            } else {
                old.filters.message@
            }) + seq![c],
        !(key is Backspace) && !(key is Char) ==> new.filters.logger@ == old.filters.logger@
            && new.filters.message@ == old.filters.message@,
{
    let t = if logger {
        old.filters.logger@
    } else {
        old.filters.message@
    };
    if key == Key::Backspace && t.len() > 0 {
        assert(t.drop_last() =~= t.take(t.len() - 1));
    }
    if key == Key::Backspace && t.len() == 0 {
        assert(t =~= t.take(0));
    }
    if let Key::Char(c) = key {
        assert(t.push(c) =~= t + seq![c]);
    }
}

fn handle_table(app: &mut App, key: Key) -> (quit: bool)
    requires
        old(app).wf(),
    ensures
        table_key(*old(app), *final(app), key, quit),
{
    match key {
        Key::Char('q') => return true,
        Key::Down | Key::Char('j') => app.next_row(),
        Key::Up | Key::Char('k') => app.prev_row(),
        Key::Home | Key::Char('g') => app.first_row(),
        Key::End | Key::Char('G') => app.last_row(),
        Key::PageDown => app.page_down(),
        Key::PageUp => app.page_up(),
        Key::Char(' ') => app.toggle_expand(),
        Key::Char('/') => app.focus = Focus::MessageFilter,
        Key::Char('l') | Key::Tab => app.focus = Focus::LoggerFilter,
        Key::Char('v') => app.cycle_level(),
        Key::Char('s') => {
            app.save_prompt = String::new();
            app.save_status = None;
            app.focus = Focus::SavePrompt;
        },
        _ => {},
    }
    false
}

fn handle_filter_logger(app: &mut App, key: Key)
    requires
        old(app).wf(),
    ensures
        filter_key(*old(app), *final(app), key, true, Focus::MessageFilter),
{
    match key {
        Key::Esc | Key::Enter => app.focus = Focus::Table,
        Key::Tab => app.focus = Focus::MessageFilter,
        Key::Backspace => {
            pop_char(&mut app.filters.logger);
            app.apply_filters();
        },
        Key::Char(c) => {
            push_char(&mut app.filters.logger, c);
            app.apply_filters();
        },
        _ => {},
    }
}

fn handle_filter_message(app: &mut App, key: Key)
    requires
        old(app).wf(),
    ensures
        filter_key(*old(app), *final(app), key, false, Focus::LoggerFilter),
{
    match key {
        Key::Esc | Key::Enter => app.focus = Focus::Table,
        Key::Tab => app.focus = Focus::LoggerFilter,
        Key::Backspace => {
            pop_char(&mut app.filters.message);
            app.apply_filters();
        },
        Key::Char(c) => {
            push_char(&mut app.filters.message, c);
            app.apply_filters();
        },
        _ => {},
    }
}

fn handle_save_prompt(app: &mut App, key: Key) -> (saved: Option<String>)
    requires
        old(app).wf(),
    ensures
        final(app).wf(),
        save_key(
            *old(app),
            *final(app),
            key,
            match saved {
                Some(p) => Some(p@),
                None => None,
            },
        ),
{
    match key {
        Key::Esc => {
            app.save_status = None;
            app.focus = Focus::Table;
            None
        },
        Key::Enter => {
            let path = app.save_prompt.clone();
            app.focus = Focus::Table;
            Some(path)
        },
        Key::Backspace => {
            pop_char(&mut app.save_prompt);
            None
        },
        Key::Char(c) => {
            push_char(&mut app.save_prompt, c);
            None
        },
        _ => None,
    }
}

/// Handles one key: what it does depends on which part of the screen has the
/// keyboard. Returns what the caller has to do next.
pub fn handle_key(app: &mut App, key: Key) -> (r: KeyOutcome)
    requires
        old(app).wf(),
    ensures
        final(app).wf(),
        old(app).focus == Focus::LoggerFilter ==> final(app).filters.message@ == old(app).filters.message@,
        old(app).focus == Focus::MessageFilter ==> final(app).filters.logger@ == old(app).filters.logger@,
        old(app).focus == Focus::LoggerFilter && key == Key::Backspace ==> final(app).filters.logger@
            == old(app).filters.logger@.take(
            if old(app).filters.logger@.len() > 0 {
                old(app).filters.logger@.len() - 1
            } else {
                0
            },
        ),
        old(app).focus == Focus::MessageFilter && key == Key::Backspace ==> final(app).filters.message@
            == old(app).filters.message@.take(
            if old(app).filters.message@.len() > 0 {
                old(app).filters.message@.len() - 1
            } else {
                0
            },
        ),
        forall|c: char|
            old(app).focus == Focus::LoggerFilter && key == Key::Char(c) ==> final(app).filters.logger@
                == old(app).filters.logger@ + seq![c],
        forall|c: char|
            old(app).focus == Focus::MessageFilter && key == Key::Char(c) ==> final(app).filters.message@
                == old(app).filters.message@ + seq![c],
        (r is Quit) <==> (old(app).focus == Focus::Table && key == Key::Char('q')),
        old(app).focus == Focus::SavePrompt ==> final(app).filters == old(app).filters
            && final(app).model == old(app).model,
        old(app).focus == Focus::SavePrompt && key == Key::Backspace ==> final(app).save_prompt@
            == old(app).save_prompt@.take(
            if old(app).save_prompt@.len() > 0 {
                old(app).save_prompt@.len() - 1
            } else {
                0
            },
        ),
        forall|c: char|
            old(app).focus == Focus::SavePrompt && key == Key::Char(c) ==> final(app).save_prompt@
                == old(app).save_prompt@ + seq![c],
        old(app).focus == Focus::SavePrompt && key == Key::Esc ==> final(app).save_status is None,
        (r is Save) ==> old(app).focus == Focus::SavePrompt && key == Key::Enter,
        old(app).focus == Focus::SavePrompt && key == Key::Enter ==> match r {
            KeyOutcome::Save(p) => p@ == old(app).save_prompt@ && final(app).focus == Focus::Table,
            _ => false,
        },
        old(app).focus == Focus::Table && (key == Key::Down || key == Key::Char('j'))
            ==> final(app).scroll.selected == (if old(app).scroll.selected + 1 < old(app).model.filtered_indices@.len() {
            old(app).scroll.selected + 1
        } else {
            old(app).scroll.selected as int
        }),
        old(app).focus == Focus::Table && (key == Key::Up || key == Key::Char('k'))
            ==> final(app).scroll.selected == (if old(app).scroll.selected > 0 {
            old(app).scroll.selected - 1
        } else {
            0
        }),
        old(app).focus == Focus::Table && (key == Key::Home || key == Key::Char('g'))
            ==> final(app).scroll.selected == 0 && final(app).scroll.scroll_offset == 0,
        old(app).focus == Focus::Table && (key == Key::End || key == Key::Char('G'))
            && old(app).model.filtered_indices@.len() > 0 ==> final(app).scroll.selected == old(app).model.filtered_indices@.len() - 1,
        old(app).focus == Focus::Table && key == Key::Char('/') ==> final(app).focus
            == Focus::MessageFilter,
        old(app).focus == Focus::Table && (key == Key::Char('l') || key == Key::Tab) ==> final(app).focus == Focus::LoggerFilter,
        old(app).focus == Focus::Table && key == Key::Char('s') ==> final(app).focus
            == Focus::SavePrompt && final(app).save_prompt@.len() == 0,
        old(app).focus != Focus::Table && (key == Key::Esc || key == Key::Enter) ==> final(app).focus
            == Focus::Table && final(app).filters == old(app).filters,
        old(app).focus == Focus::LoggerFilter && key == Key::Tab ==> final(app).focus
            == Focus::MessageFilter,
        old(app).focus == Focus::MessageFilter && key == Key::Tab ==> final(app).focus
            == Focus::LoggerFilter,
        old(app).focus == Focus::Table && key != Key::Char(' ') && key != Key::Char('v') ==> final(app).model == old(app).model && final(app).filters == old(app).filters,
        match old(app).focus {
            Focus::Table => table_key(*old(app), *final(app), key, r is Quit) && !(r is Save),
            Focus::LoggerFilter => r is Continue && filter_key(
                *old(app),
                *final(app),
                key,
                true,
                Focus::MessageFilter,
            ),
            Focus::MessageFilter => r is Continue && filter_key(
                *old(app),
                *final(app),
                key,
                false,
                Focus::LoggerFilter,
            ),
            Focus::SavePrompt => !(r is Quit) && save_key(
                *old(app),
                *final(app),
                key,
                match r {
                    KeyOutcome::Save(p) => Some(p@),
                    _ => None,
                },
            ),
        },
{
    let ghost old_app = *app;
    match app.focus {
        Focus::Table => {
            if handle_table(app, key) {
                KeyOutcome::Quit
            } else {
                KeyOutcome::Continue
            }
        },
        Focus::LoggerFilter => {
            handle_filter_logger(app, key);
            proof {
                lemma_filter_key_edits_own_field(old_app, *app, key, true, Focus::MessageFilter);
            }
            KeyOutcome::Continue
        },
        Focus::MessageFilter => {
            handle_filter_message(app, key);
            proof {
                lemma_filter_key_edits_own_field(old_app, *app, key, false, Focus::LoggerFilter);
            }
            KeyOutcome::Continue
        },
        Focus::SavePrompt => {
            let saved = handle_save_prompt(app, key);
            proof {
                let t = old_app.save_prompt@;
                if t.len() > 0 {
                    assert(t.drop_last() =~= t.take(t.len() - 1));
                } else {
                    assert(t =~= t.take(0));
                }
                if let Key::Char(c) = key {
                    assert(t.push(c) =~= t + seq![c]);
                }
            }
            match saved {
                Some(path) => KeyOutcome::Save(path),
                None => KeyOutcome::Continue,
            }
        },
    }
}

} // verus!
