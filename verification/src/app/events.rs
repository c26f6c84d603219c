//! Keystrokes: what each key does in each mode of the journal.  Work that needs
//! the outside world (saving, reading a file, the current date) is handed back
//! as an action.
use vstd::prelude::*;
use super::state::App;
use super::types::{AppMode, Focus};
use super::editor::{
    spec_backspace, spec_cursor_end, spec_delete, spec_insert_char, spec_insert_newline,
    spec_move_down, spec_move_left, spec_move_right, spec_move_up,
};
use super::navigation::{moved_selection, selected_day_file, toggled};
use crate::dates::{all_digits, digits_date, is_valid_date};
use crate::text::{byte_len, pop_char, push_char, utf8_len};

verus! {

/// A key, as the terminal reports it.
#[derive(Clone, Copy, Debug, PartialEq, Eq, Structural)]
pub enum KeyCode {
    Char(char),
    Tab,
    Up,
    Down,
    Left,
    Right,
    Enter,
    Esc,
    Backspace,
    Delete,
    Other,
}

/// A key with the state of the Control and Super (Command) modifiers.
#[derive(Clone, Copy, Debug, PartialEq, Eq, Structural)]
pub struct KeyPress {
    pub code: KeyCode,
    pub control: bool,
    pub super_key: bool,
}

/// What remains to be done after a key, outside the journal's state.
#[derive(Clone, Debug, PartialEq, Eq)]
pub enum KeyAction {
    /// Nothing: keep running.
    Continue,
    /// Leave the journal.
    Quit,
    /// Put today's date, `YYYYMMDD`, at the date prompt.
    FillToday,
    /// Open the named entry file (a failure is ignored).
    OpenFile(String),
    /// Save the open text.
    Save,
    /// Save the open text, then return to preview.
    SaveThenPreview,
    /// Read the open file again, dropping the changes, then return to preview.
    ReloadThenPreview,
    /// Open the entry of the given date for editing, creating it when missing.
    OpenOrCreate(String),
}

/// `new` is `old` with text, cursor and dirty flag `t`, `dirty`.
pub open spec fn text_now(old: App, new: App, t: (Seq<char>, int, int), dirty: bool) -> bool {
    &&& new.content@ == t.0
    &&& new.cursor_row as int == t.1
    &&& new.cursor_col as int == t.2
    &&& new.dirty == dirty
    &&& new.same_but_text(&old)
}

/// `new` is `old` with the cursor at `c`.
pub open spec fn cursor_now(old: App, new: App, c: (int, int)) -> bool {
    &&& new.cursor_row as int == c.0
    &&& new.cursor_col as int == c.1
    &&& new.content == old.content
    &&& new.dirty == old.dirty
    &&& new.same_but_text(&old)
}

/// A key in preview mode.
pub open spec fn preview_post(old: App, new: App, key: KeyPress, act: KeyAction) -> bool {
    match key.code {
        KeyCode::Char(c) => if c == 'n' {
            new == App { date_error: None, mode: AppMode::DatePrompt, ..old } && act
                == KeyAction::FillToday
        } else if c == 'e' {
            act == KeyAction::Continue && if old.current_path is Some {
                &&& (new.cursor_row as int, new.cursor_col as int) == spec_cursor_end(old.content@)
                &&& new == App {
                    mode: AppMode::Edit,
                    cursor_row: new.cursor_row,
                    cursor_col: new.cursor_col,
                    ..old
                }
            } else {
                new == old
            }
        } else {
            new == old && act == KeyAction::Continue
        },
        KeyCode::Tab => new == App {
            focus: if old.focus == Focus::Tree {
                Focus::Content
            } else {
                Focus::Tree
            },
            ..old
        } && act == KeyAction::Continue,
        KeyCode::Up => if old.focus == Focus::Tree {
            match act {
                KeyAction::OpenFile(f) => moved_selection(old, new, -1, Some(f)),
                KeyAction::Continue => moved_selection(old, new, -1, None),
                _ => false,
            }
        } else {
            new == App {
                view_scroll: if old.view_scroll > 0 {
                    (old.view_scroll - 1) as usize
                } else {
                    0
                },
                ..old
            } && act == KeyAction::Continue
        },
        KeyCode::Down => if old.focus == Focus::Tree {
            match act {
                KeyAction::OpenFile(f) => moved_selection(old, new, 1, Some(f)),
                KeyAction::Continue => moved_selection(old, new, 1, None),
                _ => false,
            }
        } else {
            new == App {
                view_scroll: if old.view_scroll < usize::MAX {
                    (old.view_scroll + 1) as usize
                } else {
                    usize::MAX
                },
                ..old
            } && act == KeyAction::Continue
        },
        KeyCode::Left => toggled(old, new, false) && act == KeyAction::Continue,
        KeyCode::Right => toggled(old, new, true) && act == KeyAction::Continue,
        KeyCode::Enter => match selected_day_file(old) {
            Some(f) => new == App { focus: Focus::Content, ..old } && (act matches KeyAction::OpenFile(
                g,
            ) && g@ == f),
            None => new == old && act == KeyAction::Continue,
        },
        KeyCode::Esc => new == old && act == KeyAction::Quit,
        _ => new == old && act == KeyAction::Continue,
    }
}

/// A key in edit mode.
pub open spec fn edit_post(old: App, new: App, key: KeyPress, act: KeyAction) -> bool {
    let t = old.content@;
    let r = old.cursor_row as int;
    let c = old.cursor_col as int;
    match key.code {
        KeyCode::Char(ch) => if ch == 's' && (key.control || key.super_key) {
            new == old && act == KeyAction::Save
        } else if key.control {
            new == old && act == KeyAction::Continue
        } else {
            text_now(old, new, spec_insert_char(t, r, c, ch), true) && act == KeyAction::Continue
        },
        KeyCode::Esc => act == KeyAction::Continue && if old.dirty {
            new == App { mode: AppMode::SavePrompt, save_choice: 0, ..old }
        } else {
            new == App { mode: AppMode::Preview, ..old }
        },
        KeyCode::Left => cursor_now(old, new, spec_move_left(t, r, c)) && act == KeyAction::Continue,
        KeyCode::Right => cursor_now(old, new, spec_move_right(t, r, c)) && act == KeyAction::Continue,
        KeyCode::Up => cursor_now(old, new, spec_move_up(t, r, c)) && act == KeyAction::Continue,
        KeyCode::Down => cursor_now(old, new, spec_move_down(t, r, c)) && act == KeyAction::Continue,
        KeyCode::Backspace => text_now(
            old,
            new,
            spec_backspace(t, r, c),
            if r == 0 && c == 0 {
                old.dirty
            } else {
                true
            },
        ) && act == KeyAction::Continue,
        KeyCode::Delete => text_now(old, new, (spec_delete(t, r, c), r, c), true) && act
            == KeyAction::Continue,
        KeyCode::Enter => text_now(old, new, spec_insert_newline(t, r, c), true) && act
            == KeyAction::Continue,
        KeyCode::Tab => {
            let once = spec_insert_char(t, r, c, ' ');
            text_now(old, new, spec_insert_char(once.0, once.1, once.2, ' '), true) && act
                == KeyAction::Continue
        },
        _ => new == old && act == KeyAction::Continue,
    }
}

/// The date at the prompt is eight digits naming a calendar day.
pub open spec fn date_input_valid(s: Seq<char>) -> bool {
    s.len() == 8 && all_digits(s) && is_valid_date(digits_date(s).0, digits_date(s).1, digits_date(s).2)
}

/// A key at the date prompt.
pub open spec fn date_prompt_post(old: App, new: App, key: KeyPress, act: KeyAction) -> bool {
    let s = old.date_input@;
    match key.code {
        KeyCode::Esc => new == App { mode: AppMode::Preview, ..old } && act == KeyAction::Continue,
        KeyCode::Enter => if date_input_valid(s) {
            new == App { date_error: None, ..old } && (act matches KeyAction::OpenOrCreate(d) && d@
                == s)
        } else {
            &&& new == App { date_error: new.date_error, ..old }
            &&& (new.date_error matches Some(m) && m@ == (if s.len() == 8 && all_digits(s) {
                "Invalid calendar date."@
            } else {
                "Invalid date. Use YYYYMMDD."@
            }))
            &&& act == KeyAction::Continue
        },
        KeyCode::Backspace => {
            &&& new.date_input@ == (if s.len() > 0 {
                s.drop_last()
            } else {
                s
            })
            &&& new == App { date_input: new.date_input, date_error: None, ..old }
            &&& act == KeyAction::Continue
        },
        KeyCode::Char(c) => act == KeyAction::Continue && if '0' <= c <= '9' && byte_len(s) < 8 {
            new.date_input@ == s.push(c) && new == App { date_input: new.date_input, ..old }
        } else {
            new == old
        },
        _ => new == old && act == KeyAction::Continue,
    }
}

/// A key at the save prompt: left and right choose among save, discard and cancel.
pub open spec fn save_prompt_post(old: App, new: App, key: KeyPress, act: KeyAction) -> bool {
    match key.code {
        KeyCode::Left => new == App {
            save_choice: if old.save_choice > 0 {
                (old.save_choice - 1) as usize
            } else {
                old.save_choice
            },
            ..old
        } && act == KeyAction::Continue,
        KeyCode::Right => new == App {
            save_choice: if old.save_choice < 2 {
                (old.save_choice + 1) as usize
            } else {
                old.save_choice
            },
            ..old
        } && act == KeyAction::Continue,
        KeyCode::Enter => if old.save_choice == 0 {
            new == old && act == KeyAction::SaveThenPreview
        } else if old.save_choice == 1 {
            new == old && act == KeyAction::ReloadThenPreview
        } else {
            new == App { mode: AppMode::Edit, ..old } && act == KeyAction::Continue
        },
        KeyCode::Esc => new == App { mode: AppMode::Edit, ..old } && act == KeyAction::Continue,
        _ => new == old && act == KeyAction::Continue,
    }
}

impl App {
    /// Handles a key in the current mode.
    pub fn handle_key(&mut self, key: KeyPress) -> (act: KeyAction)
        requires
            old(self).mode == AppMode::Edit && key.code == KeyCode::Backspace ==> old(
                self,
            ).cursor_in_text(),
        ensures
            match old(self).mode {
                AppMode::Preview => preview_post(*old(self), *final(self), key, act),
                AppMode::Edit => edit_post(*old(self), *final(self), key, act),
                AppMode::DatePrompt => date_prompt_post(*old(self), *final(self), key, act),
                AppMode::SavePrompt => save_prompt_post(*old(self), *final(self), key, act),
            },
    {
        match self.mode {
            AppMode::Preview => self.handle_key_preview(key),
            AppMode::Edit => self.handle_key_edit(key),
            AppMode::DatePrompt => self.handle_key_date_prompt(key),
            AppMode::SavePrompt => self.handle_key_save_prompt(key),
        }
    }

    /// Handles a key in preview mode.
    pub fn handle_key_preview(&mut self, key: KeyPress) -> (act: KeyAction)
        ensures
            preview_post(*old(self), *final(self), key, act),
    {
        match key.code {
            KeyCode::Char(c) => {
                if c == 'n' {
                    self.date_error = None;
                    self.mode = AppMode::DatePrompt;
                    return KeyAction::FillToday;
                } else if c == 'e' {
                    if self.current_path.is_some() {
                        self.mode = AppMode::Edit;
                        self.move_cursor_to_end();
                    }
                }
                KeyAction::Continue
            },
            KeyCode::Tab => {
                self.focus = if self.focus == Focus::Tree {
                    Focus::Content
                } else {
                    Focus::Tree
                };
                KeyAction::Continue
            },
            KeyCode::Up => {
                if self.focus == Focus::Tree {
                    match self.move_selection(-1) {
                        Some(f) => KeyAction::OpenFile(f),
                        None => KeyAction::Continue,
                    }
                } else {
                    if self.view_scroll > 0 {
                        self.view_scroll = self.view_scroll - 1;
                    }
                    KeyAction::Continue
                }
            },
            KeyCode::Down => {
                if self.focus == Focus::Tree {
                    match self.move_selection(1) {
                        Some(f) => KeyAction::OpenFile(f),
                        None => KeyAction::Continue,
                    }
                } else {
                    if self.view_scroll < usize::MAX {
                        self.view_scroll = self.view_scroll + 1;
                    }
                    KeyAction::Continue
                }
            },
            KeyCode::Left => {
                self.toggle_expand_at_selected(false);
                KeyAction::Continue
            },
            KeyCode::Right => {
                self.toggle_expand_at_selected(true);
                KeyAction::Continue
            },
            KeyCode::Enter => {
                match self.selected_filename() {
                    Some(name) => {
                        let f = name.to_string();
                        self.focus = Focus::Content;
                        KeyAction::OpenFile(f)
                    },
                    None => KeyAction::Continue,
                }
            },
            KeyCode::Esc => KeyAction::Quit,
            _ => KeyAction::Continue,
        }
    }

    /// Handles a key in edit mode.
    pub fn handle_key_edit(&mut self, key: KeyPress) -> (act: KeyAction)
        requires
            key.code == KeyCode::Backspace ==> old(self).cursor_in_text(),
        ensures
            edit_post(*old(self), *final(self), key, act),
    {
        match key.code {
            KeyCode::Char(ch) => {
                if ch == 's' && (key.control || key.super_key) {
                    return KeyAction::Save;
                }
                if !key.control {
                    self.insert_char(ch);
                }
            },
            KeyCode::Esc => {
                if self.dirty {
                    self.mode = AppMode::SavePrompt;
                    self.save_choice = 0;
                } else {
                    self.mode = AppMode::Preview;
                }
            },
            KeyCode::Left => self.move_left(),
            KeyCode::Right => self.move_right(),
            KeyCode::Up => self.move_up(),
            KeyCode::Down => self.move_down(),
            KeyCode::Backspace => self.backspace(),
            KeyCode::Delete => self.delete(),
            KeyCode::Enter => self.insert_newline(),
            KeyCode::Tab => {
                self.insert_char(' ');
                self.insert_char(' ');
            },
            _ => {},
        }
        KeyAction::Continue
    }

    /// Handles a key at the date prompt.
    pub fn handle_key_date_prompt(&mut self, key: KeyPress) -> (act: KeyAction)
        ensures
            date_prompt_post(*old(self), *final(self), key, act),
    {
        match key.code {
            KeyCode::Esc => {
                self.mode = AppMode::Preview;
                KeyAction::Continue
            },
            KeyCode::Enter => {
                match App::validate_date(self.date_input.as_str()) {
                    Ok(()) => {
                        self.date_error = None;
                        KeyAction::OpenOrCreate(self.date_input.clone())
                    },
                    Err(msg) => {
                        self.date_error = Some(msg.to_string());
                        KeyAction::Continue
                    },
                }
            },
            KeyCode::Backspace => {
                pop_char(&mut self.date_input);
                self.date_error = None;
                KeyAction::Continue
            },
            KeyCode::Char(c) => {
                if '0' <= c && c <= '9' && utf8_len(self.date_input.as_str()) < 8 {
                    push_char(&mut self.date_input, c);
                }
                KeyAction::Continue
            },
            _ => KeyAction::Continue,
        }
    }

    /// Handles a key at the save prompt.
    pub fn handle_key_save_prompt(&mut self, key: KeyPress) -> (act: KeyAction)
        ensures
            save_prompt_post(*old(self), *final(self), key, act),
    {
        match key.code {
            KeyCode::Left => {
                if self.save_choice > 0 {
                    self.save_choice = self.save_choice - 1;
                }
                KeyAction::Continue
            },
            KeyCode::Right => {
                if self.save_choice < 2 {
                    self.save_choice = self.save_choice + 1;
                }
                KeyAction::Continue
            },
            KeyCode::Enter => {
                if self.save_choice == 0 {
                    KeyAction::SaveThenPreview
                } else if self.save_choice == 1 {
                    KeyAction::ReloadThenPreview
                } else {
                    self.mode = AppMode::Edit;
                    KeyAction::Continue
                }
            },
            KeyCode::Esc => {
                self.mode = AppMode::Edit;
                KeyAction::Continue
            },
            _ => KeyAction::Continue,
        }
    }
}


/// A text takes at least one byte per character.
proof fn lemma_chars_within_bytes(s: Seq<char>)
    ensures
        s.len() <= byte_len(s),
    decreases s.len(),
{
    if s.len() > 0 {
        lemma_chars_within_bytes(s.drop_last());
    }
}

/// Whatever key is pressed at the date prompt, an input of at most eight ASCII digits
/// stays one.
pub proof fn law_date_input_stays_digits(old: App, new: App, key: KeyPress, act: KeyAction)
    requires
        date_prompt_post(old, new, key, act),
        old.date_input@.len() <= 8,
        all_digits(old.date_input@),
    ensures
        new.date_input@.len() <= 8,
        all_digits(new.date_input@),
{
    let s = old.date_input@;
    lemma_chars_within_bytes(s);
    match key.code {
        KeyCode::Backspace => {
            if s.len() > 0 {
                assert forall|i: int| 0 <= i < s.drop_last().len() implies crate::dates::is_digit(
                    #[trigger] s.drop_last()[i],
                ) by {
                    assert(s.drop_last()[i] == s[i]);
                }
            }
        },
        KeyCode::Char(c) => {
            if '0' <= c <= '9' && byte_len(s) < 8 {
                assert forall|i: int| 0 <= i < s.push(c).len() implies crate::dates::is_digit(
                    #[trigger] s.push(c)[i],
                ) by {
                    if i < s.len() {
                        assert(s.push(c)[i] == s[i]);
                    }
                }
            }
        },
        _ => {},
    }
}

} // verus!
