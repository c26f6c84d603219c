//! What the journal does with the files it opens and saves, and the check of a
//! typed date.
use vstd::prelude::*;
use super::state::App;
use super::types::AppMode;
use crate::dates::{all_digits, digits_date, is_all_digits, is_valid_date, parse_entry_date, char_count};

verus! {

impl App {
    /// Shows the text `content` of the file at `path`: cursor and scrolling at the start,
    /// nothing unsaved, preview mode.
    pub fn open_file_contents(&mut self, path: String, content: String)
        ensures
            final(self).current_path == Some(path),
            final(self).content == content,
            final(self).cursor_row == 0 && final(self).cursor_col == 0,
            final(self).view_scroll == 0,
            !final(self).dirty,
            final(self).mode == AppMode::Preview,
            final(self).files == old(self).files,
            final(self).tree_root == old(self).tree_root,
            final(self).flat_nodes == old(self).flat_nodes,
            final(self).selected_index == old(self).selected_index,
            final(self).focus == old(self).focus,
            final(self).date_input == old(self).date_input,
            final(self).date_error == old(self).date_error,
            final(self).save_choice == old(self).save_choice,
    {
        self.current_path = Some(path);
        self.content = content;
        self.cursor_row = 0;
        self.cursor_col = 0;
        self.view_scroll = 0;
        self.dirty = false;
        self.mode = AppMode::Preview;
    }

    /// The name of the entry file of a date typed `YYYYMMDD`.
    pub fn file_name_for_date(yyyymmdd: &str) -> (name: String)
        ensures
            name@ == yyyymmdd@ + ".md"@,
    {
        let mut name = String::from_str(yyyymmdd);
        crate::text::append_str(&mut name, ".md");
        name
    }

    /// Switches to editing the open text with the cursor at its end.
    pub fn begin_editing(&mut self)
        ensures
            final(self).mode == AppMode::Edit,
            (final(self).cursor_row as int, final(self).cursor_col as int)
                == super::editor::spec_cursor_end(old(self).content@),
            final(self).content == old(self).content,
            final(self).dirty == old(self).dirty,
            final(self).current_path == old(self).current_path,
            final(self).cursor_in_text(),
    {
        self.mode = AppMode::Edit;
        self.move_cursor_to_end();
    }

    /// Records that the open text was written to its file.
    pub fn mark_saved(&mut self)
        ensures
            !final(self).dirty,
            final(self).content == old(self).content,
            final(self).mode == old(self).mode,
            final(self).current_path == old(self).current_path,
    {
        self.dirty = false;
    }

    /// Replaces the text with what its file holds again, dropping the changes.
    pub fn reload_contents(&mut self, content: String)
        ensures
            final(self).content == content,
            !final(self).dirty,
            final(self).mode == old(self).mode,
            final(self).current_path == old(self).current_path,
    {
        self.content = content;
        self.dirty = false;
    }

    /// Checks a typed date: eight ASCII digits that name a calendar date.
    pub fn validate_date(input: &str) -> (r: Result<(), &'static str>)
        ensures
            match r {
                Ok(()) => input@.len() == 8 && all_digits(input@) && is_valid_date(
                    digits_date(input@).0,
                    digits_date(input@).1,
                    digits_date(input@).2,
                ),
                Err(msg) => if input@.len() == 8 && all_digits(input@) {
                    !is_valid_date(digits_date(input@).0, digits_date(input@).1, digits_date(input@).2)
                        && msg@ == "Invalid calendar date."@
                } else {
                    msg@ == "Invalid date. Use YYYYMMDD."@
                },
            },
    {
        if char_count(input) != 8 || !is_all_digits(input) {
            return Err("Invalid date. Use YYYYMMDD.");
        }
        if parse_entry_date(input).is_none() {
            return Err("Invalid calendar date.");
        }
        Ok(())
    }
}

} // verus!
