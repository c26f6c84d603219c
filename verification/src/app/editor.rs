//! The editor: the open text is a list of lines, and the cursor is a line
//! number and a character position in that line.
use vstd::prelude::*;
use crate::text::{
    all_plain, chars_of, join_lines, join_lines_vec, lemma_join_split, lemma_split_join,
    lemma_split_lines_shape, lines_view, no_newline, split_lines, split_lines_vec,
    string_from_chars,
};
use super::state::App;

verus! {

/// The smaller of two integers.
pub open spec fn min_int(a: int, b: int) -> int {
    if a < b {
        a
    } else {
        b
    }
}

/// The line a cursor on `row` works on: `row`, or the last line when `row` is past the end.
pub open spec fn clamp_row(ls: Seq<Seq<char>>, row: int) -> int {
    if row < ls.len() {
        row
    } else {
        ls.len() - 1
    }
}

/// The length of line `row` of `t`, or 0 when there is no such line.
pub open spec fn line_len_or_zero(t: Seq<char>, row: int) -> int {
    if 0 <= row < split_lines(t).len() {
        split_lines(t)[row].len() as int
    } else {
        0
    }
}

/// Text and cursor after typing `ch`: it goes into the cursor's line (the last one when
/// the cursor is below the text) at the cursor's column (the line's end when past it),
/// and the cursor stands after it.
pub open spec fn spec_insert_char(t: Seq<char>, row: int, col: int, ch: char) -> (Seq<char>, int, int) {
    let ls = split_lines(t);
    let r = clamp_row(ls, row);
    let c = min_int(col, ls[r].len() as int);
    (join_lines(ls.update(r, ls[r].insert(c, ch))), row, c + 1)
}

/// Text and cursor after a backspace: the character before the cursor goes, or, at the
/// start of a line, the line joins the one above.
pub open spec fn spec_backspace(t: Seq<char>, row: int, col: int) -> (Seq<char>, int, int) {
    let ls = split_lines(t);
    if row == 0 && col == 0 {
        (t, row, col)
    } else if col > 0 {
        if col <= ls[row].len() {
            (join_lines(ls.update(row, ls[row].remove(col - 1))), row, col - 1)
        } else {
            (join_lines(ls), row, col)
        }
    } else {
        (
            join_lines(ls.remove(row).update(row - 1, ls[row - 1] + ls[row])),
            row - 1,
            ls[row - 1].len() as int,
        )
    }
}

/// Text after a delete: the character under the cursor goes, or, at the end of a line,
/// the next line joins it.  The cursor stays.
pub open spec fn spec_delete(t: Seq<char>, row: int, col: int) -> Seq<char> {
    let ls = split_lines(t);
    let r = clamp_row(ls, row);
    if col < ls[r].len() {
        join_lines(ls.update(r, ls[r].remove(col)))
    } else if r + 1 < ls.len() {
        join_lines(ls.remove(r + 1).update(r, ls[r] + ls[r + 1]))
    } else {
        join_lines(ls)
    }
}

/// Text and cursor after Enter: the cursor's line splits at the cursor, and the cursor
/// goes to the start of the new line.
pub open spec fn spec_insert_newline(t: Seq<char>, row: int, col: int) -> (Seq<char>, int, int) {
    let ls = split_lines(t);
    let r = clamp_row(ls, row);
    let c = min_int(col, ls[r].len() as int);
    (join_lines(ls.update(r, ls[r].take(c)).insert(r + 1, ls[r].skip(c))), r + 1, 0)
}

/// The cursor after moving left: one character back, or to the end of the line above.
pub open spec fn spec_move_left(t: Seq<char>, row: int, col: int) -> (int, int) {
    if col > 0 {
        (row, col - 1)
    } else if row > 0 {
        (row - 1, line_len_or_zero(t, row - 1))
    } else {
        (row, col)
    }
}

/// The cursor after moving right: one character on, or to the start of the line below.
pub open spec fn spec_move_right(t: Seq<char>, row: int, col: int) -> (int, int) {
    let ls = split_lines(t);
    let len = ls[clamp_row(ls, row)].len() as int;
    if col < len {
        (row, col + 1)
    } else if row + 1 < ls.len() {
        (row + 1, 0)
    } else {
        (row, col)
    }
}

/// The cursor after moving up: the line above, the column cut to that line's length.
pub open spec fn spec_move_up(t: Seq<char>, row: int, col: int) -> (int, int) {
    if row > 0 {
        (row - 1, min_int(col, line_len_or_zero(t, row - 1)))
    } else {
        (row, col)
    }
}

/// The cursor after moving down: the line below, the column cut to that line's length.
pub open spec fn spec_move_down(t: Seq<char>, row: int, col: int) -> (int, int) {
    let ls = split_lines(t);
    if row + 1 < ls.len() {
        (row + 1, min_int(col, ls[row + 1].len() as int))
    } else {
        (row, col)
    }
}

/// The cursor at the end of the text: last line, after its last character.
pub open spec fn spec_cursor_end(t: Seq<char>) -> (int, int) {
    let ls = split_lines(t);
    (ls.len() - 1, ls.last().len() as int)
}

impl App {
    /// The cursor stands on a line of the text.
    pub open spec fn cursor_in_text(&self) -> bool {
        self.cursor_row < split_lines(self.content@).len()
    }

    /// Whether the cursor stands on a line of the text (what deleting backwards needs).
    pub fn is_cursor_in_text(&self) -> (r: bool)
        ensures
            r == self.cursor_in_text(),
    {
        let lines = self.text_lines();
        proof {
            assert(lines_view(lines@).len() == lines@.len());
        }
        self.cursor_row < lines.len()
    }

    /// The lines of the open text.
    fn text_lines(&self) -> (lines: Vec<Vec<char>>)
        ensures
            lines_view(lines@) == split_lines(self.content@),
            lines@.len() >= 1,
    {
        let chars = chars_of(self.content.as_str());
        split_lines_vec(&chars)
    }

    /// Replaces the open text by the given lines joined.
    fn set_text_lines(&mut self, lines: &Vec<Vec<char>>)
        ensures
            final(self).content@ == join_lines(lines_view(lines@)),
            final(self).same_but_text(old(self)),
            final(self).cursor_row == old(self).cursor_row,
            final(self).cursor_col == old(self).cursor_col,
            final(self).dirty == old(self).dirty,
    {
        let text = join_lines_vec(lines);
        self.content = string_from_chars(&text);
    }

    /// Puts the cursor after the last character of the text.
    pub fn move_cursor_to_end(&mut self)
        ensures
            (final(self).cursor_row as int, final(self).cursor_col as int) == spec_cursor_end(
                old(self).content@,
            ),
            final(self).content == old(self).content,
            final(self).dirty == old(self).dirty,
            final(self).same_but_text(old(self)),
            final(self).cursor_in_text(),
    {
        let lines = self.text_lines();
        let last = lines.len() - 1;
        self.cursor_row = last;
        self.cursor_col = lines[last].len();
    }

    /// Types `ch` at the cursor.
    pub fn insert_char(&mut self, ch: char)
        ensures
            (final(self).content@, final(self).cursor_row as int, final(self).cursor_col as int)
                == spec_insert_char(
                old(self).content@,
                old(self).cursor_row as int,
                old(self).cursor_col as int,
                ch,
            ),
            final(self).dirty,
            final(self).same_but_text(old(self)),
            ch != '\n' && old(self).cursor_in_text() ==> final(self).cursor_in_text(),
    {
        let mut lines = self.text_lines();
        let row = if self.cursor_row < lines.len() {
            self.cursor_row
        } else {
            lines.len() - 1
        };
        let mut line = lines[row].clone();
        let col = if self.cursor_col < line.len() {
            self.cursor_col
        } else {
            line.len()
        };
        line.insert(col, ch);
        let _ = line.len();
        lines.set(row, line);
        self.set_text_lines(&lines);
        self.cursor_col = col + 1;
        self.dirty = true;
        proof {
            let ls = split_lines(old(self).content@);
            assert(lines_view(lines@) =~= ls.update(row as int, ls[row as int].insert(col as int, ch)));
            if ch != '\n' && old(self).cursor_in_text() {
                lemma_split_lines_shape(old(self).content@);
                lemma_insert_plain(ls, row as int, col as int, ch);
            }
        }
    }

    /// Removes the character before the cursor, or joins the cursor's line to the one above.
    pub fn backspace(&mut self)
        requires
            old(self).cursor_in_text(),
        ensures
            (final(self).content@, final(self).cursor_row as int, final(self).cursor_col as int)
                == spec_backspace(
                old(self).content@,
                old(self).cursor_row as int,
                old(self).cursor_col as int,
            ),
            final(self).dirty == (if old(self).cursor_row == 0 && old(self).cursor_col == 0 {
                old(self).dirty
            } else {
                true
            }),
            final(self).same_but_text(old(self)),
            final(self).cursor_in_text(),
    {
        if self.cursor_row == 0 && self.cursor_col == 0 {
            return;
        }
        let mut lines = self.text_lines();
        let row = self.cursor_row;
        let col = self.cursor_col;
        let ghost ls = split_lines(old(self).content@);
        proof {
            lemma_split_lines_shape(old(self).content@);
        }
        if col > 0 {
            let mut line = lines[row].clone();
            if col <= line.len() {
                let char_idx = col - 1;
                line.remove(char_idx);
                lines.set(row, line);
                self.cursor_col = char_idx;
                proof {
                    assert(lines_view(lines@) =~= ls.update(row as int, ls[row as int].remove(col - 1)));
                    lemma_remove_plain(ls, row as int, col - 1);
                }
            } else {
                proof {
                    assert(lines_view(lines@) =~= ls);
                }
            }
        } else {
            let prev_line_len = lines[row - 1].len();
            let current = lines.remove(row);
            self.cursor_row = row - 1;
            self.cursor_col = prev_line_len;
            let mut prev = lines[row - 1].clone();
            let mut k: usize = 0;
            let n = current.len();
            while k < n
                invariant
                    n == current@.len(),
                    k <= n,
                    prev@ == ls[row - 1] + current@.take(k as int),
                decreases n - k,
            {
                prev.push(current[k]);
                proof {
                    assert(current@.take(k + 1) =~= current@.take(k as int).push(current@[k as int]));
                    assert(ls[row - 1] + current@.take(k + 1) =~= (ls[row - 1] + current@.take(
                        k as int,
                    )).push(current@[k as int]));
                }
                k = k + 1;
            }
            proof {
                assert(current@.take(n as int) =~= current@);
            }
            lines.set(row - 1, prev);
            proof {
                assert(lines_view(lines@) =~= ls.remove(row as int).update(
                    row - 1,
                    ls[row - 1] + ls[row as int],
                ));
                lemma_join_lines_plain(ls, row as int);
            }
        }
        self.set_text_lines(&lines);
        self.dirty = true;
        proof {
            lemma_join_split(old(self).content@);
        }
    }

    /// Removes the character under the cursor, or joins the next line to the cursor's line.
    pub fn delete(&mut self)
        ensures
            final(self).content@ == spec_delete(
                old(self).content@,
                old(self).cursor_row as int,
                old(self).cursor_col as int,
            ),
            final(self).cursor_row == old(self).cursor_row,
            final(self).cursor_col == old(self).cursor_col,
            final(self).dirty,
            final(self).same_but_text(old(self)),
            old(self).cursor_in_text() ==> final(self).cursor_in_text(),
    {
        let mut lines = self.text_lines();
        let ghost ls = split_lines(old(self).content@);
        proof {
            lemma_split_lines_shape(old(self).content@);
        }
        let row = if self.cursor_row < lines.len() {
            self.cursor_row
        } else {
            lines.len() - 1
        };
        let mut line = lines[row].clone();
        if self.cursor_col < line.len() {
            line.remove(self.cursor_col);
            lines.set(row, line);
            proof {
                assert(lines_view(lines@) =~= ls.update(
                    row as int,
                    ls[row as int].remove(old(self).cursor_col as int),
                ));
                lemma_remove_plain(ls, row as int, old(self).cursor_col as int);
            }
        } else if row < lines.len() - 1 {
            let next = lines.remove(row + 1);
            let mut k: usize = 0;
            let n = next.len();
            while k < n
                invariant
                    n == next@.len(),
                    k <= n,
                    line@ == ls[row as int] + next@.take(k as int),
                decreases n - k,
            {
                line.push(next[k]);
                proof {
                    assert(next@.take(k + 1) =~= next@.take(k as int).push(next@[k as int]));
                    assert(ls[row as int] + next@.take(k + 1) =~= (ls[row as int] + next@.take(
                        k as int,
                    )).push(next@[k as int]));
                }
                k = k + 1;
            }
            proof {
                assert(next@.take(n as int) =~= next@);
            }
            lines.set(row, line);
            proof {
                assert(lines_view(lines@) =~= ls.remove(row + 1).update(
                    row as int,
                    ls[row as int] + ls[row + 1],
                ));
                lemma_join_lines_plain(ls, row + 1);
            }
        } else {
            proof {
                assert(lines_view(lines@) =~= ls);
            }
        }
        self.set_text_lines(&lines);
        self.dirty = true;
        proof {
            lemma_join_split(old(self).content@);
        }
    }

    /// Splits the cursor's line at the cursor and moves to the start of the new line.
    pub fn insert_newline(&mut self)
        ensures
            (final(self).content@, final(self).cursor_row as int, final(self).cursor_col as int)
                == spec_insert_newline(
                old(self).content@,
                old(self).cursor_row as int,
                old(self).cursor_col as int,
            ),
            final(self).dirty,
            final(self).same_but_text(old(self)),
            final(self).cursor_in_text(),
    {
        let mut lines = self.text_lines();
        let ghost ls = split_lines(old(self).content@);
        proof {
            lemma_split_lines_shape(old(self).content@);
        }
        let row = if self.cursor_row < lines.len() {
            self.cursor_row
        } else {
            lines.len() - 1
        };
        let line = lines[row].clone();
        let col = if self.cursor_col < line.len() {
            self.cursor_col
        } else {
            line.len()
        };
        let mut left: Vec<char> = Vec::new();
        let mut right: Vec<char> = Vec::new();
        let n = line.len();
        let mut k: usize = 0;
        while k < n
            invariant
                n == line@.len(),
                col <= n,
                k <= n,
                left@ == line@.take(min_int(k as int, col as int)),
                right@ == (if k <= col {
                    Seq::<char>::empty()
                } else {
                    line@.subrange(col as int, k as int)
                }),
            decreases n - k,
        {
            if k < col {
                left.push(line[k]);
                proof {
                    assert(line@.take(k + 1) =~= line@.take(k as int).push(line@[k as int]));
                }
            } else {
                right.push(line[k]);
                proof {
                    assert(line@.subrange(col as int, k + 1) =~= right@);
                }
            }
            k = k + 1;
        }
        proof {
            assert(right@ =~= line@.skip(col as int));
        }
        lines.set(row, left);
        lines.insert(row + 1, right);
        self.set_text_lines(&lines);
        self.cursor_row = row + 1;
        self.cursor_col = 0;
        self.dirty = true;
        proof {
            let l2 = ls.update(row as int, ls[row as int].take(col as int)).insert(
                row + 1,
                ls[row as int].skip(col as int),
            );
            assert(lines_view(lines@) =~= l2);
            lemma_split_plain(ls, row as int, col as int);
        }
    }

    /// Moves the cursor one character left, or to the end of the line above.
    pub fn move_left(&mut self)
        ensures
            (final(self).cursor_row as int, final(self).cursor_col as int) == spec_move_left(
                old(self).content@,
                old(self).cursor_row as int,
                old(self).cursor_col as int,
            ),
            final(self).content == old(self).content,
            final(self).dirty == old(self).dirty,
            final(self).same_but_text(old(self)),
            old(self).cursor_in_text() ==> final(self).cursor_in_text(),
    {
        if self.cursor_col > 0 {
            self.cursor_col = self.cursor_col - 1;
        } else if self.cursor_row > 0 {
            let lines = self.text_lines();
            let row = self.cursor_row - 1;
            self.cursor_row = row;
            self.cursor_col = if row < lines.len() {
                lines[row].len()
            } else {
                0
            };
        }
    }

    /// Moves the cursor one character right, or to the start of the line below.
    pub fn move_right(&mut self)
        ensures
            (final(self).cursor_row as int, final(self).cursor_col as int) == spec_move_right(
                old(self).content@,
                old(self).cursor_row as int,
                old(self).cursor_col as int,
            ),
            final(self).content == old(self).content,
            final(self).dirty == old(self).dirty,
            final(self).same_but_text(old(self)),
            old(self).cursor_in_text() ==> final(self).cursor_in_text(),
    {
        let lines = self.text_lines();
        let row = if self.cursor_row < lines.len() {
            self.cursor_row
        } else {
            lines.len() - 1
        };
        let len = lines[row].len();
        if self.cursor_col < len {
            self.cursor_col = self.cursor_col + 1;
        } else if self.cursor_row < lines.len() - 1 {
            self.cursor_row = self.cursor_row + 1;
            self.cursor_col = 0;
        }
    }

    /// Moves the cursor to the line above, keeping the column where that line allows.
    pub fn move_up(&mut self)
        ensures
            (final(self).cursor_row as int, final(self).cursor_col as int) == spec_move_up(
                old(self).content@,
                old(self).cursor_row as int,
                old(self).cursor_col as int,
            ),
            final(self).content == old(self).content,
            final(self).dirty == old(self).dirty,
            final(self).same_but_text(old(self)),
            old(self).cursor_in_text() ==> final(self).cursor_in_text(),
    {
        if self.cursor_row > 0 {
            let lines = self.text_lines();
            let row = self.cursor_row - 1;
            self.cursor_row = row;
            let len = if row < lines.len() {
                lines[row].len()
            } else {
                0
            };
            if len < self.cursor_col {
                self.cursor_col = len;
            }
        }
    }

    /// Moves the cursor to the line below, keeping the column where that line allows.
    pub fn move_down(&mut self)
        ensures
            (final(self).cursor_row as int, final(self).cursor_col as int) == spec_move_down(
                old(self).content@,
                old(self).cursor_row as int,
                old(self).cursor_col as int,
            ),
            final(self).content == old(self).content,
            final(self).dirty == old(self).dirty,
            final(self).same_but_text(old(self)),
            old(self).cursor_in_text() ==> final(self).cursor_in_text(),
    {
        let lines = self.text_lines();
        if self.cursor_row < lines.len() - 1 {
            let row = self.cursor_row + 1;
            self.cursor_row = row;
            let len = lines[row].len();
            if len < self.cursor_col {
                self.cursor_col = len;
            }
        }
    }
}

/// Inserting a character other than a line break into a line keeps the number of lines.
pub proof fn lemma_insert_plain(ls: Seq<Seq<char>>, r: int, c: int, ch: char)
    requires
        0 <= r < ls.len(),
        0 <= c <= ls[r].len(),
        ch != '\n',
        all_plain(ls),
    ensures
        split_lines(join_lines(ls.update(r, ls[r].insert(c, ch)))) == ls.update(
            r,
            ls[r].insert(c, ch),
        ),
{
    let l2 = ls.update(r, ls[r].insert(c, ch));
    assert(all_plain(l2)) by {
        assert forall|i: int| 0 <= i < l2.len() implies no_newline(#[trigger] l2[i]) by {
            if i == r {
                assert(no_newline(ls[r]));
                let x = ls[r].insert(c, ch);
                assert forall|j: int| 0 <= j < x.len() implies x[j] != '\n' by {
                    if j < c {
                        assert(x[j] == ls[r][j]);
                    } else if j > c {
                        assert(x[j] == ls[r][j - 1]);
                    }
                }
            } else {
                assert(l2[i] == ls[i]);
            }
        }
    }
    lemma_split_join(l2);
}

/// Removing a character from a line keeps the lines free of line breaks.
pub proof fn lemma_remove_plain(ls: Seq<Seq<char>>, r: int, c: int)
    requires
        0 <= r < ls.len(),
        0 <= c < ls[r].len(),
        all_plain(ls),
    ensures
        split_lines(join_lines(ls.update(r, ls[r].remove(c)))) == ls.update(r, ls[r].remove(c)),
{
    let l2 = ls.update(r, ls[r].remove(c));
    assert(all_plain(l2)) by {
        assert forall|i: int| 0 <= i < l2.len() implies no_newline(#[trigger] l2[i]) by {
            if i == r {
                assert(no_newline(ls[r]));
                let x = ls[r].remove(c);
                assert forall|j: int| 0 <= j < x.len() implies x[j] != '\n' by {
                    if j < c {
                        assert(x[j] == ls[r][j]);
                    } else {
                        assert(x[j] == ls[r][j + 1]);
                    }
                }
            } else {
                assert(l2[i] == ls[i]);
            }
        }
    }
    lemma_split_join(l2);
}

/// Joining line `r` onto line `r - 1` keeps the lines free of line breaks.
pub proof fn lemma_join_lines_plain(ls: Seq<Seq<char>>, r: int)
    requires
        0 < r < ls.len(),
        all_plain(ls),
    ensures
        split_lines(join_lines(ls.remove(r).update(r - 1, ls[r - 1] + ls[r]))) == ls.remove(
            r,
        ).update(r - 1, ls[r - 1] + ls[r]),
{
    let l2 = ls.remove(r).update(r - 1, ls[r - 1] + ls[r]);
    assert(all_plain(l2)) by {
        assert forall|i: int| 0 <= i < l2.len() implies no_newline(#[trigger] l2[i]) by {
            if i == r - 1 {
                assert(no_newline(ls[r - 1]));
                assert(no_newline(ls[r]));
                let x = ls[r - 1] + ls[r];
                assert forall|j: int| 0 <= j < x.len() implies x[j] != '\n' by {
                    if j < ls[r - 1].len() {
                        assert(x[j] == ls[r - 1][j]);
                    } else {
                        assert(x[j] == ls[r][j - ls[r - 1].len()]);
                    }
                }
            } else if i < r - 1 {
                assert(l2[i] == ls[i]);
            } else {
                assert(l2[i] == ls[i + 1]);
            }
        }
    }
    lemma_split_join(l2);
}

/// Splitting line `r` at `c` keeps the lines free of line breaks.
pub proof fn lemma_split_plain(ls: Seq<Seq<char>>, r: int, c: int)
    requires
        0 <= r < ls.len(),
        0 <= c <= ls[r].len(),
        all_plain(ls),
    ensures
        split_lines(join_lines(ls.update(r, ls[r].take(c)).insert(r + 1, ls[r].skip(c))))
            == ls.update(r, ls[r].take(c)).insert(r + 1, ls[r].skip(c)),
{
    let l2 = ls.update(r, ls[r].take(c)).insert(r + 1, ls[r].skip(c));
    assert(all_plain(l2)) by {
        assert forall|i: int| 0 <= i < l2.len() implies no_newline(#[trigger] l2[i]) by {
            assert(no_newline(ls[r]));
            if i == r {
                let x = ls[r].take(c);
                assert forall|j: int| 0 <= j < x.len() implies x[j] != '\n' by {
                    assert(x[j] == ls[r][j]);
                }
            } else if i == r + 1 {
                let x = ls[r].skip(c);
                assert forall|j: int| 0 <= j < x.len() implies x[j] != '\n' by {
                    assert(x[j] == ls[r][j + c]);
                }
            } else if i < r {
                assert(l2[i] == ls[i]);
            } else {
                assert(l2[i] == ls[i - 1]);
            }
        }
    }
    lemma_split_join(l2);
}

/// Typing a character other than a line break and then pressing backspace gives back
/// the text and the cursor, wherever the cursor stood within the text.
pub proof fn law_backspace_undoes_insert_char(t: Seq<char>, row: int, col: int, ch: char)
    requires
        ch != '\n',
        0 <= row < split_lines(t).len(),
        0 <= col <= split_lines(t)[row].len(),
    ensures
        ({
            let (t1, r1, c1) = spec_insert_char(t, row, col, ch);
            spec_backspace(t1, r1, c1) == (t, row, col)
        }),
{
    let ls = split_lines(t);
    lemma_split_lines_shape(t);
    lemma_insert_plain(ls, row, col, ch);
    let l2 = ls.update(row, ls[row].insert(col, ch));
    assert(l2[row].remove(col) =~= ls[row]);
    assert(l2.update(row, l2[row].remove(col)) =~= ls);
    lemma_join_split(t);
}

/// Pressing Enter and then backspace gives back the text and the cursor, wherever the
/// cursor stood within the text.
pub proof fn law_backspace_undoes_insert_newline(t: Seq<char>, row: int, col: int)
    requires
        0 <= row < split_lines(t).len(),
        0 <= col <= split_lines(t)[row].len(),
    ensures
        ({
            let (t1, r1, c1) = spec_insert_newline(t, row, col);
            spec_backspace(t1, r1, c1) == (t, row, col)
        }),
{
    let ls = split_lines(t);
    lemma_split_lines_shape(t);
    lemma_split_plain(ls, row, col);
    let l2 = ls.update(row, ls[row].take(col)).insert(row + 1, ls[row].skip(col));
    assert(l2[row] == ls[row].take(col));
    assert(l2[row + 1] == ls[row].skip(col));
    assert(ls[row].take(col) + ls[row].skip(col) =~= ls[row]);
    assert(l2.remove(row + 1).update(row, l2[row] + l2[row + 1]) =~= ls);
    lemma_join_split(t);
}

/// Moving right and then left gives back the cursor, wherever it stood within the text
/// but at its very end.
pub proof fn law_move_left_undoes_move_right(t: Seq<char>, row: int, col: int)
    requires
        0 <= row < split_lines(t).len(),
        0 <= col <= split_lines(t)[row].len(),
        !(row == split_lines(t).len() - 1 && col == split_lines(t)[row].len()),
    ensures
        ({
            let (r1, c1) = spec_move_right(t, row, col);
            spec_move_left(t, r1, c1) == (row, col)
        }),
{
}

/// Moving left and then right gives back the cursor, wherever it stood within the text
/// but at its very start.
pub proof fn law_move_right_undoes_move_left(t: Seq<char>, row: int, col: int)
    requires
        0 <= row < split_lines(t).len(),
        0 <= col <= split_lines(t)[row].len(),
        !(row == 0 && col == 0),
    ensures
        ({
            let (r1, c1) = spec_move_left(t, row, col);
            spec_move_right(t, r1, c1) == (row, col)
        }),
{
}

/// Deleting at the cursor makes the text exactly one character shorter, or leaves its
/// length when the cursor is at the end of the text.
pub proof fn law_delete_removes_one(t: Seq<char>, row: int, col: int)
    requires
        0 <= row < split_lines(t).len(),
        0 <= col <= split_lines(t)[row].len(),
    ensures
        spec_delete(t, row, col).len() == (if row == split_lines(t).len() - 1 && col
            == split_lines(t)[row].len() {
            t.len()
        } else {
            (t.len() - 1) as nat
        }),
{
    let ls = split_lines(t);
    lemma_split_lines_shape(t);
    lemma_join_split(t);
    if col < ls[row].len() {
        lemma_join_len_update(ls, row, ls[row].remove(col));
    } else if row + 1 < ls.len() {
        lemma_join_len_merge(ls, row);
    }
}

/// The length of joined lines: the lines' lengths and one break between neighbours.
pub open spec fn joined_len(ls: Seq<Seq<char>>) -> int
    decreases ls.len(),
{
    if ls.len() == 0 {
        0
    } else if ls.len() == 1 {
        ls[0].len() as int
    } else {
        joined_len(ls.drop_last()) + 1 + ls.last().len()
    }
}

/// The length of joined lines is `joined_len`.
pub proof fn lemma_join_len(ls: Seq<Seq<char>>)
    ensures
        join_lines(ls).len() == joined_len(ls),
    decreases ls.len(),
{
    if ls.len() > 1 {
        lemma_join_len(ls.drop_last());
    }
}

/// Replacing one line changes the joined length by the difference of the lines' lengths.
pub proof fn lemma_join_len_update(ls: Seq<Seq<char>>, r: int, x: Seq<char>)
    requires
        0 <= r < ls.len(),
    ensures
        join_lines(ls.update(r, x)).len() == join_lines(ls).len() - ls[r].len() + x.len(),
    decreases ls.len(),
{
    lemma_join_len(ls);
    lemma_join_len(ls.update(r, x));
    lemma_joined_len_update(ls, r, x);
}

proof fn lemma_joined_len_update(ls: Seq<Seq<char>>, r: int, x: Seq<char>)
    requires
        0 <= r < ls.len(),
    ensures
        joined_len(ls.update(r, x)) == joined_len(ls) - ls[r].len() + x.len(),
    decreases ls.len(),
{
    if ls.len() > 1 {
        if r == ls.len() - 1 {
            assert(ls.update(r, x).drop_last() =~= ls.drop_last());
        } else {
            lemma_joined_len_update(ls.drop_last(), r, x);
            assert(ls.update(r, x).drop_last() =~= ls.drop_last().update(r, x));
        }
    }
}

/// Merging line `r + 1` into line `r` shortens the joined text by the one break.
pub proof fn lemma_join_len_merge(ls: Seq<Seq<char>>, r: int)
    requires
        0 <= r,
        r + 1 < ls.len(),
    ensures
        join_lines(ls.remove(r + 1).update(r, ls[r] + ls[r + 1])).len() == join_lines(ls).len()
            - 1,
    decreases ls.len(),
{
    lemma_join_len(ls);
    lemma_join_len(ls.remove(r + 1).update(r, ls[r] + ls[r + 1]));
    lemma_joined_len_merge(ls, r);
}

proof fn lemma_joined_len_merge(ls: Seq<Seq<char>>, r: int)
    requires
        0 <= r,
        r + 1 < ls.len(),
    ensures
        joined_len(ls.remove(r + 1).update(r, ls[r] + ls[r + 1])) == joined_len(ls) - 1,
    decreases ls.len(),
{
    let m = ls.remove(r + 1).update(r, ls[r] + ls[r + 1]);
    if r + 2 == ls.len() {
        let d = ls.drop_last();
        assert(m.len() == r + 1);
        assert(m[r] == ls[r] + ls[r + 1]);
        assert(joined_len(ls) == joined_len(d) + 1 + ls[r + 1].len());
        if d.len() == 1 {
            assert(joined_len(m) == m[0].len());
        } else {
            assert(m.drop_last() =~= d.drop_last());
            assert(joined_len(d) == joined_len(d.drop_last()) + 1 + d.last().len());
            assert(joined_len(m) == joined_len(m.drop_last()) + 1 + m.last().len());
        }
    } else {
        lemma_joined_len_merge(ls.drop_last(), r);
        assert(m.drop_last() =~= ls.drop_last().remove(r + 1).update(r, ls[r] + ls[r + 1]));
    }
}

/// Moving down from a line that has one below goes to that line and keeps the column
/// where the line below is long enough; otherwise the cursor goes to that line's end.
/// The column never grows and never passes the end of the line below.
pub proof fn law_move_down_keeps_column(t: Seq<char>, row: int, col: int)
    requires
        0 <= row,
        row + 1 < split_lines(t).len(),
        0 <= col,
    ensures
        ({
            let (r1, c1) = spec_move_down(t, row, col);
            let below = split_lines(t)[row + 1].len() as int;
            &&& r1 == row + 1
            &&& c1 <= col
            &&& c1 <= below
            &&& col <= below ==> c1 == col
            &&& col > below ==> c1 == below
        }),
{
}

/// Moving down and then up gives back the cursor, when its column fits in the line
/// below: no column is lost on the way.
pub proof fn law_move_up_undoes_move_down(t: Seq<char>, row: int, col: int)
    requires
        0 <= row,
        row + 1 < split_lines(t).len(),
        0 <= col <= split_lines(t)[row].len(),
        col <= split_lines(t)[row + 1].len(),
    ensures
        ({
            let (r1, c1) = spec_move_down(t, row, col);
            spec_move_up(t, r1, c1) == (row, col)
        }),
{
}

/// Moving up and then down gives back the cursor, when its column fits in the line
/// above.
pub proof fn law_move_down_undoes_move_up(t: Seq<char>, row: int, col: int)
    requires
        0 < row < split_lines(t).len(),
        0 <= col <= split_lines(t)[row].len(),
        col <= split_lines(t)[row - 1].len(),
    ensures
        ({
            let (r1, c1) = spec_move_up(t, row, col);
            spec_move_down(t, r1, c1) == (row, col)
        }),
{
}

} // verus!
