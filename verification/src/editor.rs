//! The note editor of the knowledge-graph TUI: a minimal multi-line text
//! editor over a note's lines, with cursor positions counted in characters,
//! plus the tab-row geometry the TUI hit-tests clicks against.

use crate::text::push_char;
use vstd::prelude::*;
use vstd::string::*;

verus! {

broadcast use vstd::seq_lib::group_seq_properties;

/// `text` split at every `\n`; an empty text is one empty line.
pub open spec fn split_lines(text: Seq<char>) -> Seq<Seq<char>>
    decreases text.len(),
{
    if text.len() == 0 {
        seq![Seq::<char>::empty()]
    } else {
        let lines = split_lines(text.drop_last());
        if text.last() == '\n' {
            lines.push(Seq::<char>::empty())
        } else {
            lines.update(lines.len() - 1, lines.last().push(text.last()))
        }
    }
}

/// `lines` joined with `\n` between consecutive lines.
pub open spec fn join_lines(lines: Seq<Seq<char>>) -> Seq<char>
    decreases lines.len(),
{
    if lines.len() == 0 {
        Seq::empty()
    } else if lines.len() == 1 {
        lines[0]
    } else {
        join_lines(lines.drop_last()) + seq!['\n'] + lines.last()
    }
}

/// The character views of `lines`.
pub open spec fn views_of(lines: Seq<String>) -> Seq<Seq<char>> {
    lines.map_values(|line: String| line@)
}

/// `line` with `c` inserted before its character `at`.
pub open spec fn inserted(line: Seq<char>, at: int, c: char) -> Seq<char> {
    line.take(at).push(c) + line.skip(at)
}

/// `at` clamped to the length of `line`.
pub open spec fn clamp_to(line: Seq<char>, at: int) -> int {
    if at < line.len() {
        at
    } else {
        line.len() as int
    }
}

pub proof fn lemma_split_lines_nonempty(text: Seq<char>)
    ensures
        split_lines(text).len() >= 1,
    decreases text.len(),
{
    if text.len() > 0 {
        lemma_split_lines_nonempty(text.drop_last());
    }
}

/// Splitting a text into lines and joining them back gives the text.
pub proof fn lemma_join_split(text: Seq<char>)
    ensures
        join_lines(split_lines(text)) == text,
    decreases text.len(),
{
    if text.len() > 0 {
        let rest = text.drop_last();
        lemma_join_split(rest);
        lemma_split_lines_nonempty(rest);
        let lines = split_lines(rest);
        if text.last() == '\n' {
            assert(split_lines(text).drop_last() =~= lines);
            assert(join_lines(split_lines(text)) =~= text);
        } else {
            let out = lines.update(lines.len() - 1, lines.last().push(text.last()));
            if lines.len() == 1 {
                assert(join_lines(out) =~= text);
            } else {
                assert(out.drop_last() =~= lines.drop_last());
                assert(out.last() == lines.last().push(text.last()));
                assert(join_lines(lines) == join_lines(lines.drop_last()) + seq!['\n'] + lines.last());
                assert(join_lines(out) == join_lines(lines.drop_last()) + seq!['\n'] + lines.last().push(
                    text.last(),
                ));
                assert(text =~= rest.push(text.last()));
                assert(join_lines(out) =~= text);
            }
        }
    }
}

/// A minimal multi-line text editor. Cursor and column positions are in
/// characters, matching how the terminal cursor moves.
pub struct Editor {
    pub lines: Vec<String>,
    pub row: usize,
    pub col: usize,
    pub scroll: usize,
}

/// The characters of `s` from `from` up to `to`, as an owned string.
fn slice_of(s: &str, from: usize, to: usize) -> (out: String)
    requires
        from <= to <= s@.len(),
    ensures
        out@ == s@.subrange(from as int, to as int),
{
    String::from_str(s.substring_char(from, to))
}

impl Editor {
    /// The lines as character sequences.
    pub open spec fn line_views(&self) -> Seq<Seq<char>> {
        views_of(self.lines@)
    }

    /// An editor over `text`, cursor at the top left.
    pub fn from_text(text: &str) -> (editor: Self)
        ensures
            editor.line_views() == split_lines(text@),
            editor.row == 0,
            editor.col == 0,
            editor.scroll == 0,
    {
        let n = text.unicode_len();
        let mut lines: Vec<String> = Vec::new();
        let mut current = String::new();
        let mut i: usize = 0;
        assert(text@.take(0) =~= Seq::<char>::empty());
        assert(views_of(lines@).push(current@) =~= split_lines(text@.take(0)));
        while i < n
            invariant
                n == text@.len(),
                i <= n,
                views_of(lines@).push(current@) == split_lines(text@.take(i as int)),
            decreases n - i,
        {
            let c = text.get_char(i);
            proof {
                assert(text@.take(i + 1).drop_last() =~= text@.take(i as int));
                lemma_split_lines_nonempty(text@.take(i as int));
            }
            if c == '\n' {
                let mut done = String::new();
                std::mem::swap(&mut done, &mut current);
                lines.push(done);
                assert(views_of(lines@).push(current@) =~= split_lines(text@.take(i + 1)));
            } else {
                let ghost before = current@;
                push_char(&mut current, c);
                assert(views_of(lines@).push(current@) =~= split_lines(text@.take(i + 1)));
            }
            i = i + 1;
        }
        lines.push(current);
        assert(text@.take(n as int) =~= text@);
        assert(views_of(lines@) =~= split_lines(text@));
        Editor { lines, row: 0, col: 0, scroll: 0 }
    }

    /// The note: the lines joined with `\n`.
    pub fn text(&self) -> (text: String)
        ensures
            text@ == join_lines(self.line_views()),
    {
        let mut out = String::new();
        let mut i: usize = 0;
        while i < self.lines.len()
            invariant
                i <= self.lines@.len(),
                out@ == join_lines(self.line_views().take(i as int)),
            decreases self.lines.len() - i,
        {
            let ghost before = out@;
            if i > 0 {
                push_char(&mut out, '\n');
            }
            out.append(self.lines[i].as_str());
            proof {
                let views = self.line_views();
                assert(views.take(i + 1).drop_last() =~= views.take(i as int));
                if i == 0 {
                    assert(join_lines(views.take(1)) == views[0]);
                    assert(out@ =~= views[0]);
                } else {
                    assert(out@ =~= join_lines(views.take(i as int)) + seq!['\n'] + views[i as int]);
                }
            }
            i = i + 1;
        }
        assert(self.line_views().take(self.lines@.len() as int) =~= self.line_views());
        out
    }

    /// Characters on the cursor's line.
    pub fn line_len(&self) -> (len: usize)
        requires
            self.row < self.lines@.len(),
        ensures
            len == self.line_views()[self.row as int].len(),
    {
        self.lines[self.row].as_str().unicode_len()
    }

    /// Inserts `c` at the cursor and moves the cursor past it. A cursor past
    /// the end of its line inserts at the end.
    pub fn insert_char(&mut self, c: char)
        requires
            old(self).row < old(self).lines@.len(),
            old(self).col < usize::MAX,
        ensures
            final(self).line_views() == old(self).line_views().update(
                old(self).row as int,
                inserted(
                    old(self).line_views()[old(self).row as int],
                    clamp_to(old(self).line_views()[old(self).row as int], old(self).col as int),
                    c,
                ),
            ),
            final(self).row == old(self).row,
            final(self).col == old(self).col + 1,
            final(self).scroll == old(self).scroll,
    {
        let row = self.row;
        let n = self.line_len();
        let at = if self.col < n {
            self.col
        } else {
            n
        };
        let mut line = slice_of(self.lines[row].as_str(), 0, at);
        push_char(&mut line, c);
        line.append(self.lines[row].as_str().substring_char(at, n));
        let ghost views = self.line_views();
        self.lines.set(row, line);
        assert(self.line_views() =~= views.update(row as int, inserted(views[row as int], at as int, c)));
        self.col = self.col + 1;
    }

    /// Splits the cursor's line at the cursor and moves to the start of the
    /// new line below.
    pub fn insert_newline(&mut self)
        requires
            old(self).row < old(self).lines@.len(),
        ensures
            ({
                let views = old(self).line_views();
                let row = old(self).row as int;
                let at = clamp_to(views[row], old(self).col as int);
                final(self).line_views() == views.update(row, views[row].take(at)).insert(
                    row + 1,
                    views[row].skip(at),
                )
            }),
            final(self).row == old(self).row + 1,
            final(self).col == 0,
            final(self).scroll == old(self).scroll,
    {
        let row = self.row;
        let n = self.line_len();
        let at = if self.col < n {
            self.col
        } else {
            n
        };
        let head = slice_of(self.lines[row].as_str(), 0, at);
        let rest = slice_of(self.lines[row].as_str(), at, n);
        let ghost views = self.line_views();
        let count: usize = self.lines.len();
        assert(row + 1 <= count);
        self.lines.set(row, head);
        self.lines.insert(row + 1, rest);
        assert(self.line_views() =~= views.update(row as int, views[row as int].take(at as int)).insert(
            row + 1,
            views[row as int].skip(at as int),
        ));
        self.row = row + 1;
        self.col = 0;
    }

    /// Deletes the character before the cursor, or joins the cursor's line
    /// onto the previous one when the cursor is at its start.
    pub fn backspace(&mut self)
        requires
            old(self).row < old(self).lines@.len(),
            old(self).col <= old(self).line_views()[old(self).row as int].len(),
        ensures
            ({
                let views = old(self).line_views();
                let row = old(self).row as int;
                let col = old(self).col as int;
                if col > 0 {
                    &&& final(self).line_views() == views.update(row, views[row].remove(col - 1))
                    &&& final(self).row == row
                    &&& final(self).col == col - 1
                } else if row > 0 {
                    &&& final(self).line_views() == views.remove(row).update(
                        row - 1,
                        views[row - 1] + views[row],
                    )
                    &&& final(self).row == row - 1
                    &&& final(self).col == views[row - 1].len()
                } else {
                    &&& final(self).line_views() == views
                    &&& final(self).row == row
                    &&& final(self).col == col
                }
            }),
            final(self).scroll == old(self).scroll,
    {
        let ghost views = self.line_views();
        if self.col > 0 {
            let row = self.row;
            let n = self.line_len();
            self.col = self.col - 1;
            let at = self.col;
            let mut line = slice_of(self.lines[row].as_str(), 0, at);
            line.append(self.lines[row].as_str().substring_char(at + 1, n));
            self.lines.set(row, line);
            assert(self.line_views() =~= views.update(row as int, views[row as int].remove(at as int)));
        } else if self.row > 0 {
            let row = self.row;
            let current = self.lines.remove(row);
            self.row = row - 1;
            self.col = self.line_len();
            let mut joined = slice_of(self.lines[row - 1].as_str(), 0, self.col);
            joined.append(current.as_str());
            self.lines.set(row - 1, joined);
            assert(self.line_views() =~= views.remove(row as int).update(
                row - 1,
                views[row - 1] + views[row as int],
            ));
        }
    }

    /// Deletes the character under the cursor, or joins the next line onto
    /// the cursor's line when the cursor is at its end.
    pub fn delete(&mut self)
        requires
            old(self).row < old(self).lines@.len(),
        ensures
            ({
                let views = old(self).line_views();
                let row = old(self).row as int;
                let col = old(self).col as int;
                if col < views[row].len() {
                    final(self).line_views() == views.update(row, views[row].remove(col))
                } else if row + 1 < views.len() {
                    final(self).line_views() == views.remove(row + 1).update(
                        row,
                        views[row] + views[row + 1],
                    )
                } else {
                    final(self).line_views() == views
                }
            }),
            final(self).row == old(self).row,
            final(self).col == old(self).col,
            final(self).scroll == old(self).scroll,
    {
        let ghost views = self.line_views();
        let row = self.row;
        let n = self.line_len();
        if self.col < n {
            let at = self.col;
            let mut line = slice_of(self.lines[row].as_str(), 0, at);
            line.append(self.lines[row].as_str().substring_char(at + 1, n));
            self.lines.set(row, line);
            assert(self.line_views() =~= views.update(row as int, views[row as int].remove(at as int)));
        } else if self.lines.len() - row > 1 {
            let next = self.lines.remove(row + 1);
            let mut joined = slice_of(self.lines[row].as_str(), 0, n);
            joined.append(next.as_str());
            self.lines.set(row, joined);
            assert(self.line_views() =~= views.remove(row + 1).update(
                row as int,
                views[row as int] + views[row + 1],
            ));
        }
    }

    /// Moves the cursor `delta` lines, clamped to the note, keeping the
    /// column where the new line allows it.
    pub fn move_vertical(&mut self, delta: isize)
        requires
            old(self).lines@.len() > 0,
            old(self).lines@.len() - 1 <= isize::MAX,
            old(self).row <= isize::MAX,
            isize::MIN <= old(self).row + delta <= isize::MAX,
        ensures
            ({
                let last = old(self).lines@.len() - 1;
                let target = old(self).row + delta;
                let row = if target < 0 {
                    0
                } else if target > last {
                    last
                } else {
                    target
                };
                &&& final(self).row == row
                &&& final(self).col == if old(self).col < old(self).line_views()[row].len() {
                    old(self).col as int
                } else {
                    old(self).line_views()[row].len() as int
                }
            }),
            final(self).lines@ == old(self).lines@,
            final(self).scroll == old(self).scroll,
    {
        let len: usize = self.lines.len();
        let last: isize = (len - 1) as isize;
        let here: isize = self.row as isize;
        let target: isize = here + delta;
        let row: isize = if target < 0 {
            0
        } else if target > last {
            last
        } else {
            target
        };
        self.row = row as usize;
        let n = self.line_len();
        if self.col > n {
            self.col = n;
        }
    }
}

/// The `[start, end)` column ranges of the three tab titles (`Graph`, `Node`,
/// `Visualize`) as the tabs widget lays them out from `origin`: one cell of
/// padding either side of each title, one divider cell between tabs.
pub fn tab_ranges(origin: u16) -> (ranges: Vec<(u16, u16)>)
    requires
        origin + 27 <= u16::MAX,
    ensures
        ranges@ == seq![
            (origin, (origin + 7) as u16),
            ((origin + 8) as u16, (origin + 14) as u16),
            ((origin + 15) as u16, (origin + 26) as u16),
        ],
{
    let widths: [u16; 3] = [7u16, 6u16, 11u16];
    let mut ranges: Vec<(u16, u16)> = Vec::new();
    let mut x: u16 = origin;
    let mut i: usize = 0;
    while i < 3
        invariant
            i <= 3,
            widths@ == seq![7u16, 6u16, 11u16],
            origin + 27 <= u16::MAX,
            i == 0 ==> x == origin && ranges@ == Seq::<(u16, u16)>::empty(),
            i == 1 ==> x == origin + 8 && ranges@ == seq![(origin, (origin + 7) as u16)],
            i == 2 ==> x == origin + 15 && ranges@ == seq![
                (origin, (origin + 7) as u16),
                ((origin + 8) as u16, (origin + 14) as u16),
            ],
            i == 3 ==> x == origin + 27 && ranges@ == seq![
                (origin, (origin + 7) as u16),
                ((origin + 8) as u16, (origin + 14) as u16),
                ((origin + 15) as u16, (origin + 26) as u16),
            ],
        decreases 3 - i,
    {
        let width = widths[i];
        ranges.push((x, x + width));
        x = x + width + 1;
        i = i + 1;
    }
    ranges
}

/// `text` cut to at most `max_chars` characters: unchanged when it fits,
/// else its first `max_chars - 1` characters followed by `…`.
pub open spec fn truncated(text: Seq<char>, max_chars: nat) -> Seq<char> {
    if text.len() <= max_chars {
        text
    } else {
        text.take(if max_chars > 0 { max_chars - 1 } else { 0 }).push('…')
    }
}

/// Cuts `text` to at most `max_chars` characters, marking a cut with `…`.
pub fn truncate(text: &str, max_chars: usize) -> (out: String)
    ensures
        out@ == truncated(text@, max_chars as nat),
{
    let n = text.unicode_len();
    if n <= max_chars {
        String::from_str(text)
    } else {
        let keep = if max_chars > 0 {
            max_chars - 1
        } else {
            0
        };
        let mut out = slice_of(text, 0, keep);
        push_char(&mut out, '…');
        out
    }
}

} // verus!
