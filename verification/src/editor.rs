//! The editing logic of a small text editor: a buffer of lines, a cursor that
//! moves through them, and a window onto part of the buffer.
//!
//! As in a Rust `String`, the cursor's column counts bytes of UTF-8: moving
//! left or right steps one byte, and typing, splitting a line or deleting
//! must happen where a character starts (or at the end of the line).

use vstd::prelude::*;
use crate::text::{
    chars_of, string_of, string_of_range, utf8_len, utf8_width, char_utf8_width, lemma_utf8_len_concat,
    lemma_utf8_len_prefix, lemma_utf8_len_take_step,
};

verus! {

/// What a buffer is, as the contracts see it: its lines, the cursor (a line and
/// a byte column), the first line shown in the window, and the window's size.
pub struct BufferState {
    pub rows: Seq<Seq<char>>,
    pub line: int,
    pub col: int,
    pub top: int,
    pub window_lines: int,
    pub window_cols: int,
}

/// A direction for the cursor to move in.
#[derive(Debug, Clone, Copy, PartialEq, Eq)]
pub enum Direction {
    Up,
    Down,
    Left,
    Right,
}

/// A key that the user pressed, as far as the editor tells keys apart.
#[derive(Debug, Clone, Copy, PartialEq, Eq)]
pub enum Key {
    Up,
    Down,
    Left,
    Right,
    Backspace,
    Enter,
    Char(char),
    /// Control and `q`: leave the editor.
    Quit,
    /// Any other key, which does nothing.
    Other,
}

/// The length of a line in bytes of UTF-8, which is what columns count.
pub open spec fn line_len(row: Seq<char>) -> int {
    utf8_len(row) as int
}

/// Byte `col` of the line is where one of its characters starts, or its end.
pub open spec fn is_boundary(row: Seq<char>, col: int) -> bool {
    exists|k: int| 0 <= k <= row.len() && #[trigger] utf8_len(row.take(k)) == col
}

/// The index of the character that starts at byte `col` of the line (the
/// number of characters, at its end).
pub open spec fn char_index(row: Seq<char>, col: int) -> int {
    choose|k: int| 0 <= k <= row.len() && #[trigger] utf8_len(row.take(k)) == col
}

/// The cursor stands where a character starts, or at the end of its line.
pub open spec fn at_boundary(s: BufferState) -> bool {
    is_boundary(s.rows[s.line], s.col)
}

/// The cursor is on a line of the buffer and at most at the end of that line.
pub open spec fn state_wf(s: BufferState) -> bool {
    &&& s.rows.len() >= 1
    &&& 0 <= s.line < s.rows.len()
    &&& 0 <= s.col <= line_len(s.rows[s.line])
    &&& 0 <= s.top
    &&& 0 <= s.window_lines
    &&& 0 <= s.window_cols
}

/// A buffer without lines, as an empty text gives: the cursor stands at the
/// start.
pub open spec fn empty_state(s: BufferState) -> bool {
    &&& s.rows.len() == 0
    &&& s.line == 0
    &&& s.col == 0
    &&& 0 <= s.top
    &&& 0 <= s.window_lines
    &&& 0 <= s.window_cols
}

/// The first line to show so that line `line` is in a window of `lines` lines
/// whose first line was `top`, moving the window as little as possible.
pub open spec fn scrolled_top(line: int, top: int, lines: int) -> int {
    if line < top {
        line
    } else if line >= top + lines {
        line - lines + 1
    } else {
        top
    }
}

/// Where the cursor goes when it moves one step in direction `d`: up and down
/// keep the column where the new line is long enough and go to its end
/// otherwise; left and right step one byte and wrap round to the previous and
/// next line.
pub open spec fn moved(s: BufferState, d: Direction) -> (int, int) {
    let last_line = s.rows.len() - 1;
    match d {
        Direction::Up => if s.line > 0 {
            let l = s.line - 1;
            (l, if s.col >= line_len(s.rows[l]) { line_len(s.rows[l]) } else { s.col })
        } else {
            (s.line, s.col)
        },
        Direction::Down => if s.line < last_line {
            let l = s.line + 1;
            (l, if s.col >= line_len(s.rows[l]) { line_len(s.rows[l]) } else { s.col })
        } else {
            (s.line, s.col)
        },
        Direction::Left => if s.col > 0 {
            (s.line, s.col - 1)
        } else if s.line > 0 {
            (s.line - 1, line_len(s.rows[s.line - 1]))
        } else {
            (s.line, s.col)
        },
        Direction::Right => if s.col < line_len(s.rows[s.line]) {
            (s.line, s.col + 1)
        } else if s.line < last_line {
            (s.line + 1, 0)
        } else {
            (s.line, s.col)
        },
    }
}

/// The buffer after the cursor moves in direction `d` and the window follows it.
pub open spec fn spec_move(s: BufferState, d: Direction) -> BufferState {
    let (l, c) = moved(s, d);
    BufferState { line: l, col: c, top: scrolled_top(l, s.top, s.window_lines), ..s }
}

/// The buffer after `c` is typed at the cursor (which then moves one byte on).
pub open spec fn spec_insert_char(s: BufferState, c: char) -> BufferState {
    let row = s.rows[s.line];
    let t = BufferState { rows: s.rows.update(s.line, row.insert(char_index(row, s.col), c)), ..s };
    spec_move(t, Direction::Right)
}

/// The buffer after the line is split at the cursor and the cursor goes to the
/// start of the new line; a buffer without lines gets one empty line.
pub open spec fn spec_insert_newline(s: BufferState) -> BufferState {
    if s.rows.len() == 0 {
        spec_move(BufferState { rows: seq![Seq::<char>::empty()], col: 0, ..s }, Direction::Down)
    } else {
        let row = s.rows[s.line];
        let k = char_index(row, s.col);
        let t = BufferState {
            rows: s.rows.update(s.line, row.take(k)).insert(s.line + 1, row.skip(k)),
            col: 0,
            ..s
        };
        spec_move(t, Direction::Down)
    }
}

/// Backspace can be pressed wherever the byte before the cursor is where a
/// character starts (or at the start of a line).
pub open spec fn can_backspace(s: BufferState) -> bool {
    s.col > 0 ==> is_boundary(s.rows[s.line], s.col - 1)
}

/// The buffer after backspace: at the start of the buffer nothing changes;
/// otherwise the cursor moves left, then the character under it goes, or,
/// where the cursor was at the start of a line, the cursor's line is joined
/// onto the line above it.
pub open spec fn spec_backspace(s: BufferState) -> BufferState {
    let t = spec_move(s, Direction::Left);
    if s.line == 0 && s.col == 0 {
        s
    } else if s.col == 0 {
        BufferState {
            rows: t.rows.update(t.line, t.rows[t.line] + t.rows[t.line + 1]).remove(t.line + 1),
            ..t
        }
    } else {
        let row = t.rows[t.line];
        BufferState { rows: t.rows.update(t.line, row.remove(char_index(row, t.col))), ..t }
    }
}

/// Every operation keeps the cursor on a line of the buffer and within it.
pub proof fn law_operations_keep_cursor_in_buffer(s: BufferState, d: Direction, c: char)
    requires
        state_wf(s),
    ensures
        state_wf(spec_move(s, d)),
        at_boundary(s) ==> state_wf(spec_insert_char(s, c)),
        at_boundary(s) ==> state_wf(spec_insert_newline(s)),
        can_backspace(s) ==> state_wf(spec_backspace(s)),
{
    lemma_move_wf(s, d);
    if at_boundary(s) {
        lemma_insert_char_wf(s, c);
        lemma_insert_newline_wf(s);
    }
    if can_backspace(s) {
        lemma_backspace_wf(s);
    }
}

/// After any move, the cursor's line is in the window (for a window of at
/// least one line).
pub proof fn law_cursor_visible_after_move(s: BufferState, d: Direction)
    requires
        state_wf(s),
        s.window_lines >= 1,
    ensures
        spec_move(s, d).top <= spec_move(s, d).line < spec_move(s, d).top + s.window_lines,
{
}

/// Typing a character and then pressing backspace gives back the lines and the
/// cursor position that were there before.
pub proof fn law_backspace_undoes_insert_char(s: BufferState, c: char)
    requires
        state_wf(s),
        at_boundary(s),
    ensures
        can_backspace(spec_insert_char(s, c)),
        spec_backspace(spec_insert_char(s, c)).rows == s.rows,
        spec_backspace(spec_insert_char(s, c)).line == s.line,
        spec_backspace(spec_insert_char(s, c)).col == s.col,
{
    let row = s.rows[s.line];
    lemma_boundary(row, s.col);
    let k = char_index(row, s.col);
    lemma_insert_at(row, k, c);
    let new_row = row.insert(k, c);
    lemma_insert_char_wf(s, c);
    let t = spec_insert_char(s, c);
    assert(t.rows[s.line] == new_row);
    lemma_char_index(new_row, k);
    assert(new_row.remove(k) =~= row);
    assert(spec_backspace(t).rows =~= s.rows);
}

/// Backspace at the start of the buffer changes nothing: there is neither a
/// character nor a line before the cursor.
pub proof fn law_backspace_at_start_changes_nothing(s: BufferState)
    requires
        s.line == 0,
        s.col == 0,
    ensures
        can_backspace(s),
        joins_fit(s),
        spec_backspace(s) == s,
{
}

/// Pressing enter and then backspace gives back the lines and the cursor
/// position that were there before.
pub proof fn law_backspace_undoes_insert_newline(s: BufferState)
    requires
        state_wf(s),
        at_boundary(s),
    ensures
        can_backspace(spec_insert_newline(s)),
        spec_backspace(spec_insert_newline(s)).rows == s.rows,
        spec_backspace(spec_insert_newline(s)).line == s.line,
        spec_backspace(spec_insert_newline(s)).col == s.col,
{
    let row = s.rows[s.line];
    lemma_boundary(row, s.col);
    let k = char_index(row, s.col);
    lemma_insert_newline_wf(s);
    let t = spec_insert_newline(s);
    assert(t.rows[s.line] == row.take(k));
    assert(t.rows[s.line + 1] == row.skip(k));
    assert(row.take(k) + row.skip(k) =~= row);
    assert(row.take(k).take(k as int) =~= row.take(k));
    let b = spec_backspace(t);
    assert(b.rows =~= s.rows);
}

/// A longer prefix of a line takes up more bytes.
proof fn lemma_prefix_len_increasing(row: Seq<char>, i: int, j: int)
    requires
        0 <= i < j <= row.len(),
    ensures
        utf8_len(row.take(i)) < utf8_len(row.take(j)),
    decreases j - i,
{
    lemma_utf8_len_take_step(row, j - 1);
    if i < j - 1 {
        lemma_prefix_len_increasing(row, i, j - 1);
    }
}

/// The end of every prefix is a boundary, and of that prefix alone.
pub proof fn lemma_char_index(row: Seq<char>, k: int)
    requires
        0 <= k <= row.len(),
    ensures
        is_boundary(row, utf8_len(row.take(k)) as int),
        char_index(row, utf8_len(row.take(k)) as int) == k,
{
    let col = utf8_len(row.take(k)) as int;
    assert(0 <= k <= row.len() && utf8_len(row.take(k)) == col);
    let j = char_index(row, col);
    if j < k {
        lemma_prefix_len_increasing(row, j, k);
    } else if k < j {
        lemma_prefix_len_increasing(row, k, j);
    }
}

/// What a boundary gives: the index of its character, and a column within the line.
pub proof fn lemma_boundary(row: Seq<char>, col: int)
    requires
        is_boundary(row, col),
    ensures
        0 <= char_index(row, col) <= row.len(),
        utf8_len(row.take(char_index(row, col))) == col,
        0 <= col <= line_len(row),
{
    let k = char_index(row, col);
    lemma_utf8_len_prefix(row, k);
}

/// A line begins and ends at boundaries.
pub proof fn lemma_line_ends(row: Seq<char>)
    ensures
        is_boundary(row, 0),
        char_index(row, 0) == 0,
        is_boundary(row, line_len(row)),
        char_index(row, line_len(row)) == row.len(),
{
    assert(row.take(0) =~= Seq::<char>::empty());
    lemma_char_index(row, 0);
    assert(row.take(row.len() as int) =~= row);
    lemma_char_index(row, row.len() as int);
}

/// Inserting a character keeps what comes before it, and adds its width.
proof fn lemma_insert_at(row: Seq<char>, k: int, c: char)
    requires
        0 <= k <= row.len(),
    ensures
        row.insert(k, c).take(k) == row.take(k),
        utf8_len(row.insert(k, c)) == utf8_len(row) + utf8_width(c),
        utf8_len(row.insert(k, c).take(k + 1)) == utf8_len(row.take(k)) + utf8_width(c),
{
    let r = row.insert(k, c);
    assert(r.take(k) =~= row.take(k));
    assert(r =~= row.take(k) + seq![c] + row.skip(k));
    assert(row =~= row.take(k) + row.skip(k));
    lemma_utf8_len_concat(row.take(k), row.skip(k));
    lemma_utf8_len_concat(row.take(k) + seq![c], row.skip(k));
    lemma_utf8_len_concat(row.take(k), seq![c]);
    assert(seq![c].drop_last() =~= Seq::<char>::empty());
    assert(seq![c].last() == c);
    assert(utf8_len(Seq::<char>::empty()) == 0);
    assert(utf8_len(seq![c]) == utf8_width(c));
    assert(r.take(k + 1) =~= row.take(k) + seq![c]);
}

proof fn lemma_move_wf(s: BufferState, d: Direction)
    requires
        state_wf(s),
    ensures
        state_wf(spec_move(s, d)),
{
}

proof fn lemma_insert_char_wf(s: BufferState, c: char)
    requires
        state_wf(s),
        at_boundary(s),
    ensures
        state_wf(spec_insert_char(s, c)),
        spec_insert_char(s, c).line == s.line,
        spec_insert_char(s, c).col == s.col + 1,
{
    let row = s.rows[s.line];
    lemma_boundary(row, s.col);
    let k = char_index(row, s.col);
    lemma_insert_at(row, k, c);
    let t = BufferState { rows: s.rows.update(s.line, row.insert(k, c)), ..s };
    assert(state_wf(t));
    lemma_move_wf(t, Direction::Right);
}

proof fn lemma_insert_newline_wf(s: BufferState)
    requires
        state_wf(s),
        at_boundary(s),
    ensures
        state_wf(spec_insert_newline(s)),
        spec_insert_newline(s).line == s.line + 1,
        spec_insert_newline(s).col == 0,
{
    let row = s.rows[s.line];
    lemma_boundary(row, s.col);
    let k = char_index(row, s.col);
    let t = BufferState {
        rows: s.rows.update(s.line, row.take(k)).insert(s.line + 1, row.skip(k)),
        col: 0,
        ..s
    };
    assert(state_wf(t));
    lemma_move_wf(t, Direction::Down);
}

proof fn lemma_backspace_wf(s: BufferState)
    requires
        state_wf(s),
        can_backspace(s),
    ensures
        state_wf(spec_backspace(s)),
{
    let t = spec_move(s, Direction::Left);
    lemma_move_wf(s, Direction::Left);
    if s.line == 0 && s.col == 0 {
    } else if s.col == 0 {
        let joined = t.rows[t.line] + t.rows[t.line + 1];
        let r = t.rows.update(t.line, joined).remove(t.line + 1);
        assert(r[t.line] == joined);
        lemma_utf8_len_concat(t.rows[t.line], t.rows[t.line + 1]);
    } else {
        let row = t.rows[t.line];
        lemma_boundary(row, t.col);
        let k = char_index(row, t.col);
        assert(k < row.len()) by {
            if k == row.len() {
                assert(row.take(k) =~= row);
            }
        }
        assert(row.remove(k) =~= row.take(k) + row.skip(k + 1));
        assert(row =~= row.take(k) + row.skip(k));
        lemma_utf8_len_concat(row.take(k), row.skip(k));
        lemma_utf8_len_concat(row.take(k), row.skip(k + 1));
        assert(row.skip(k) =~= seq![row[k]] + row.skip(k + 1));
        lemma_utf8_len_concat(seq![row[k]], row.skip(k + 1));
        assert(seq![row[k]].drop_last() =~= Seq::<char>::empty());
    }
}

/// The lines of a text, as `str::lines` splits it: at each `\n`, with a `\r`
/// just before it dropped, and no empty last line after a final `\n`.
pub open spec fn split_at_newlines(s: Seq<char>) -> Seq<Seq<char>>
    decreases s.len(),
{
    if s.len() == 0 {
        seq![Seq::empty()]
    } else {
        let init = split_at_newlines(s.drop_last());
        if s.last() == '\n' {
            init.push(Seq::empty())
        } else {
            init.update(init.len() - 1, init.last().push(s.last()))
        }
    }
}

/// A line ended by `\n` loses a `\r` at its end.
pub open spec fn strip_cr(l: Seq<char>) -> Seq<char> {
    if l.len() > 0 && l.last() == '\r' {
        l.drop_last()
    } else {
        l
    }
}

pub open spec fn text_lines(s: Seq<char>) -> Seq<Seq<char>> {
    let pieces = split_at_newlines(s);
    let ended = pieces.drop_last().map_values(|l: Seq<char>| strip_cr(l));
    if pieces.last().len() == 0 {
        ended
    } else {
        ended.push(pieces.last())
    }
}

proof fn lemma_split_nonempty(s: Seq<char>)
    ensures
        split_at_newlines(s).len() >= 1,
    decreases s.len(),
{
    if s.len() > 0 {
        lemma_split_nonempty(s.drop_last());
    }
}

/// The lines of `text`, as `str::lines` gives them.
pub fn lines_of(text: &str) -> (r: Vec<Vec<char>>)
    ensures
        r@.map_values(|l: Vec<char>| l@) == text_lines(text@),
{
    let cs = chars_of(text);
    let mut done: Vec<Vec<char>> = Vec::new();
    let mut cur: Vec<char> = Vec::new();
    let mut i: usize = 0;
    while i < cs.len()
        invariant
            i <= cs@.len(),
            done@.map_values(|l: Vec<char>| l@) + seq![cur@] == split_at_newlines(cs@.take(i as int)),
        decreases cs@.len() - i,
    {
        let ghost before = done@.map_values(|l: Vec<char>| l@) + seq![cur@];
        proof {
            assert(cs@.take(i + 1).drop_last() =~= cs@.take(i as int));
            lemma_split_nonempty(cs@.take(i as int));
        }
        if cs[i] == '\n' {
            let finished = cur;
            done.push(finished);
            cur = Vec::new();
            proof {
                assert(done@.map_values(|l: Vec<char>| l@) + seq![cur@] =~= before.push(Seq::<char>::empty()));
            }
        } else {
            cur.push(cs[i]);
            proof {
                assert(done@.map_values(|l: Vec<char>| l@) + seq![cur@] =~= before.update(before.len() - 1, before.last().push(cs@[i as int])));
            }
        }
        i = i + 1;
    }
    proof {
        assert(cs@.take(cs@.len() as int) =~= cs@);
    }
    let ghost pieces = split_at_newlines(cs@);
    let ghost done_view = done@.map_values(|l: Vec<char>| l@);
    let mut r: Vec<Vec<char>> = Vec::new();
    let mut k: usize = 0;
    while k < done.len()
        invariant
            k <= done@.len(),
            done_view == done@.map_values(|l: Vec<char>| l@),
            pieces == done_view + seq![cur@],
            r@.map_values(|l: Vec<char>| l@) == pieces.drop_last().map_values(|l: Seq<char>| strip_cr(l)).take(k as int),
        decreases done@.len() - k,
    {
        let mut line = done[k].clone();
        proof {
            assert(line@ == done@[k as int]@);
            assert(pieces.drop_last()[k as int] == line@);
        }
        let n = line.len();
        if n > 0 && line[n - 1] == '\r' {
            line.pop();
        }
        let ghost old_r = r@;
        r.push(line);
        proof {
            assert(r@.map_values(|l: Vec<char>| l@) =~= old_r.map_values(|l: Vec<char>| l@).push(line@));
            assert(pieces.drop_last().map_values(|l: Seq<char>| strip_cr(l)).take(k + 1) =~= pieces.drop_last().map_values(|l: Seq<char>| strip_cr(l)).take(k as int).push(line@));
        }
        k = k + 1;
    }
    proof {
        assert(pieces.drop_last() =~= done_view);
        assert(pieces.drop_last().map_values(|l: Seq<char>| strip_cr(l)).take(k as int) =~= pieces.drop_last().map_values(|l: Seq<char>| strip_cr(l)));
        assert(pieces.last() == cur@);
    }
    if cur.len() > 0 {
        let ghost old_r = r@;
        r.push(cur);
        proof {
            assert(r@.map_values(|l: Vec<char>| l@) =~= old_r.map_values(|l: Vec<char>| l@).push(pieces.last()));
        }
    }
    r
}

/// Each line of a text takes up at most as many bytes as the whole text.
proof fn lemma_split_lines_fit(s: Seq<char>)
    ensures
        forall|i: int| 0 <= i < split_at_newlines(s).len() ==> utf8_len(#[trigger] split_at_newlines(s)[i]) <= utf8_len(s),
    decreases s.len(),
{
    if s.len() > 0 {
        lemma_split_lines_fit(s.drop_last());
        lemma_split_nonempty(s.drop_last());
        let init = split_at_newlines(s.drop_last());
        if s.last() != '\n' {
            let l = init.last().push(s.last());
            assert(l.drop_last() =~= init.last());
            assert(utf8_len(l) <= utf8_len(s));
            assert forall|i: int| 0 <= i < split_at_newlines(s).len() implies utf8_len(
                #[trigger] split_at_newlines(s)[i],
            ) <= utf8_len(s) by {
                if i < init.len() - 1 {
                    assert(split_at_newlines(s)[i] == init[i]);
                }
            }
        } else {
            assert forall|i: int| 0 <= i < split_at_newlines(s).len() implies utf8_len(
                #[trigger] split_at_newlines(s)[i],
            ) <= utf8_len(s) by {
                if i < init.len() {
                    assert(split_at_newlines(s)[i] == init[i]);
                } else {
                    assert(split_at_newlines(s)[i] =~= Seq::<char>::empty());
                }
            }
        }
    }
}

proof fn lemma_text_lines_fit(s: Seq<char>)
    ensures
        forall|i: int| 0 <= i < text_lines(s).len() ==> utf8_len(#[trigger] text_lines(s)[i]) <= utf8_len(s),
{
    lemma_split_lines_fit(s);
    lemma_split_nonempty(s);
    let pieces = split_at_newlines(s);
    assert forall|i: int| 0 <= i < text_lines(s).len() implies utf8_len(#[trigger] text_lines(s)[i]) <= utf8_len(s) by {
        if i < pieces.len() - 1 {
            let l = pieces[i];
            assert(pieces.drop_last()[i] == l);
            assert(text_lines(s)[i] == strip_cr(l));
            if l.len() > 0 && l.last() == '\r' {
                assert(utf8_len(l) == utf8_len(l.drop_last()) + utf8_width(l.last()));
            }
        } else {
            assert(text_lines(s)[i] == pieces.last());
        }
    }
}

/// Every line, counted in bytes, fits in a `usize`.
pub open spec fn lines_fit(s: BufferState) -> bool {
    forall|i: int| 0 <= i < s.rows.len() ==> #[trigger] utf8_len(s.rows[i]) <= usize::MAX
}

/// Joining the lines that a backspace at the start of a line joins gives a
/// line that fits in a `usize` of bytes.
pub open spec fn joins_fit(s: BufferState) -> bool {
    s.col == 0 && s.line > 0 ==> {
        let t = spec_move(s, Direction::Left);
        line_len(t.rows[t.line]) + line_len(t.rows[t.line + 1]) <= usize::MAX
    }
}

/// The keys that can be handled without stopping the program: backspace where
/// it can apply, typing and splitting a line where a character starts, and no
/// line longer than a `usize` of bytes. A buffer without lines takes only
/// up, left, enter, backspace and the keys that change nothing.
pub open spec fn accepts_key(s: BufferState, key: Key) -> bool {
    if s.rows.len() == 0 {
        key is Up || key is Left || key is Enter || key is Backspace || key is Quit || key is Other
    } else {
        match key {
            Key::Backspace => can_backspace(s) && joins_fit(s),
            Key::Enter => at_boundary(s),
            Key::Char(c) => at_boundary(s) && line_len(s.rows[s.line]) + utf8_width(c) <= usize::MAX,
            _ => true,
        }
    }
}

/// Number of bytes that the characters of `row` take up in UTF-8.
fn line_bytes(row: &Vec<char>) -> (n: usize)
    requires
        utf8_len(row@) <= usize::MAX,
    ensures
        n == utf8_len(row@),
{
    let mut n: usize = 0;
    let mut i: usize = 0;
    while i < row.len()
        invariant
            i <= row@.len(),
            n == utf8_len(row@.take(i as int)),
            utf8_len(row@) <= usize::MAX,
        decreases row@.len() - i,
    {
        proof {
            lemma_utf8_len_take_step(row@, i as int);
            lemma_utf8_len_prefix(row@, i + 1);
        }
        n = n + char_utf8_width(row[i]) as usize;
        i = i + 1;
    }
    proof {
        assert(row@.take(row@.len() as int) =~= row@);
    }
    n
}

/// The index of the character that starts at byte `col` of `row` (the number
/// of characters, at its end); `None` where no character starts there.
fn char_index_of(row: &Vec<char>, col: usize) -> (r: Option<usize>)
    ensures
        r is Some <==> is_boundary(row@, col as int),
        r matches Some(k) ==> k == char_index(row@, col as int),
{
    let mut acc: usize = 0;
    let mut k: usize = 0;
    while k < row.len() && acc < col
        invariant
            k <= row@.len(),
            acc == utf8_len(row@.take(k as int)),
            acc <= col,
        decreases row@.len() - k,
    {
        let w = char_utf8_width(row[k]) as usize;
        proof {
            lemma_utf8_len_take_step(row@, k as int);
        }
        if col - acc < w {
            proof {
                // `col` falls inside character `k`.
                assert forall|j: int| 0 <= j <= row@.len() implies #[trigger] utf8_len(row@.take(j)) != col by {
                    if j < k {
                        lemma_prefix_len_increasing(row@, j, k as int);
                    } else if j > k + 1 {
                        lemma_prefix_len_increasing(row@, k + 1, j);
                    }
                }
            }
            return None;
        }
        acc = acc + w;
        k = k + 1;
    }
    if acc == col {
        proof {
            lemma_char_index(row@, k as int);
        }
        Some(k)
    } else {
        proof {
            // `col` lies past the end of the line.
            assert(k == row@.len());
            assert forall|j: int| 0 <= j <= row@.len() implies #[trigger] utf8_len(row@.take(j)) != col by {
                if j < k {
                    lemma_prefix_len_increasing(row@, j, k as int);
                }
            }
        }
        None
    }
}

/// A text buffer with a cursor and a window onto it.
#[derive(Debug)]
pub struct Buffer {
    rows: Vec<Vec<char>>,
    top_line: usize,
    line_nr: usize,
    col_nr: usize,
    window_lines: usize,
    window_cols: usize,
}

impl Buffer {
    /// The buffer as the contracts see it.
    pub closed spec fn state(&self) -> BufferState {
        BufferState {
            rows: self.rows@.map_values(|r: Vec<char>| r@),
            line: self.line_nr as int,
            col: self.col_nr as int,
            top: self.top_line as int,
            window_lines: self.window_lines as int,
            window_cols: self.window_cols as int,
        }
    }

    pub closed spec fn wf(&self) -> bool {
        &&& state_wf(self.state()) || empty_state(self.state())
        &&& lines_fit(self.state())
    }

    /// What a well-formed buffer gives its users: the cursor is in the
    /// buffer, or the buffer has no lines; and every line fits in a `usize`
    /// of bytes (so the laws on `BufferState` apply to `self.state()` where
    /// it has lines).
    pub proof fn lemma_wf(&self)
        requires
            self.wf(),
        ensures
            state_wf(self.state()) || empty_state(self.state()),
            self.state().rows.len() >= 1 ==> state_wf(self.state()),
            lines_fit(self.state()),
    {
    }

    /// A buffer holding the lines of `text`, with the cursor at the start of the
    /// first line and the window at the top, for a window of `window_lines`
    /// lines and `window_cols` columns. A text with no lines gives a buffer
    /// without lines.
    pub fn new(text: &str, window_lines: usize, window_cols: usize) -> (b: Buffer)
        requires
            utf8_len(text@) <= usize::MAX,
        ensures
            b.wf(),
            b.state().rows == text_lines(text@),
            b.state().line == 0,
            b.state().col == 0,
            b.state().top == 0,
            b.state().window_lines == window_lines,
            b.state().window_cols == window_cols,
    {
        let rows = lines_of(text);
        proof {
            lemma_text_lines_fit(text@);
        }
        let b = Buffer { rows, top_line: 0, line_nr: 0, col_nr: 0, window_lines, window_cols };
        proof {
            assert forall|i: int| 0 <= i < b.state().rows.len() implies #[trigger] utf8_len(b.state().rows[i]) <= usize::MAX by {
                assert(b.state().rows[i] == text_lines(text@)[i]);
            }
        }
        b
    }

    /// Takes line `l` out of the buffer, leaving an empty line in its place.
    fn take_row(&mut self, l: usize) -> (row: Vec<char>)
        requires
            l < old(self).rows@.len(),
        ensures
            row@ == old(self).rows@[l as int]@,
            final(self).rows@ == old(self).rows@.update(l as int, final(self).rows@[l as int]),
            final(self).rows@[l as int]@.len() == 0,
            final(self).top_line == old(self).top_line,
            final(self).line_nr == old(self).line_nr,
            final(self).col_nr == old(self).col_nr,
            final(self).window_lines == old(self).window_lines,
            final(self).window_cols == old(self).window_cols,
    {
        let mut row: Vec<char> = Vec::new();
        std::mem::swap(&mut row, &mut self.rows[l]);
        row
    }

    /// Number of bytes on the cursor's line.
    pub fn current_line_len(&self) -> (n: usize)
        requires
            self.wf(),
            self.state().rows.len() >= 1,
        ensures
            n == line_len(self.state().rows[self.state().line]),
    {
        line_bytes(&self.rows[self.line_nr])
    }

    pub fn is_on_first_line(&self) -> (b: bool)
        ensures
            b == (self.state().line == 0),
    {
        self.line_nr == 0
    }

    pub fn is_on_last_line(&self) -> (b: bool)
        requires
            self.wf(),
            self.state().rows.len() >= 1,
        ensures
            b == (self.state().line == self.state().rows.len() - 1),
    {
        self.line_nr == self.rows.len() - 1
    }

    pub fn is_on_first_col(&self) -> (b: bool)
        ensures
            b == (self.state().col == 0),
    {
        self.col_nr == 0
    }

    pub fn is_on_last_col(&self) -> (b: bool)
        requires
            self.wf(),
            self.state().rows.len() >= 1,
        ensures
            b == (self.state().col == line_len(self.state().rows[self.state().line])),
    {
        self.col_nr == self.current_line_len()
    }

    /// Moves the window as little as needed for the cursor's line to be in it.
    pub fn scroll(&mut self)
        requires
            old(self).wf(),
        ensures
            final(self).wf(),
            final(self).state() == (BufferState {
                top: scrolled_top(old(self).state().line, old(self).state().top, old(self).state().window_lines),
                ..old(self).state()
            }),
    {
        proof {
            assert(self.rows@.len() == self.rows.len());
        }
        if self.line_nr < self.top_line {
            self.top_line = self.line_nr;
        } else if self.line_nr - self.top_line >= self.window_lines {
            self.top_line = self.line_nr - self.window_lines + 1;
        }
    }

    /// Moves the cursor one step in direction `d`; the window follows.
    pub fn move_cursor(&mut self, d: Direction)
        requires
            old(self).wf(),
            old(self).state().rows.len() >= 1 || d == Direction::Up || d == Direction::Left,
        ensures
            final(self).wf(),
            final(self).state() == spec_move(old(self).state(), d),
    {
        proof {
            if self.rows@.len() >= 1 {
                lemma_move_wf(self.state(), d);
            }
            assert(self.rows@.len() == self.rows.len());
        }
        match d {
            Direction::Up => {
                if !self.is_on_first_line() {
                    self.line_nr = self.line_nr - 1;
                    self.snap_cursor_to_eol();
                }
            },
            Direction::Down => {
                if !self.is_on_last_line() {
                    self.line_nr = self.line_nr + 1;
                    self.snap_cursor_to_eol();
                }
            },
            Direction::Left => {
                if !self.is_on_first_col() {
                    self.col_nr = self.col_nr - 1;
                } else if !self.is_on_first_line() {
                    self.line_nr = self.line_nr - 1;
                    self.col_nr = self.current_line_len();
                }
            },
            Direction::Right => {
                if !self.is_on_last_col() {
                    self.col_nr = self.col_nr + 1;
                } else if !self.is_on_last_line() {
                    self.line_nr = self.line_nr + 1;
                    self.col_nr = 0;
                }
            },
        }
        self.scroll();
    }

    /// Puts the cursor at the end of its line where it was past it.
    pub fn snap_cursor_to_eol(&mut self)
        requires
            old(self).state().rows.len() >= 1,
            0 <= old(self).state().line < old(self).state().rows.len(),
            lines_fit(old(self).state()),
        ensures
            final(self).wf(),
            final(self).state() == (BufferState {
                col: if old(self).state().col >= line_len(old(self).state().rows[old(self).state().line]) {
                    line_len(old(self).state().rows[old(self).state().line])
                } else {
                    old(self).state().col
                },
                ..old(self).state()
            }),
    {
        let current_line_len = line_bytes(&self.rows[self.line_nr]);
        if self.col_nr >= current_line_len {
            self.col_nr = current_line_len;
        }
    }

    /// Types `c` at the cursor, which then moves one byte on. The cursor must
    /// stand where a character starts (or at the end of the line), and the
    /// line must stay within a `usize` of bytes.
    pub fn insert_char(&mut self, c: char)
        requires
            old(self).wf(),
            old(self).state().rows.len() >= 1,
            at_boundary(old(self).state()),
            line_len(old(self).state().rows[old(self).state().line]) + utf8_width(c) <= usize::MAX,
        ensures
            final(self).wf(),
            final(self).state() == spec_insert_char(old(self).state(), c),
    {
        let ghost s0 = self.state();
        let l = self.line_nr;
        let k = match char_index_of(&self.rows[l], self.col_nr) {
            Some(k) => k,
            None => return,
        };
        proof {
            lemma_boundary(s0.rows[s0.line], s0.col);
            lemma_insert_at(s0.rows[s0.line], k as int, c);
        }
        let mut row = self.take_row(l);
        row.insert(k, c);
        self.rows.set(l, row);
        proof {
            assert(self.state().rows =~= s0.rows.update(s0.line, s0.rows[s0.line].insert(k as int, c)));
        }
        self.move_cursor(Direction::Right);
    }

    /// Splits the line at the cursor; the cursor goes to the start of the new
    /// line below. The cursor must stand where a character starts (or at the
    /// end of the line).
    pub fn insert_newline(&mut self)
        requires
            old(self).wf(),
            old(self).state().rows.len() == 0 || at_boundary(old(self).state()),
        ensures
            final(self).wf(),
            final(self).state() == spec_insert_newline(old(self).state()),
    {
        if self.rows.len() == 0 {
            self.rows.insert(0, Vec::new());
            self.col_nr = 0;
            proof {
                assert(self.state().rows =~= seq![Seq::<char>::empty()]);
            }
            self.move_cursor(Direction::Down);
            return;
        }
        let ghost s0 = self.state();
        let ghost row = s0.rows[s0.line];
        let l = self.line_nr;
        proof {
            assert(self.rows@.len() == self.rows.len());
            lemma_line_ends(row);
            lemma_boundary(row, s0.col);
            let k = char_index(row, s0.col);
            lemma_utf8_len_prefix(row, k);
            lemma_utf8_len_concat(row.take(k), row.skip(k));
            assert(row.take(k) + row.skip(k) =~= row);
        }
        if self.is_on_first_col() {
            self.rows.insert(l, Vec::new());
            proof {
                assert(row.take(0) =~= Seq::<char>::empty());
                assert(row.skip(0) =~= row);
                assert(self.state().rows =~= s0.rows.update(s0.line, row.take(0)).insert(s0.line + 1, row.skip(0)));
            }
        } else if self.is_on_last_col() {
            self.rows.insert(l + 1, Vec::new());
            proof {
                assert(row.take(row.len() as int) =~= row);
                assert(row.skip(row.len() as int) =~= Seq::<char>::empty());
                assert(self.state().rows =~= s0.rows.update(s0.line, row.take(row.len() as int)).insert(
                    s0.line + 1,
                    row.skip(row.len() as int),
                ));
            }
        } else {
            let k = match char_index_of(&self.rows[l], self.col_nr) {
                Some(k) => k,
                None => return,
            };
            let mut head = self.take_row(l);
            let tail = head.split_off(k);
            self.rows.set(l, head);
            self.rows.insert(l + 1, tail);
            proof {
                assert(self.state().rows =~= s0.rows.update(s0.line, row.take(k as int)).insert(s0.line + 1, row.skip(k as int)));
            }
        }
        self.col_nr = 0;
        proof {
            assert forall|i: int| 0 <= i < self.state().rows.len() implies #[trigger] utf8_len(self.state().rows[i]) <= usize::MAX by {
                if i < s0.line {
                    assert(self.state().rows[i] == s0.rows[i]);
                } else if i > s0.line + 1 {
                    assert(self.state().rows[i] == s0.rows[i - 1]);
                }
            }
        }
        self.move_cursor(Direction::Down);
    }

    /// Deletes the character before the cursor, or joins the cursor's line onto
    /// the one above it when the cursor is at the start of a line; at the start
    /// of the buffer there is nothing before the cursor, and nothing changes.
    pub fn backspace(&mut self)
        requires
            old(self).wf(),
            can_backspace(old(self).state()),
            joins_fit(old(self).state()),
        ensures
            final(self).wf(),
            final(self).state() == spec_backspace(old(self).state()),
    {
        if self.line_nr == 0 && self.col_nr == 0 {
            return;
        }
        let ghost s0 = self.state();
        proof {
            lemma_backspace_wf(s0);
        }
        let was_on_first_col = self.is_on_first_col();
        self.move_cursor(Direction::Left);
        let ghost t = self.state();
        let l = self.line_nr;
        if was_on_first_col {
            let joined_line = self.rows[l + 1].clone();
            let mut row = self.take_row(l);
            let mut joined = joined_line;
            row.append(&mut joined);
            self.rows.set(l, row);
            self.rows.remove(l + 1);
            proof {
                assert(self.state().rows =~= t.rows.update(t.line, t.rows[t.line] + t.rows[t.line + 1]).remove(t.line + 1));
                lemma_utf8_len_concat(t.rows[t.line], t.rows[t.line + 1]);
                assert forall|i: int| 0 <= i < self.state().rows.len() implies #[trigger] utf8_len(self.state().rows[i]) <= usize::MAX by {
                    if i < t.line {
                        assert(self.state().rows[i] == t.rows[i]);
                    } else if i > t.line {
                        assert(self.state().rows[i] == t.rows[i + 1]);
                    }
                }
            }
        } else {
            let k = match char_index_of(&self.rows[l], self.col_nr) {
                Some(k) => k,
                None => return,
            };
            proof {
                let r = t.rows[t.line];
                lemma_boundary(r, t.col);
                if k == r.len() {
                    assert(r.take(k as int) =~= r);
                }
            }
            let mut row = self.take_row(l);
            row.remove(k);
            self.rows.set(l, row);
            proof {
                assert(self.state().rows =~= t.rows.update(t.line, t.rows[t.line].remove(k as int)));
                let r = t.rows[t.line];
                assert(r.remove(k as int) =~= r.take(k as int) + r.skip(k + 1));
                assert(r =~= r.take(k as int) + r.skip(k as int));
                lemma_utf8_len_concat(r.take(k as int), r.skip(k as int));
                lemma_utf8_len_concat(r.take(k as int), r.skip(k + 1));
                assert(r.skip(k as int) =~= seq![r[k as int]] + r.skip(k + 1));
                lemma_utf8_len_concat(seq![r[k as int]], r.skip(k + 1));
                assert forall|i: int| 0 <= i < self.state().rows.len() implies #[trigger] utf8_len(self.state().rows[i]) <= usize::MAX by {
                    if i != t.line {
                        assert(self.state().rows[i] == t.rows[i]);
                    }
                }
            }
        }
    }

    /// Whether backspace may be pressed: where the byte before the cursor
    /// starts a character, or at the start of a line.
    pub fn can_backspace(&self) -> (b: bool)
        requires
            self.wf(),
        ensures
            b == can_backspace(self.state()),
    {
        if self.col_nr > 0 {
            char_index_of(&self.rows[self.line_nr], self.col_nr - 1).is_some()
        } else {
            true
        }
    }

    /// Whether `key` can be handled without stopping the program.
    pub fn accepts(&self, key: Key) -> (b: bool)
        requires
            self.wf(),
        ensures
            b == accepts_key(self.state(), key),
    {
        if self.rows.len() == 0 {
            return match key {
                Key::Up | Key::Left | Key::Enter | Key::Backspace | Key::Quit | Key::Other => true,
                _ => false,
            };
        }
        match key {
            Key::Backspace => {
                if !self.can_backspace() {
                    false
                } else if self.col_nr == 0 && self.line_nr > 0 {
                    let above = self.line_nr - 1;
                    proof {
                        assert(self.state().rows[above as int] == self.rows@[above as int]@);
                        assert(self.state().rows[above + 1] == self.rows@[above + 1]@);
                    }
                    let a = line_bytes(&self.rows[above]);
                    let b = line_bytes(&self.rows[above + 1]);
                    a <= usize::MAX - b
                } else {
                    true
                }
            },
            Key::Enter => char_index_of(&self.rows[self.line_nr], self.col_nr).is_some(),
            Key::Char(c) => {
                char_index_of(&self.rows[self.line_nr], self.col_nr).is_some()
                    && self.current_line_len() <= usize::MAX - char_utf8_width(c) as usize
            },
            _ => true,
        }
    }

    /// Takes on a new window size; the cursor and the lines stay.
    pub fn update_window_dimens(&mut self, window_lines: usize, window_cols: usize)
        ensures
            final(self).state() == (BufferState {
                window_lines: window_lines as int,
                window_cols: window_cols as int,
                ..old(self).state()
            }),
    {
        self.window_lines = window_lines;
        self.window_cols = window_cols;
    }

    /// Acts on one key: moves, types or deletes. Says whether editing goes on
    /// (`false` for the quit key). The key must be one that `accepts` takes.
    pub fn handle_key(&mut self, key: Key) -> (go_on: bool)
        requires
            old(self).wf(),
            accepts_key(old(self).state(), key),
        ensures
            final(self).wf(),
            go_on == !(key is Quit),
            final(self).state() == (match key {
                Key::Up => spec_move(old(self).state(), Direction::Up),
                Key::Down => spec_move(old(self).state(), Direction::Down),
                Key::Left => spec_move(old(self).state(), Direction::Left),
                Key::Right => spec_move(old(self).state(), Direction::Right),
                Key::Backspace => spec_backspace(old(self).state()),
                Key::Enter => spec_insert_newline(old(self).state()),
                Key::Char(c) => spec_insert_char(old(self).state(), c),
                Key::Quit => old(self).state(),
                Key::Other => old(self).state(),
            }),
    {
        match key {
            Key::Up => self.move_cursor(Direction::Up),
            Key::Down => self.move_cursor(Direction::Down),
            Key::Left => self.move_cursor(Direction::Left),
            Key::Right => self.move_cursor(Direction::Right),
            Key::Backspace => self.backspace(),
            Key::Enter => self.insert_newline(),
            Key::Char(c) => self.insert_char(c),
            Key::Quit => {
                return false;
            },
            Key::Other => {},
        }
        true
    }

    /// The lines that the window shows: from the window's first line on, as
    /// many as fit, each cut to the window's width in bytes; `None` where a
    /// line would be cut inside a character.
    pub fn visible_rows(&self) -> (r: Option<Vec<String>>)
        requires
            self.wf(),
        ensures
            r is Some <==> cuts_at_boundaries(self.state()),
            r matches Some(v) ==> {
                &&& v@.len() == visible_count(self.state())
                &&& forall|k: int| 0 <= k < v@.len() ==> #[trigger] v@[k]@ == visible_row(self.state(), self.state().top + k)
            },
    {
        let ghost st = self.state();
        let mut r: Vec<String> = Vec::new();
        let mut i = self.top_line;
        while i < self.rows.len() && i - self.top_line < self.window_lines
            invariant
                self.wf(),
                st == self.state(),
                self.top_line <= i,
                i - self.top_line == r@.len(),
                i <= self.rows@.len() || r@.len() == 0,
                r@.len() <= visible_count(st),
                forall|k: int| 0 <= k < r@.len() ==> #[trigger] r@[k]@ == visible_row(st, st.top + k),
                forall|j: int| st.top <= j < st.top + r@.len() && line_len(st.rows[j]) > st.window_cols
                    ==> #[trigger] is_boundary(st.rows[j], st.window_cols),
            decreases self.rows@.len() - i,
        {
            let row = &self.rows[i];
            proof {
                assert(row@ == st.rows[i as int]);
            }
            let n = line_bytes(row);
            let k = if n > self.window_cols {
                match char_index_of(row, self.window_cols) {
                    Some(k) => k,
                    None => {
                        return None;
                    },
                }
            } else {
                row.len()
            };
            proof {
                if n > self.window_cols {
                    lemma_boundary(row@, self.window_cols as int);
                }
            }
            let shown = string_of_range(row, 0, k);
            proof {
                assert(row@.subrange(0, row@.len() as int) =~= row@);
                assert(shown@ == visible_row(st, i as int));
            }
            r.push(shown);
            i = i + 1;
        }
        Some(r)
    }

    /// Where the cursor is on the screen: its column and its line counted from
    /// the window's first line.
    pub fn cursor_screen_pos(&self) -> (p: (usize, usize))
        requires
            self.state().top <= self.state().line,
        ensures
            p.0 == self.state().col,
            p.1 == self.state().line - self.state().top,
    {
        (self.col_nr, self.line_nr - self.top_line)
    }

    /// The buffer's lines, as text.
    pub fn lines(&self) -> (r: Vec<String>)
        ensures
            r@.len() == self.state().rows.len(),
            forall|k: int| 0 <= k < r@.len() ==> #[trigger] r@[k]@ == self.state().rows[k],
    {
        let mut r: Vec<String> = Vec::new();
        let mut i: usize = 0;
        while i < self.rows.len()
            invariant
                i <= self.rows@.len(),
                r@.len() == i,
                forall|k: int| 0 <= k < i ==> #[trigger] r@[k]@ == self.state().rows[k],
            decreases self.rows@.len() - i,
        {
            r.push(string_of(&self.rows[i]));
            i = i + 1;
        }
        r
    }

    /// The cursor's line and column.
    pub fn cursor(&self) -> (p: (usize, usize))
        ensures
            p.0 == self.state().line,
            p.1 == self.state().col,
    {
        (self.line_nr, self.col_nr)
    }

    /// The first line that the window shows.
    pub fn top_line(&self) -> (t: usize)
        ensures
            t == self.state().top,
    {
        self.top_line
    }
}

/// How many lines the window shows.
pub open spec fn visible_count(s: BufferState) -> int {
    if s.top >= s.rows.len() {
        0
    } else if s.rows.len() - s.top < s.window_lines {
        s.rows.len() - s.top
    } else {
        s.window_lines
    }
}

/// Every line that the window shows and cuts to its width is cut where a
/// character starts.
pub open spec fn cuts_at_boundaries(s: BufferState) -> bool {
    forall|i: int| s.top <= i < s.top + visible_count(s) && line_len(s.rows[i]) > s.window_cols
        ==> #[trigger] is_boundary(s.rows[i], s.window_cols)
}

/// Line `i` of the buffer as the window shows it: cut to the window's width
/// in bytes.
pub open spec fn visible_row(s: BufferState, i: int) -> Seq<char> {
    if line_len(s.rows[i]) > s.window_cols {
        s.rows[i].take(char_index(s.rows[i], s.window_cols))
    } else {
        s.rows[i]
    }
}

} // verus!
