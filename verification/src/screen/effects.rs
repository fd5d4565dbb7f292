//! What each kind of terminal output does to the cells, the cursor and the
//! transcript, and how the rows of the grid are laid out in its text.
use vstd::prelude::*;
use super::{Cell, CellAttr, Color};
use super::model::{
    blank_cell, csi, esc, execute, model_wf, osc, param_or, print, recording, row_snapshot, snapshot_len, user_input,
    ScreenModel,
};
use vstd::utf8::{decode_utf8, valid_utf8};
use vstd::utf8::encode_utf8;
use super::render::{
    ansi_content_len, ansi_upto, content_len, newlines, row_ansi, row_chars, screen_ansi, screen_text, text_upto,
};

verus! {

/// Erase in display. With the cursor at column `x` of row `y` inside the grid,
/// mode 0 blanks row `y` from column `x` on and every row below it, mode 1 blanks
/// every row above it and row `y` up to and including column `x`, and modes 2 and 3
/// blank the whole grid; every other cell, the cursor and the size stay as they
/// were.
pub proof fn lemma_erase_in_display(s: ScreenModel, params: Seq<u16>, inter: Seq<u8>)
    requires
        model_wf(s),
        s.cursor_x <= s.cols,
        s.cursor_y < s.rows,
    ensures
        ({
            let t = csi(s, params, inter, 'J');
            let m = param_or(params, 0, 0);
            let x = s.cursor_x as int;
            let y = s.cursor_y as int;
            &&& t.cols == s.cols && t.rows == s.rows
            &&& t.cursor_x == s.cursor_x && t.cursor_y == s.cursor_y
            &&& t.grid.len() == s.rows
            &&& forall|r: int| 0 <= r < s.rows ==> (#[trigger] t.grid[r]).len() == s.cols
            &&& forall|r: int, c: int|
                0 <= r < s.rows && 0 <= c < s.cols ==> #[trigger] t.grid[r][c] == if (m == 0 && (r > y || (r == y
                    && c >= x))) || (m == 1 && (r < y || (r == y && c <= x))) || m == 2 || m == 3 {
                    blank_cell()
                } else {
                    s.grid[r][c]
                }
        }),
{
}

/// Erase in line. With the cursor at column `x` of row `y` inside the grid, mode 0
/// blanks row `y` from column `x` on, mode 1 blanks it up to and including column
/// `x`, and mode 2 blanks the whole row; no other row changes, and the cursor and
/// the size stay as they were.
pub proof fn lemma_erase_in_line(s: ScreenModel, params: Seq<u16>, inter: Seq<u8>)
    requires
        model_wf(s),
        s.cursor_x <= s.cols,
        s.cursor_y < s.rows,
    ensures
        ({
            let t = csi(s, params, inter, 'K');
            let m = param_or(params, 0, 0);
            let x = s.cursor_x as int;
            let y = s.cursor_y as int;
            &&& t.cols == s.cols && t.rows == s.rows
            &&& t.cursor_x == s.cursor_x && t.cursor_y == s.cursor_y
            &&& t.grid.len() == s.rows
            &&& forall|r: int| 0 <= r < s.rows ==> (#[trigger] t.grid[r]).len() == s.cols
            &&& forall|r: int, c: int|
                0 <= r < s.rows && 0 <= c < s.cols ==> #[trigger] t.grid[r][c] == if r == y && ((m == 0 && c >= x)
                    || (m == 1 && c <= x) || m == 2) {
                    blank_cell()
                } else {
                    s.grid[r][c]
                }
        }),
{
}

/// Nothing is left of a run of cells once trailing blanks and dim cells are dropped
/// exactly when every one of them is a blank or dim.
proof fn lemma_snapshot_empty(cells: Seq<Cell>)
    ensures
        snapshot_len(cells) <= cells.len(),
        (snapshot_len(cells) == 0) == (forall|i: int| 0 <= i < cells.len() ==> (#[trigger] cells[i]).ch == ' ' || cells[i].attr.dim),
    decreases cells.len(),
{
    if cells.len() > 0 {
        lemma_snapshot_empty(cells.drop_last());
        let d = cells.drop_last();
        assert forall|i: int| 0 <= i < d.len() implies #[trigger] d[i] == cells[i] by {}
        if cells.last().ch == ' ' || cells.last().attr.dim {
            if forall|i: int| 0 <= i < d.len() ==> (#[trigger] d[i]).ch == ' ' || d[i].attr.dim {
                assert forall|i: int| 0 <= i < cells.len() implies (#[trigger] cells[i]).ch == ' ' || cells[i].attr.dim by {
                    if i < d.len() {
                        assert(d[i] == cells[i]);
                    }
                }
            }
        }
    }
}

/// A line feed while the transcript records commits the line being typed, taken
/// from what the cursor row shows up to the column where a pending carriage return
/// left the cursor (else the cursor column). A row that shows nothing there is a
/// blank line: it adds one line feed to the committed lines, unless they are empty
/// or already end in a blank line (two line feeds). A row that shows something adds
/// its text and a line feed. Either way the line being typed starts afresh.
pub proof fn lemma_line_feed_commits(s: ScreenModel)
    requires
        model_wf(s),
        recording(s),
        s.cursor_y < s.rows,
    ensures
        ({
            let t = execute(s, 0x0Au8);
            let from = if s.cr_pending {
                s.cr_col as int
            } else {
                s.cursor_x as int
            };
            let lim = if from <= s.cols {
                from
            } else {
                s.cols as int
            };
            let row = s.grid[s.cursor_y as int];
            let blank = forall|c: int| 0 <= c < lim ==> (#[trigger] row[c]).ch == ' ' || row[c].attr.dim;
            let after_blank = s.log.len() >= 2 && s.log[s.log.len() - 1] == 0x0Au8 && s.log[s.log.len() - 2] == 0x0Au8;
            &&& t.line.len() == 0
            &&& blank && (s.log.len() == 0 || after_blank) ==> t.log == s.log
            &&& blank && s.log.len() > 0 && !after_blank ==> t.log == s.log.push(0x0Au8)
            &&& !blank ==> row_snapshot(row, lim).len() > 0 && t.log == s.log + encode_utf8(row_snapshot(row, lim))
                + seq![0x0Au8]
        }),
{
    let from = if s.cr_pending {
        s.cr_col as int
    } else {
        s.cursor_x as int
    };
    let lim = if from <= s.cols {
        from
    } else {
        s.cols as int
    };
    let row = s.grid[s.cursor_y as int];
    let cells = row.take(lim);
    lemma_snapshot_empty(cells);
    assert forall|c: int| 0 <= c < lim implies #[trigger] cells[c] == row[c] by {}
    assert(encode_utf8(Seq::<char>::empty()) =~= Seq::<u8>::empty());
    assert(s.log + Seq::<u8>::empty() + seq![0x0Au8] =~= s.log.push(0x0Au8));
    let u = super::model::transcript_commit(s);
    let t = execute(s, 0x0Au8);
    assert(t.log == u.log && t.line == u.line);
    assert(super::model::min_u16(from, s.cols as int) as int == lim);
    let snap = row_snapshot(row, lim);
    assert(row.len() == s.cols);
    assert(cells.len() == lim);
    assert(snap.len() == snapshot_len(cells));
    let blank = forall|c: int| 0 <= c < lim ==> (#[trigger] row[c]).ch == ' ' || row[c].attr.dim;
    if blank {
        assert forall|i: int| 0 <= i < cells.len() implies (#[trigger] cells[i]).ch == ' ' || cells[i].attr.dim by {
            assert(cells[i] == row[i]);
        }
        assert(snap.len() == 0);
        assert(snap =~= Seq::<char>::empty());
    } else {
        let c = choose|c: int| 0 <= c < lim && !((#[trigger] row[c]).ch == ' ' || row[c].attr.dim);
        assert(cells[c] == row[c]);
        assert(snap.len() > 0);
    }
}


proof fn lemma_row_chars_nonempty(row: Seq<Cell>)
    requires
        content_len(row) > 0,
    ensures
        content_len(row) <= row.len(),
        row_chars(row.take(content_len(row) as int)).len() > 0,
{
    lemma_content_len_bound(row);
}

proof fn lemma_content_len_bound(row: Seq<Cell>)
    ensures
        content_len(row) <= row.len(),
    decreases row.len(),
{
    if row.len() > 0 {
        lemma_content_len_bound(row.drop_last());
    }
}

proof fn lemma_row_ansi_nonempty(row: Seq<Cell>)
    requires
        ansi_content_len(row) > 0,
    ensures
        row_ansi(row.take(ansi_content_len(row) as int)).len() > 0,
{
    lemma_ansi_content_len_bound(row);
    lemma_ansi_cells_len(row.take(ansi_content_len(row) as int));
}

proof fn lemma_ansi_content_len_bound(row: Seq<Cell>)
    ensures
        ansi_content_len(row) <= row.len(),
    decreases row.len(),
{
    if row.len() > 0 {
        lemma_ansi_content_len_bound(row.drop_last());
    }
}

proof fn lemma_ansi_cells_len(cells: Seq<Cell>)
    ensures
        super::render::ansi_cells(cells).0.len() >= cells.len(),
    decreases cells.len(),
{
    if cells.len() > 0 {
        lemma_ansi_cells_len(cells.drop_last());
    }
}

proof fn lemma_text_upto_take(g: Seq<Seq<Cell>>, k: int, j: int)
    requires
        0 <= j <= k <= g.len(),
    ensures
        text_upto(g.take(k), j) == text_upto(g, j),
    decreases j,
{
    if j > 0 {
        lemma_text_upto_take(g, k, j - 1);
        assert(g.take(k)[j - 1] == g[j - 1]);
    }
}

proof fn lemma_text_blank_rows(g: Seq<Seq<Cell>>, a: int, b: int)
    requires
        0 <= a <= b <= g.len(),
        forall|r: int| a <= r < b ==> content_len(#[trigger] g[r]) == 0,
    ensures
        text_upto(g, b) == (text_upto(g, a).0, (text_upto(g, a).1 + (b - a)) as nat),
    decreases b - a,
{
    if a < b {
        lemma_text_blank_rows(g, a, b - 1);
    }
}

proof fn lemma_text_content_row(g: Seq<Seq<Cell>>, r: int)
    requires
        0 <= r < g.len(),
        content_len(g[r]) > 0,
    ensures
        ({
            let p = text_upto(g, r);
            let n = content_len(g[r]);
            let r1 = p.0 + newlines(p.1);
            &&& text_upto(g, r + 1).1 == 0
            &&& text_upto(g, r + 1).0 == (if r1.len() > 0 { r1.push('\n') } else { r1 }) + row_chars(g[r].take(n as int))
        }),
{
}

/// In the text of the screen, a row with content follows the previous row with content
/// after exactly one line feed per row between them and one more: each blank row in
/// between is written as a line feed of its own.
pub proof fn lemma_text_next_row(g: Seq<Seq<Cell>>, r1: int, r2: int)
    requires
        0 <= r1 < r2 < g.len(),
        content_len(g[r1]) > 0,
        content_len(g[r2]) > 0,
        forall|r: int| r1 < r < r2 ==> content_len(#[trigger] g[r]) == 0,
    ensures
        screen_text(g.take(r2 + 1)) == screen_text(g.take(r1 + 1)) + newlines((r2 - r1) as nat) + row_chars(
            g[r2].take(content_len(g[r2]) as int),
        ),
{
    lemma_text_upto_take(g, r2 + 1, r2 + 1);
    lemma_text_upto_take(g, r1 + 1, r1 + 1);
    lemma_text_content_row(g, r1);
    lemma_text_blank_rows(g, r1 + 1, r2);
    lemma_text_content_row(g, r2);
    let p = text_upto(g, r1 + 1);
    let q = text_upto(g, r2);
    assert(q.0 == p.0 && q.1 == r2 - r1 - 1);
    assert(p.0.len() > 0) by {
        let pre = text_upto(g, r1);
        let a = pre.0 + newlines(pre.1);
        let b = if a.len() > 0 { a.push('\n') } else { a };
        let n = content_len(g[r1]);
        assert(row_chars(g[r1].take(n as int)).len() > 0) by {
            lemma_row_chars_nonempty(g[r1]);
        }
        assert(p.0 == b + row_chars(g[r1].take(n as int)));
    }
    assert((p.0 + newlines(q.1)).push('\n') =~= p.0 + newlines((r2 - r1) as nat));
}

/// The text of the screen starts with the first row that has content, after one line
/// feed per blank row above it and one more when there are any.
pub proof fn lemma_text_first_row(g: Seq<Seq<Cell>>, f: int)
    requires
        0 <= f < g.len(),
        content_len(g[f]) > 0,
        forall|r: int| 0 <= r < f ==> content_len(#[trigger] g[r]) == 0,
    ensures
        screen_text(g.take(f + 1)) == newlines(f as nat) + (if f > 0 { seq!['\n'] } else { Seq::<char>::empty() }) + row_chars(
            g[f].take(content_len(g[f]) as int),
        ),
{
    lemma_text_upto_take(g, f + 1, f + 1);
    lemma_text_blank_rows(g, 0, f);
    lemma_text_content_row(g, f);
    assert(Seq::<char>::empty() + newlines(f as nat) =~= newlines(f as nat));
    if f > 0 {
        assert(newlines(f as nat).push('\n') =~= newlines(f as nat) + seq!['\n']);
    } else {
        assert(newlines(0) + Seq::<char>::empty() =~= Seq::<char>::empty());
    }
}

/// Blank rows at the bottom of the screen add nothing to its text.
pub proof fn lemma_text_blank_tail(g: Seq<Seq<Cell>>, k: int)
    requires
        0 <= k <= g.len(),
        forall|r: int| k <= r < g.len() ==> content_len(#[trigger] g[r]) == 0,
    ensures
        screen_text(g) == screen_text(g.take(k)),
{
    lemma_text_upto_take(g, k, k);
    lemma_text_blank_rows(g, k, g.len() as int);
}

proof fn lemma_ansi_upto_take(g: Seq<Seq<Cell>>, k: int, j: int)
    requires
        0 <= j <= k <= g.len(),
    ensures
        ansi_upto(g.take(k), j) == ansi_upto(g, j),
    decreases j,
{
    if j > 0 {
        lemma_ansi_upto_take(g, k, j - 1);
        assert(g.take(k)[j - 1] == g[j - 1]);
    }
}

proof fn lemma_ansi_blank_rows(g: Seq<Seq<Cell>>, a: int, b: int)
    requires
        0 <= a <= b <= g.len(),
        forall|r: int| a <= r < b ==> ansi_content_len(#[trigger] g[r]) == 0,
    ensures
        ansi_upto(g, b) == (ansi_upto(g, a).0, (ansi_upto(g, a).1 + (b - a)) as nat),
    decreases b - a,
{
    if a < b {
        lemma_ansi_blank_rows(g, a, b - 1);
    }
}

proof fn lemma_ansi_content_row(g: Seq<Seq<Cell>>, r: int)
    requires
        0 <= r < g.len(),
        ansi_content_len(g[r]) > 0,
    ensures
        ({
            let p = ansi_upto(g, r);
            let n = ansi_content_len(g[r]);
            let r1 = p.0 + newlines(p.1);
            &&& ansi_upto(g, r + 1).1 == 0
            &&& ansi_upto(g, r + 1).0 == (if r1.len() > 0 { r1.push('\n') } else { r1 }) + row_ansi(g[r].take(n as int))
        }),
{
}

/// In the screen rendered with SGR sequences, a row with content follows the previous
/// row with content after exactly one line feed per row between them and one more:
/// each blank row in between is written as a line feed of its own.
pub proof fn lemma_ansi_next_row(g: Seq<Seq<Cell>>, r1: int, r2: int)
    requires
        0 <= r1 < r2 < g.len(),
        ansi_content_len(g[r1]) > 0,
        ansi_content_len(g[r2]) > 0,
        forall|r: int| r1 < r < r2 ==> ansi_content_len(#[trigger] g[r]) == 0,
    ensures
        screen_ansi(g.take(r2 + 1)) == screen_ansi(g.take(r1 + 1)) + newlines((r2 - r1) as nat) + row_ansi(
            g[r2].take(ansi_content_len(g[r2]) as int),
        ),
{
    lemma_ansi_upto_take(g, r2 + 1, r2 + 1);
    lemma_ansi_upto_take(g, r1 + 1, r1 + 1);
    lemma_ansi_content_row(g, r1);
    lemma_ansi_blank_rows(g, r1 + 1, r2);
    lemma_ansi_content_row(g, r2);
    let p = ansi_upto(g, r1 + 1);
    let q = ansi_upto(g, r2);
    assert(q.0 == p.0 && q.1 == r2 - r1 - 1);
    assert(p.0.len() > 0) by {
        let pre = ansi_upto(g, r1);
        let a = pre.0 + newlines(pre.1);
        let b = if a.len() > 0 { a.push('\n') } else { a };
        let n = ansi_content_len(g[r1]);
        assert(row_ansi(g[r1].take(n as int)).len() > 0) by {
            lemma_row_ansi_nonempty(g[r1]);
        }
        assert(p.0 == b + row_ansi(g[r1].take(n as int)));
    }
    assert((p.0 + newlines(q.1)).push('\n') =~= p.0 + newlines((r2 - r1) as nat));
}

/// The screen rendered with SGR sequences starts with the first row that has content,
/// after one line feed per blank row above it and one more when there are any.
pub proof fn lemma_ansi_first_row(g: Seq<Seq<Cell>>, f: int)
    requires
        0 <= f < g.len(),
        ansi_content_len(g[f]) > 0,
        forall|r: int| 0 <= r < f ==> ansi_content_len(#[trigger] g[r]) == 0,
    ensures
        screen_ansi(g.take(f + 1)) == newlines(f as nat) + (if f > 0 { seq!['\n'] } else { Seq::<char>::empty() }) + row_ansi(
            g[f].take(ansi_content_len(g[f]) as int),
        ),
{
    lemma_ansi_upto_take(g, f + 1, f + 1);
    lemma_ansi_blank_rows(g, 0, f);
    lemma_ansi_content_row(g, f);
    assert(Seq::<char>::empty() + newlines(f as nat) =~= newlines(f as nat));
    if f > 0 {
        assert(newlines(f as nat).push('\n') =~= newlines(f as nat) + seq!['\n']);
    } else {
        assert(newlines(0) + Seq::<char>::empty() =~= Seq::<char>::empty());
    }
}

/// Blank rows at the bottom of the screen add nothing to its rendering with SGR
/// sequences.
pub proof fn lemma_ansi_blank_tail(g: Seq<Seq<Cell>>, k: int)
    requires
        0 <= k <= g.len(),
        forall|r: int| k <= r < g.len() ==> ansi_content_len(#[trigger] g[r]) == 0,
    ensures
        screen_ansi(g) == screen_ansi(g.take(k)),
{
    lemma_ansi_upto_take(g, k, k);
    lemma_ansi_blank_rows(g, k, g.len() as int);
}


/// The first parameter of a control sequence, with an absent or zero one taken as one.
pub open spec fn count_param(params: Seq<u16>) -> int {
    if params.len() > 0 && params[0] != 0 {
        params[0] as int
    } else {
        1
    }
}

/// Cursor movement. With the cursor inside the grid and `n` the first parameter
/// (one when absent or zero): up (A) and down (B, e) move `n` rows, stopping at the
/// first and last row; right (C, a) and left (D) move `n` columns, stopping at the
/// last and first column; next line (E) and previous line (F) move `n` rows and to
/// the first column; column (G, `) and row (d) go to the `n`-th one, at most the
/// last; position (H, f) goes to the row given first and the column given second
/// (each one when absent or zero), at most the last. Nothing but the cursor changes,
/// except that arriving at the first column by G records a carriage return for the
/// transcript.
pub proof fn lemma_cursor_moves(s: ScreenModel, params: Seq<u16>, inter: Seq<u8>, action: char)
    requires
        model_wf(s),
        s.cursor_x <= s.cols,
        s.cursor_y < s.rows,
    ensures
        ({
            let t = csi(s, params, inter, action);
            let n = count_param(params);
            let x = s.cursor_x as int;
            let y = s.cursor_y as int;
            let last_col = s.cols - 1;
            let last_row = s.rows - 1;
            let m = if params.len() > 1 && params[1] != 0 { params[1] as int } else { 1 };
            &&& action == 'A' ==> t == ScreenModel { cursor_y: (if y >= n { y - n } else { 0 }) as u16, ..s }
            &&& (action == 'B' || action == 'e') ==> t == ScreenModel {
                cursor_y: (if y + n <= last_row { y + n } else { last_row }) as u16,
                ..s
            }
            &&& (action == 'C' || action == 'a') ==> t == ScreenModel {
                cursor_x: (if x + n <= last_col { x + n } else { last_col }) as u16,
                ..s
            }
            &&& action == 'D' ==> t == ScreenModel { cursor_x: (if x >= n { x - n } else { 0 }) as u16, ..s }
            &&& action == 'E' ==> t == ScreenModel {
                cursor_x: 0,
                cursor_y: (if y + n <= last_row { y + n } else { last_row }) as u16,
                ..s
            }
            &&& action == 'F' ==> t == ScreenModel { cursor_x: 0, cursor_y: (if y >= n { y - n } else { 0 }) as u16, ..s }
            &&& (action == 'G' || action == '`') ==> {
                &&& t.cursor_x == (if n - 1 <= last_col { n - 1 } else { last_col })
                &&& t.grid == s.grid && t.cursor_y == s.cursor_y && t.log == s.log && t.line == s.line
            }
            &&& (action == 'H' || action == 'f') ==> t == ScreenModel {
                cursor_y: (if n - 1 <= last_row { n - 1 } else { last_row }) as u16,
                cursor_x: (if m - 1 <= last_col { m - 1 } else { last_col }) as u16,
                ..s
            }
            &&& action == 'd' ==> t == ScreenModel {
                cursor_y: (if n - 1 <= last_row { n - 1 } else { last_row }) as u16,
                ..s
            }
        }),
{
}

/// Printing a character with the cursor inside a row (not parked past its end)
/// writes the character with the current attributes at the cursor, moves the cursor
/// one column right, and changes no other cell. With the cursor parked past the end
/// of a row and auto-wrap on, the character goes to the first column of the next row
/// (the same row after the scroll region scrolled up when the row is its bottom).
pub proof fn lemma_print_writes(s: ScreenModel, ch: char)
    requires
        model_wf(s),
        s.cursor_y < s.rows,
        s.cursor_x <= s.cols,
    ensures
        ({
            let t = print(s, ch);
            let x = s.cursor_x as int;
            let y = s.cursor_y as int;
            &&& x < s.cols ==> {
                &&& t.cursor_x == x + 1 && t.cursor_y == y
                &&& t.grid[y][x] == (Cell { ch, attr: s.attr })
                &&& forall|r: int, c: int|
                    0 <= r < s.rows && 0 <= c < s.cols && !(r == y && c == x) ==> #[trigger] t.grid[r][c] == s.grid[r][c]
            }
            &&& x == s.cols && s.auto_wrap && y < s.scroll_bottom ==> {
                &&& t.cursor_x == 1 && t.cursor_y == y + 1
                &&& t.grid[y + 1][0] == (Cell { ch, attr: s.attr })
                &&& forall|r: int, c: int|
                    0 <= r < s.rows && 0 <= c < s.cols && !(r == y + 1 && c == 0) ==> #[trigger] t.grid[r][c] == s.grid[r][c]
            }
            &&& x == s.cols && !s.auto_wrap ==> {
                &&& t.cursor_x == s.cols && t.cursor_y == y
                &&& t.grid[y][s.cols - 1] == (Cell { ch, attr: s.attr })
            }
        }),
{
}

/// A line feed (also VT and FF) moves the cursor down one row, keeping its column;
/// on the bottom row of the scroll region the cursor stays and the region scrolls
/// up: each of its rows takes the content of the row below, its bottom row becomes
/// blank, and the rows outside it keep their content.
pub proof fn lemma_line_feed_moves(s: ScreenModel, byte: u8)
    requires
        model_wf(s),
        s.cursor_y < s.rows,
        s.scroll_top <= s.scroll_bottom,
        byte == 0x0A || byte == 0x0B || byte == 0x0C,
    ensures
        ({
            let t = execute(s, byte);
            let y = s.cursor_y as int;
            let top = s.scroll_top as int;
            let bottom = s.scroll_bottom as int;
            &&& t.cursor_x == s.cursor_x
            &&& y < bottom ==> t.cursor_y == y + 1 && t.grid == s.grid
            &&& y == bottom ==> {
                &&& t.cursor_y == y
                &&& forall|r: int, c: int|
                    0 <= r < s.rows && 0 <= c < s.cols ==> #[trigger] t.grid[r][c] == if top <= r < bottom {
                        s.grid[r + 1][c]
                    } else if r == bottom {
                        blank_cell()
                    } else {
                        s.grid[r][c]
                    }
            }
        }),
{
}

/// A carriage return moves the cursor to the first column of its row; a backspace
/// moves it one column left unless it is in the first one. Neither changes a cell.
pub proof fn lemma_return_and_backspace(s: ScreenModel)
    requires
        model_wf(s),
    ensures
        execute(s, 0x0Du8).cursor_x == 0,
        execute(s, 0x0Du8).cursor_y == s.cursor_y,
        execute(s, 0x0Du8).grid == s.grid,
        execute(s, 0x08u8).cursor_x == (if s.cursor_x > 0 { s.cursor_x - 1 } else { 0 }),
        execute(s, 0x08u8).cursor_y == s.cursor_y,
        execute(s, 0x08u8).grid == s.grid,
{
}

/// Saving the cursor (ESC 7) and restoring it (ESC 8) brings back the position it had
/// when saved, whatever moved it in between; neither changes a cell.
pub proof fn lemma_save_restore_cursor(s: ScreenModel, t: ScreenModel)
    requires
        t.saved_cursor == esc(s, 0x37u8).saved_cursor,
    ensures
        esc(s, 0x37u8).grid == s.grid,
        esc(t, 0x38u8).cursor_x == s.cursor_x,
        esc(t, 0x38u8).cursor_y == s.cursor_y,
        esc(t, 0x38u8).grid == t.grid,
{
}

/// What the transcript makes of typed output while it records: a printed character
/// in normal (not dim) attributes joins the line being typed, or starts it afresh
/// after a carriage return; a dim character (an inline prediction) leaves the line as
/// it is; a backspace takes the last character off the line; a carriage return marks
/// the line to be replaced by what is printed next. None of these commits anything.
pub proof fn lemma_typed_line(s: ScreenModel, ch: char)
    requires
        model_wf(s),
        recording(s),
    ensures
        !s.attr.dim ==> print(s, ch).line == (if s.cr_pending { seq![ch] } else { s.line.push(ch) }),
        s.attr.dim ==> print(s, ch).line == s.line,
        print(s, ch).log == s.log,
        execute(s, 0x08u8).line == (if s.line.len() > 0 { s.line.drop_last() } else { s.line }),
        execute(s, 0x08u8).log == s.log,
        execute(s, 0x0Du8).cr_pending,
        execute(s, 0x0Du8).line == s.line,
        execute(s, 0x0Du8).log == s.log,
{
    assert(Seq::<char>::empty().push(ch) =~= seq![ch]);
}

/// Output on the alternate screen or while the transcript is suppressed is not
/// typed into the line and commits nothing.
pub proof fn lemma_not_recording(s: ScreenModel, ch: char, byte: u8)
    requires
        model_wf(s),
        !recording(s),
    ensures
        print(s, ch).line == s.line,
        print(s, ch).log == s.log,
        execute(s, byte).line == s.line,
        execute(s, byte).log == s.log,
{
}

/// Scrolling the region up (S) or down (T) by `n` (one when absent or zero) moves
/// each of its rows by `n`, fills the rows that open with blanks, and keeps the rows
/// outside it and the cursor.
pub proof fn lemma_scroll_region(s: ScreenModel, params: Seq<u16>, inter: Seq<u8>)
    requires
        model_wf(s),
        s.scroll_top <= s.scroll_bottom,
    ensures
        ({
            let n = count_param(params);
            let top = s.scroll_top as int;
            let bottom = s.scroll_bottom as int;
            let up = csi(s, params, inter, 'S');
            let down = csi(s, params, inter, 'T');
            &&& up.cursor_x == s.cursor_x && up.cursor_y == s.cursor_y
            &&& down.cursor_x == s.cursor_x && down.cursor_y == s.cursor_y
            &&& forall|r: int, c: int|
                0 <= r < s.rows && 0 <= c < s.cols ==> #[trigger] up.grid[r][c] == if top <= r <= bottom {
                    if r + n <= bottom {
                        s.grid[r + n][c]
                    } else {
                        blank_cell()
                    }
                } else {
                    s.grid[r][c]
                }
            &&& forall|r: int, c: int|
                0 <= r < s.rows && 0 <= c < s.cols ==> #[trigger] down.grid[r][c] == if top <= r <= bottom {
                    if r - n >= top {
                        s.grid[r - n][c]
                    } else {
                        blank_cell()
                    }
                } else {
                    s.grid[r][c]
                }
        }),
{
}

/// What one SGR code does to the current attributes: 0 resets them; 1, 2, 3, 4 and 7
/// turn on bold, dim, italic, underline and inverse; 22 turns off bold and dim; 23,
/// 24 and 27 turn off italic, underline and inverse; 30 to 37 and 90 to 97 pick the
/// basic and bright foreground colors, 40 to 47 and 100 to 107 the background ones;
/// 39 and 49 go back to the default colors. Codes with no meaning change nothing.
/// The cells and the cursor stay as they were.
pub proof fn lemma_sgr_codes(s: ScreenModel, p: u16, inter: Seq<u8>)
    requires
        p != 38 && p != 48,
    ensures
        ({
            let a = s.attr;
            let t = csi(s, seq![p], inter, 'm');
            &&& t.grid == s.grid && t.cursor_x == s.cursor_x && t.cursor_y == s.cursor_y
            &&& p == 0 ==> t.attr == CellAttr {
                fg: Color::Default,
                bg: Color::Default,
                bold: false,
                dim: false,
                italic: false,
                underline: false,
                inverse: false,
            }
            &&& p == 1 ==> t.attr == CellAttr { bold: true, ..a }
            &&& p == 2 ==> t.attr == CellAttr { dim: true, ..a }
            &&& p == 3 ==> t.attr == CellAttr { italic: true, ..a }
            &&& p == 4 ==> t.attr == CellAttr { underline: true, ..a }
            &&& p == 7 ==> t.attr == CellAttr { inverse: true, ..a }
            &&& p == 22 ==> t.attr == CellAttr { bold: false, dim: false, ..a }
            &&& p == 23 ==> t.attr == CellAttr { italic: false, ..a }
            &&& p == 24 ==> t.attr == CellAttr { underline: false, ..a }
            &&& p == 27 ==> t.attr == CellAttr { inverse: false, ..a }
            &&& 30 <= p <= 37 ==> t.attr == CellAttr { fg: Color::Index((p - 30) as u8), ..a }
            &&& 90 <= p <= 97 ==> t.attr == CellAttr { fg: Color::Index((p - 82) as u8), ..a }
            &&& p == 39 ==> t.attr == CellAttr { fg: Color::Default, ..a }
            &&& 40 <= p <= 47 ==> t.attr == CellAttr { bg: Color::Index((p - 40) as u8), ..a }
            &&& 100 <= p <= 107 ==> t.attr == CellAttr { bg: Color::Index((p - 92) as u8), ..a }
            &&& p == 49 ==> t.attr == CellAttr { bg: Color::Default, ..a }
            &&& !(p <= 4 || p == 7 || 22 <= p <= 24 || p == 27 || 30 <= p <= 37 || p == 39 || 40 <= p <= 47 || p
                == 49 || 90 <= p <= 97 || 100 <= p <= 107) ==> t.attr == a
        }),
{
    assert(seq![p].len() == 1 && seq![p][0] == p);
    reveal_with_fuel(super::model::sgr_from, 2);
}

/// Extended colors: `38;5;n` and `48;5;n` pick indexed color `n` (its low eight bits)
/// for the foreground and the background, `38;2;r;g;b` and `48;2;r;g;b` a direct
/// color; the other attributes stay as they were.
pub proof fn lemma_sgr_extended_colors(s: ScreenModel, n: u16, r: u16, g: u16, b: u16, inter: Seq<u8>)
    ensures
        csi(s, seq![38u16, 5, n], inter, 'm').attr == (CellAttr { fg: Color::Index((n % 256) as u8), ..s.attr }),
        csi(s, seq![48u16, 5, n], inter, 'm').attr == (CellAttr { bg: Color::Index((n % 256) as u8), ..s.attr }),
        csi(s, seq![38u16, 2, r, g, b], inter, 'm').attr == (CellAttr {
            fg: Color::Rgb((r % 256) as u8, (g % 256) as u8, (b % 256) as u8),
            ..s.attr
        }),
        csi(s, seq![48u16, 2, r, g, b], inter, 'm').attr == (CellAttr {
            bg: Color::Rgb((r % 256) as u8, (g % 256) as u8, (b % 256) as u8),
            ..s.attr
        }),
{
    let p1 = seq![38u16, 5, n];
    let p2 = seq![48u16, 5, n];
    let p3 = seq![38u16, 2, r, g, b];
    let p4 = seq![48u16, 2, r, g, b];
    assert(p1[0] == 38 && p1[1] == 5 && p1[2] == n);
    assert(p2[0] == 48 && p2[1] == 5 && p2[2] == n);
    assert(p3[0] == 38 && p3[1] == 2 && p3[2] == r && p3[3] == g && p3[4] == b);
    assert(p4[0] == 48 && p4[1] == 2 && p4[2] == r && p4[3] == g && p4[4] == b);
    reveal_with_fuel(super::model::sgr_from, 2);
}

/// Deleting characters (P) with the cursor at column `x` shifts the rest of its row
/// left by `n` (one when absent or zero), blanks fill the end; inserting (@) shifts it
/// right by `n`, cells falling off the end, blanks fill the gap; erasing (X) blanks
/// `n` cells from the cursor. Other rows and the cursor stay as they were.
pub proof fn lemma_character_editing(s: ScreenModel, params: Seq<u16>, inter: Seq<u8>)
    requires
        model_wf(s),
        s.cursor_x <= s.cols,
        s.cursor_y < s.rows,
    ensures
        ({
            let n = count_param(params);
            let x = s.cursor_x as int;
            let y = s.cursor_y as int;
            let row = s.grid[y];
            let del = csi(s, params, inter, 'P');
            let ins = csi(s, params, inter, '@');
            let era = csi(s, params, inter, 'X');
            &&& del.cursor_x == s.cursor_x && ins.cursor_x == s.cursor_x && era.cursor_x == s.cursor_x
            &&& forall|r: int| 0 <= r < s.rows && r != y ==> #[trigger] del.grid[r] == s.grid[r] && ins.grid[r]
                == s.grid[r] && era.grid[r] == s.grid[r]
            &&& forall|c: int|
                0 <= c < s.cols ==> #[trigger] del.grid[y][c] == if c < x {
                    row[c]
                } else if c + n < s.cols {
                    row[c + n]
                } else {
                    blank_cell()
                }
            &&& forall|c: int|
                0 <= c < s.cols ==> #[trigger] ins.grid[y][c] == if c < x {
                    row[c]
                } else if c < x + n {
                    blank_cell()
                } else {
                    row[c - n]
                }
            &&& forall|c: int|
                0 <= c < s.cols ==> #[trigger] era.grid[y][c] == if x <= c < x + n {
                    blank_cell()
                } else {
                    row[c]
                }
        }),
{
}

/// Inserting lines (L) with the cursor on row `y` of the scroll region shifts the rows
/// from `y` to the region's bottom down by `n` (one when absent or zero), blank rows
/// opening at `y`; deleting lines (M) shifts them up, blank rows opening at the
/// bottom. Rows outside that range and the cursor stay as they were.
pub proof fn lemma_line_editing(s: ScreenModel, params: Seq<u16>, inter: Seq<u8>)
    requires
        model_wf(s),
        s.cursor_y <= s.scroll_bottom,
    ensures
        ({
            let n = count_param(params);
            let y = s.cursor_y as int;
            let bottom = s.scroll_bottom as int;
            let ins = csi(s, params, inter, 'L');
            let del = csi(s, params, inter, 'M');
            &&& ins.cursor_y == s.cursor_y && del.cursor_y == s.cursor_y
            &&& forall|r: int, c: int|
                0 <= r < s.rows && 0 <= c < s.cols ==> #[trigger] ins.grid[r][c] == if y <= r <= bottom {
                    if r - n >= y {
                        s.grid[r - n][c]
                    } else {
                        blank_cell()
                    }
                } else {
                    s.grid[r][c]
                }
            &&& forall|r: int, c: int|
                0 <= r < s.rows && 0 <= c < s.cols ==> #[trigger] del.grid[r][c] == if y <= r <= bottom {
                    if r + n <= bottom {
                        s.grid[r + n][c]
                    } else {
                        blank_cell()
                    }
                } else {
                    s.grid[r][c]
                }
        }),
{
}

/// A tab moves the cursor to the next multiple of eight columns, at most the last
/// column, and joins the line being typed as a tab while the transcript records; no
/// cell changes.
pub proof fn lemma_tab(s: ScreenModel)
    requires
        model_wf(s),
    ensures
        ({
            let t = execute(s, 0x09u8);
            let next = (s.cursor_x / 8 + 1) * 8;
            &&& t.cursor_x == (if next <= s.cols - 1 { next } else { s.cols - 1 })
            &&& t.cursor_y == s.cursor_y && t.grid == s.grid && t.log == s.log
            &&& recording(s) ==> t.line == (if s.cr_pending { seq!['\t'] } else { s.line.push('\t') })
        }),
{
    assert(Seq::<char>::empty().push('\t') =~= seq!['\t']);
}

/// DEC private modes 7 and 25 (`CSI ? 7 h`, `CSI ? 25 l`, ...) turn auto-wrap and the
/// cursor's visibility on with `h` and off with `l`, changing nothing else.
pub proof fn lemma_dec_flags(s: ScreenModel)
    ensures
        csi(s, seq![7u16], seq![0x3Fu8], 'h') == (ScreenModel { auto_wrap: true, ..s }),
        csi(s, seq![7u16], seq![0x3Fu8], 'l') == (ScreenModel { auto_wrap: false, ..s }),
        csi(s, seq![25u16], seq![0x3Fu8], 'h') == (ScreenModel { cursor_visible: true, ..s }),
        csi(s, seq![25u16], seq![0x3Fu8], 'l') == (ScreenModel { cursor_visible: false, ..s }),
{
    reveal_with_fuel(super::model::dec_modes, 2);
    assert(seq![7u16].len() == 1 && seq![7u16][0] == 7);
    assert(seq![25u16].len() == 1 && seq![25u16][0] == 25);
}

/// An OSC sequence `0`, `1` or `2` with UTF-8 text sets the window title to that text;
/// any other leaves the title as it was. Nothing else changes.
pub proof fn lemma_title(s: ScreenModel, code: u8, text: Seq<u8>)
    ensures
        (code == 0x30 || code == 0x31 || code == 0x32) && valid_utf8(text) ==> osc(s, seq![seq![code], text])
            == (ScreenModel { title: decode_utf8(text), ..s }),
        !(code == 0x30 || code == 0x31 || code == 0x32) ==> osc(s, seq![seq![code], text]) == s,
        !valid_utf8(text) ==> osc(s, seq![seq![code], text]) == s,
{
    let ps = seq![seq![code], text];
    assert(ps.len() == 2 && ps[0] == seq![code] && ps[1] == text);
    if !(code == 0x30 || code == 0x31 || code == 0x32) {
        assert(seq![code] != seq![0x30u8]) by {
            assert(seq![code][0] != seq![0x30u8][0]);
        }
        assert(seq![code] != seq![0x31u8]) by {
            assert(seq![code][0] != seq![0x31u8][0]);
        }
        assert(seq![code] != seq![0x32u8]) by {
            assert(seq![code][0] != seq![0x32u8][0]);
        }
    }
}

/// Input the user types that holds an interrupt (Ctrl+C) or a tab drops the line being
/// typed and keeps the transcript from recording screen output until later input;
/// other input lets it record again. The committed lines stay.
pub proof fn lemma_user_input(s: ScreenModel, data: Seq<u8>)
    ensures
        (data.contains(0x03u8) || data.contains(0x09u8)) ==> user_input(s, data).line.len() == 0
            && user_input(s, data).suppressed,
        !(data.contains(0x03u8) || data.contains(0x09u8)) ==> user_input(s, data).line == s.line
            && !user_input(s, data).suppressed,
        user_input(s, data).log == s.log,
        user_input(s, data).grid == s.grid,
{
}

/// Erasing in line also edits the line being typed while the transcript records:
/// mode 0 cuts it at the cursor column, mode 2 empties it, mode 1 leaves it.
pub proof fn lemma_erase_line_transcript(s: ScreenModel, params: Seq<u16>, inter: Seq<u8>)
    requires
        recording(s),
    ensures
        ({
            let m = param_or(params, 0, 0);
            let t = csi(s, params, inter, 'K');
            &&& m == 0 ==> t.line == s.line.take(if s.cursor_x <= s.line.len() { s.cursor_x as int } else { s.line.len() as int })
            &&& m == 2 ==> t.line.len() == 0
            &&& m != 0 && m != 2 ==> t.line == s.line
            &&& t.log == s.log
        }),
{
}

/// Switching to the alternate screen (`CSI ? 1049 h`, also 47 and 1047) from the main
/// one shows a blank grid of the same size, with the cursor homed for 1049 and kept
/// otherwise, and the transcript stops recording until the main screen is back.
pub proof fn lemma_enter_alt_screen(s: ScreenModel, mode: u16)
    requires
        model_wf(s),
        !s.alt_active,
        mode == 1049 || mode == 47 || mode == 1047,
    ensures
        ({
            let t = csi(s, seq![mode], seq![0x3Fu8], 'h');
            &&& t.alt_active && !recording(t)
            &&& t.cols == s.cols && t.rows == s.rows
            &&& mode == 1049 ==> t.cursor_x == 0 && t.cursor_y == 0
            &&& mode != 1049 ==> t.cursor_x == s.cursor_x && t.cursor_y == s.cursor_y
            &&& t.grid.len() == s.rows
            &&& forall|r: int, c: int| 0 <= r < s.rows && 0 <= c < s.cols ==> #[trigger] t.grid[r][c] == blank_cell()
            &&& t.log == s.log && t.line == s.line
        }),
{
    reveal_with_fuel(super::model::dec_modes, 2);
    assert(seq![mode].len() == 1 && seq![mode][0] == mode);
}

/// Index (ESC D) is a line feed without the transcript; reverse index (ESC M) moves
/// the cursor up one row, and on the top row of the scroll region scrolls the region
/// down instead: each of its rows takes the content of the row above, its top row
/// becomes blank. Reset (ESC c) blanks the grid, homes the cursor, resets the
/// attributes and makes the scroll region the whole screen.
pub proof fn lemma_index_and_reset(s: ScreenModel)
    requires
        model_wf(s),
        s.cursor_y < s.rows,
        s.scroll_top <= s.scroll_bottom,
    ensures
        ({
            let y = s.cursor_y as int;
            let top = s.scroll_top as int;
            let bottom = s.scroll_bottom as int;
            let ri = esc(s, 0x4Du8);
            let rs = esc(s, 0x63u8);
            &&& esc(s, 0x44u8) == super::model::line_feed(s)
            &&& y > top ==> ri.cursor_y == y - 1 && ri.grid == s.grid
            &&& y == top ==> {
                &&& ri.cursor_y == y
                &&& forall|r: int, c: int|
                    0 <= r < s.rows && 0 <= c < s.cols ==> #[trigger] ri.grid[r][c] == if top < r <= bottom {
                        s.grid[r - 1][c]
                    } else if r == top {
                        blank_cell()
                    } else {
                        s.grid[r][c]
                    }
            }
            &&& rs.cursor_x == 0 && rs.cursor_y == 0 && rs.scroll_top == 0 && rs.scroll_bottom == s.rows - 1
            &&& rs.attr == super::model::default_attr()
            &&& forall|r: int, c: int| 0 <= r < s.rows && 0 <= c < s.cols ==> #[trigger] rs.grid[r][c] == blank_cell()
        }),
{
}

/// Setting the scroll region (r) with top `t` and bottom `b` (one-based; `t` one and
/// `b` the last row when absent or zero) makes rows `t - 1` through `b - 1` (at most
/// the last row) the region and homes the cursor; no cell changes.
pub proof fn lemma_set_scroll_region(s: ScreenModel, params: Seq<u16>, inter: Seq<u8>)
    requires
        model_wf(s),
    ensures
        ({
            let t = csi(s, params, inter, 'r');
            let top = count_param(params);
            let bottom = if params.len() > 1 && params[1] != 0 { params[1] as int } else { s.rows as int };
            &&& t.scroll_top == top - 1
            &&& t.scroll_bottom == (if bottom - 1 <= s.rows - 1 { bottom - 1 } else { s.rows - 1 })
            &&& t.cursor_x == 0 && t.cursor_y == 0
            &&& t.grid == s.grid
        }),
{
}

/// Resizing keeps the cursor where it was when it fits and otherwise moves it to the
/// last column or row, makes the scroll region the whole screen, and keeps every cell
/// that both sizes share, the rest blank.
pub proof fn lemma_resize_cursor(s: ScreenModel, cols: u16, rows: u16)
    requires
        model_wf(s),
        cols >= 1,
        rows >= 1,
    ensures
        ({
            let t = super::model::resize(s, cols, rows);
            &&& t.cols == cols && t.rows == rows
            &&& t.cursor_x == (if s.cursor_x < cols { s.cursor_x } else { (cols - 1) as u16 })
            &&& t.cursor_y == (if s.cursor_y < rows { s.cursor_y } else { (rows - 1) as u16 })
            &&& t.scroll_top == 0 && t.scroll_bottom == rows - 1
            &&& t.grid.len() == rows
            &&& forall|r: int, c: int| 0 <= r < rows && 0 <= c < cols ==> #[trigger] t.grid[r][c] == if r < s.rows
                && c < s.cols {
                s.grid[r][c]
            } else {
                blank_cell()
            }
        }),
{
}
} // verus!
