//! The abstract screen: a grid of cells with cursor, modes and transcript, and the
//! effect of every control the screen understands, stated as functions on it.
use vstd::prelude::*;
use vstd::utf8::*;
use super::{Action, Cell, CellAttr, Color};

verus! {

/// The attributes of a cell that was never written or was erased.
pub open spec fn default_attr() -> CellAttr {
    CellAttr {
        bold: false,
        dim: false,
        italic: false,
        underline: false,
        inverse: false,
        fg: Color::Default,
        bg: Color::Default,
    }
}

/// A space with default attributes.
pub open spec fn blank_cell() -> Cell {
    Cell { ch: ' ', attr: default_attr() }
}

/// A row of `cols` blank cells.
pub open spec fn blank_row(cols: nat) -> Seq<Cell> {
    Seq::new(cols, |c: int| blank_cell())
}

/// `rows` blank rows of `cols` cells.
pub open spec fn blank_grid(cols: nat, rows: nat) -> Seq<Seq<Cell>> {
    Seq::new(rows, |r: int| blank_row(cols))
}

/// `rows` rows of `cols` cells each.
pub open spec fn grid_shape(g: Seq<Seq<Cell>>, cols: nat, rows: nat) -> bool {
    g.len() == rows && forall|r: int| 0 <= r < rows ==> (#[trigger] g[r]).len() == cols
}

/// The cells of `g` for which `f` holds are blanked.
pub open spec fn erase_where(g: Seq<Seq<Cell>>, f: spec_fn(int, int) -> bool) -> Seq<Seq<Cell>> {
    Seq::new(g.len(), |r: int| Seq::new(g[r].len(), |c: int| if f(r, c) { blank_cell() } else { g[r][c] }))
}

/// The grid with one cell replaced.
pub open spec fn with_cell(g: Seq<Seq<Cell>>, r: int, c: int, cell: Cell) -> Seq<Seq<Cell>> {
    g.update(r, g[r].update(c, cell))
}

/// Rows `top..=bottom` move up by `n`; the rows that open at the bottom of the
/// region are blank. Nothing changes when `n` is zero or the region is empty.
pub open spec fn scroll_up_grid(g: Seq<Seq<Cell>>, cols: nat, top: int, bottom: int, n: int) -> Seq<Seq<Cell>> {
    if n == 0 || top > bottom {
        g
    } else {
        Seq::new(
            g.len(),
            |r: int|
                if top <= r <= bottom {
                    if r + n <= bottom {
                        g[r + n]
                    } else {
                        blank_row(cols)
                    }
                } else {
                    g[r]
                },
        )
    }
}

/// Rows `top..=bottom` move down by `n`; the rows that open at the top of the
/// region are blank. Nothing changes when `n` is zero or the region is empty.
pub open spec fn scroll_down_grid(g: Seq<Seq<Cell>>, cols: nat, top: int, bottom: int, n: int) -> Seq<Seq<Cell>> {
    if n == 0 || top > bottom {
        g
    } else {
        Seq::new(
            g.len(),
            |r: int|
                if top <= r <= bottom {
                    if r >= top + n {
                        g[r - n]
                    } else {
                        blank_row(cols)
                    }
                } else {
                    g[r]
                },
        )
    }
}

/// Erase in display: mode 0 from the cursor to the end in reading order (a cursor
/// further right than one past the last column counts as that many cells on, in the
/// rows below), mode 1 the rows above the cursor and its row from the first column
/// through the cursor (through the last column when the cursor is past it), modes 2
/// and 3 everything.
pub open spec fn erase_display_grid(g: Seq<Seq<Cell>>, cols: nat, rows: nat, x: int, y: int, mode: u16) -> Seq<Seq<Cell>> {
    if mode == 0 {
        if x <= cols {
            erase_where(g, |r: int, c: int| r > y || (r == y && c >= x))
        } else {
            let ry = y + x / (cols as int);
            let cx = x % (cols as int);
            erase_where(g, |r: int, c: int| r > ry || (r == ry && c >= cx))
        }
    } else if mode == 1 {
        erase_where(g, |r: int, c: int| r < y || (r == y && c <= x))
    } else if mode == 2 || mode == 3 {
        blank_grid(cols, rows)
    } else {
        g
    }
}

/// Erase in line, within the cursor's row only: mode 0 from the cursor to the end of
/// the row, mode 1 from the first column through the cursor (through the last column
/// when the cursor is parked past it), mode 2 the whole row.
pub open spec fn erase_line_grid(g: Seq<Seq<Cell>>, cols: nat, x: int, y: int, mode: u16) -> Seq<Seq<Cell>> {
    if mode == 0 {
        erase_where(g, |r: int, c: int| r == y && c >= x)
    } else if mode == 1 {
        erase_where(g, |r: int, c: int| r == y && c <= x)
    } else if mode == 2 {
        erase_where(g, |r: int, c: int| r == y)
    } else {
        g
    }
}

/// Delete characters: the cells right of `x + n` shift left to `x`; blanks fill the end.
pub open spec fn delete_chars_row(row: Seq<Cell>, x: int, n: int) -> Seq<Cell> {
    Seq::new(
        row.len(),
        |c: int|
            if c < x {
                row[c]
            } else if c + n < row.len() {
                row[c + n]
            } else {
                blank_cell()
            },
    )
}

/// Insert characters: the cells from `x` shift right by `n` (falling off the end);
/// blanks fill the gap.
pub open spec fn insert_chars_row(row: Seq<Cell>, x: int, n: int) -> Seq<Cell> {
    Seq::new(
        row.len(),
        |c: int|
            if c < x {
                row[c]
            } else if c < x + n {
                blank_cell()
            } else {
                row[c - n]
            },
    )
}

/// Erase characters: the `n` cells from `x` are blanked.
pub open spec fn erase_chars_row(row: Seq<Cell>, x: int, n: int) -> Seq<Cell> {
    Seq::new(row.len(), |c: int| if x <= c < x + n { blank_cell() } else { row[c] })
}

/// A grid of the new size that keeps the cells both sizes share; the rest is blank.
pub open spec fn resize_grid(g: Seq<Seq<Cell>>, cols: nat, rows: nat) -> Seq<Seq<Cell>> {
    Seq::new(
        rows,
        |r: int|
            Seq::new(
                cols,
                |c: int|
                    if r < g.len() && c < g[r].len() {
                        g[r][c]
                    } else {
                        blank_cell()
                    },
            ),
    )
}

/// The primary screen kept aside while the alternate screen is shown.
pub struct SavedScreen {
    pub grid: Seq<Seq<Cell>>,
    pub cursor_x: u16,
    pub cursor_y: u16,
    pub attr: CellAttr,
    pub scroll_top: u16,
    pub scroll_bottom: u16,
}

/// The abstract state of a screen.
///
/// The transcript is `log` (committed lines, each ended by a line feed) followed by
/// the UTF-8 encoding of `line`, the line being typed.
pub struct ScreenModel {
    pub cols: u16,
    pub rows: u16,
    pub grid: Seq<Seq<Cell>>,
    pub cursor_x: u16,
    pub cursor_y: u16,
    pub attr: CellAttr,
    pub saved_cursor: (u16, u16),
    pub scroll_top: u16,
    pub scroll_bottom: u16,
    pub auto_wrap: bool,
    pub cursor_visible: bool,
    pub alt_active: bool,
    pub alt_saved: Option<SavedScreen>,
    pub title: Seq<char>,
    pub log: Seq<u8>,
    pub line: Seq<char>,
    pub cr_pending: bool,
    pub cr_col: u16,
    pub suppressed: bool,
}

/// The shape every screen keeps: a non-empty grid of `rows` by `cols` cells, the
/// scroll region ending inside the grid, and a saved primary screen exactly while
/// the alternate screen is shown. The cursor is usually on a row of the grid and at
/// most one column past its end, but restoring a cursor saved before the screen
/// shrank may put it anywhere (see [`esc`]).
pub open spec fn model_wf(s: ScreenModel) -> bool {
    &&& s.cols >= 1
    &&& s.rows >= 1
    &&& grid_shape(s.grid, s.cols as nat, s.rows as nat)
    &&& s.scroll_bottom < s.rows
    &&& (s.alt_saved is Some <==> s.alt_active)
    &&& (s.alt_saved matches Some(sv) ==> {
        &&& grid_shape(sv.grid, s.cols as nat, s.rows as nat)
        &&& sv.scroll_bottom < s.rows
    })
}

/// The cursor is on a row of the grid, at most one column past its end.
pub open spec fn cursor_in_grid(s: ScreenModel) -> bool {
    s.cursor_x <= s.cols && s.cursor_y < s.rows
}

/// The transcript bytes of a screen.
pub open spec fn transcript_of(s: ScreenModel) -> Seq<u8> {
    s.log + encode_utf8(s.line)
}

/// A width or height, with zero taken as one.
pub open spec fn at_least_one(n: u16) -> u16 {
    if n == 0 {
        1
    } else {
        n
    }
}

/// A fresh screen of the given size.
pub open spec fn initial(cols: u16, rows: u16) -> ScreenModel {
    ScreenModel {
        cols,
        rows,
        grid: blank_grid(cols as nat, rows as nat),
        cursor_x: 0,
        cursor_y: 0,
        attr: default_attr(),
        saved_cursor: (0, 0),
        scroll_top: 0,
        scroll_bottom: (rows - 1) as u16,
        auto_wrap: true,
        cursor_visible: true,
        alt_active: false,
        alt_saved: None,
        title: Seq::<char>::empty(),
        log: Seq::<u8>::empty(),
        line: Seq::<char>::empty(),
        cr_pending: false,
        cr_col: 0,
        suppressed: false,
    }
}

/// Whether the transcript records what happens now: not on the alternate screen
/// and not suppressed.
pub open spec fn recording(s: ScreenModel) -> bool {
    !s.alt_active && !s.suppressed
}

/// `a` if it is not above `b`, else `b`.
pub open spec fn min_u16(a: int, b: int) -> u16 {
    (if a <= b {
        a
    } else {
        b
    }) as u16
}

/// `a - b`, or zero when `b` exceeds `a`.
pub open spec fn sat_sub(a: int, b: int) -> u16 {
    (if a >= b {
        a - b
    } else {
        0
    }) as u16
}

/// Move down one line; at (or below) the bottom margin the scroll region scrolls up instead.
pub open spec fn line_feed(s: ScreenModel) -> ScreenModel {
    if s.cursor_y >= s.scroll_bottom {
        ScreenModel {
            grid: scroll_up_grid(s.grid, s.cols as nat, s.scroll_top as int, s.scroll_bottom as int, 1),
            ..s
        }
    } else {
        ScreenModel { cursor_y: (s.cursor_y + 1) as u16, ..s }
    }
}

/// Write a character at the cursor with the current attributes and advance.
/// A cursor parked past the last column first wraps to the next line (auto-wrap
/// on) or falls back to the last column (auto-wrap off). A cursor below the grid
/// writes nothing but still advances.
pub open spec fn put_char(s: ScreenModel, ch: char) -> ScreenModel {
    let s1 = if s.cursor_x >= s.cols {
        if s.auto_wrap {
            line_feed(ScreenModel { cursor_x: 0, ..s })
        } else {
            ScreenModel { cursor_x: (s.cols - 1) as u16, ..s }
        }
    } else {
        s
    };
    ScreenModel {
        grid: if s1.cursor_y < s.rows {
            with_cell(s1.grid, s1.cursor_y as int, s1.cursor_x as int, Cell { ch, attr: s.attr })
        } else {
            s1.grid
        },
        cursor_x: (s1.cursor_x + 1) as u16,
        ..s1
    }
}

/// A printed character joins the line being typed, replacing it when a carriage
/// return is pending; dim text (inline predictions) is not recorded.
pub open spec fn transcript_print(s: ScreenModel, ch: char, check_dim: bool) -> ScreenModel {
    if recording(s) && !(check_dim && s.attr.dim) {
        ScreenModel {
            line: (if s.cr_pending {
                Seq::<char>::empty()
            } else {
                s.line
            }).push(ch),
            cr_pending: false,
            ..s
        }
    } else {
        s
    }
}

/// The number of leading cells that remain once trailing blanks and trailing dim
/// cells are dropped.
pub open spec fn snapshot_len(cells: Seq<Cell>) -> nat
    decreases cells.len(),
{
    if cells.len() == 0 {
        0
    } else if cells.last().ch == ' ' || cells.last().attr.dim {
        snapshot_len(cells.drop_last())
    } else {
        cells.len()
    }
}

/// The characters of the cursor row up to `limit`, without trailing blanks or dim cells.
pub open spec fn row_snapshot(row: Seq<Cell>, limit: int) -> Seq<char> {
    let cells = row.take(limit);
    cells.take(snapshot_len(cells) as int).map_values(|c: Cell| c.ch)
}

/// The log already ends in a blank line (or is empty), so another blank line is dropped.
pub open spec fn ends_blank(log: Seq<u8>) -> bool {
    log.len() == 0 || (log.len() >= 2 && log[log.len() - 1] == 0x0Au8 && log[log.len() - 2] == 0x0Au8)
}

/// At a line feed the line being typed is replaced by what the screen shows on the
/// cursor row (nothing when the cursor is below the grid), up to the column where a
/// pending carriage return left the cursor (else the cursor column), and committed
/// with a line feed; a blank line right after a blank line is not committed twice.
pub open spec fn transcript_commit(s: ScreenModel) -> ScreenModel {
    if !recording(s) {
        s
    } else {
        let limit = min_u16(
            if s.cr_pending {
                s.cr_col as int
            } else {
                s.cursor_x as int
            },
            s.cols as int,
        );
        let snap = if s.cursor_y < s.rows {
            row_snapshot(s.grid[s.cursor_y as int], limit as int)
        } else {
            Seq::<char>::empty()
        };
        if snap.len() == 0 && ends_blank(s.log) {
            ScreenModel { line: Seq::<char>::empty(), cr_pending: false, ..s }
        } else {
            ScreenModel {
                log: s.log + encode_utf8(snap) + seq![0x0Au8],
                line: Seq::<char>::empty(),
                cr_pending: false,
                ..s
            }
        }
    }
}

/// The effect of printing a character.
pub open spec fn print(s: ScreenModel, ch: char) -> ScreenModel {
    transcript_print(put_char(s, ch), ch, true)
}

/// The next tab stop right of `x`, kept inside the row.
pub open spec fn tab_stop(x: u16, cols: u16) -> u16 {
    min_u16((x / 8 + 1) * 8, cols - 1)
}

/// The effect of a C0 control byte: line feed (also VT and FF), carriage return,
/// horizontal tab and backspace; other bytes change nothing.
pub open spec fn execute(s: ScreenModel, byte: u8) -> ScreenModel {
    if byte == 0x0A || byte == 0x0B || byte == 0x0C {
        line_feed(transcript_commit(s))
    } else if byte == 0x0D {
        if recording(s) {
            ScreenModel { cursor_x: 0, cr_pending: true, cr_col: s.cursor_x, ..s }
        } else {
            ScreenModel { cursor_x: 0, ..s }
        }
    } else if byte == 0x09 {
        transcript_print(ScreenModel { cursor_x: tab_stop(s.cursor_x, s.cols), ..s }, '\t', false)
    } else if byte == 0x08 {
        let s1 = if s.cursor_x > 0 {
            ScreenModel { cursor_x: (s.cursor_x - 1) as u16, ..s }
        } else {
            s
        };
        if recording(s) && s.line.len() > 0 {
            ScreenModel { line: s.line.drop_last(), ..s1 }
        } else {
            s1
        }
    } else {
        s
    }
}

/// Parameter `i` of a control sequence, or `default` when it is absent or zero.
pub open spec fn param_or(params: Seq<u16>, i: int, default: u16) -> u16 {
    if 0 <= i < params.len() && params[i] != 0 {
        params[i]
    } else {
        default
    }
}

/// Parameter `i` as a byte (its low eight bits), or zero when absent.
pub open spec fn param_byte(params: Seq<u16>, i: int) -> u8 {
    if 0 <= i < params.len() {
        (params[i] % 256) as u8
    } else {
        0
    }
}

/// The attributes after one SGR code that stands alone.
pub open spec fn sgr_simple(a: CellAttr, p: u16) -> CellAttr {
    if p == 0 {
        default_attr()
    } else if p == 1 {
        CellAttr { bold: true, ..a }
    } else if p == 2 {
        CellAttr { dim: true, ..a }
    } else if p == 3 {
        CellAttr { italic: true, ..a }
    } else if p == 4 {
        CellAttr { underline: true, ..a }
    } else if p == 7 {
        CellAttr { inverse: true, ..a }
    } else if p == 22 {
        CellAttr { bold: false, dim: false, ..a }
    } else if p == 23 {
        CellAttr { italic: false, ..a }
    } else if p == 24 {
        CellAttr { underline: false, ..a }
    } else if p == 27 {
        CellAttr { inverse: false, ..a }
    } else if 30 <= p <= 37 {
        CellAttr { fg: Color::Index((p - 30) as u8), ..a }
    } else if p == 39 {
        CellAttr { fg: Color::Default, ..a }
    } else if 40 <= p <= 47 {
        CellAttr { bg: Color::Index((p - 40) as u8), ..a }
    } else if p == 49 {
        CellAttr { bg: Color::Default, ..a }
    } else if 90 <= p <= 97 {
        CellAttr { fg: Color::Index((p - 90 + 8) as u8), ..a }
    } else if 100 <= p <= 107 {
        CellAttr { bg: Color::Index((p - 100 + 8) as u8), ..a }
    } else {
        a
    }
}

/// Sets the foreground (`fg`) or background color.
pub open spec fn with_color(a: CellAttr, fg: bool, c: Color) -> CellAttr {
    if fg {
        CellAttr { fg: c, ..a }
    } else {
        CellAttr { bg: c, ..a }
    }
}

/// The attributes after the SGR codes from position `i` on. `38` and `48` take an
/// extended color from the codes that follow: `5;n` (indexed) or `2;r;g;b`
/// (missing components read as zero); any other code after them is skipped.
pub open spec fn sgr_from(a: CellAttr, params: Seq<u16>, i: int) -> CellAttr
    decreases params.len() - i,
{
    if i < 0 || i >= params.len() {
        a
    } else {
        let p = params[i];
        if p == 38 || p == 48 {
            if i + 1 >= params.len() {
                a
            } else if params[i + 1] == 5 {
                if i + 2 < params.len() {
                    sgr_from(with_color(a, p == 38, Color::Index(param_byte(params, i + 2))), params, i + 3)
                } else {
                    a
                }
            } else if params[i + 1] == 2 {
                sgr_from(
                    with_color(
                        a,
                        p == 38,
                        Color::Rgb(param_byte(params, i + 2), param_byte(params, i + 3), param_byte(params, i + 4)),
                    ),
                    params,
                    if i + 5 <= params.len() {
                        i + 5
                    } else {
                        params.len() as int
                    },
                )
            } else {
                sgr_from(a, params, i + 2)
            }
        } else {
            sgr_from(sgr_simple(a, p), params, i + 1)
        }
    }
}

/// Switch to the alternate screen: the primary grid, cursor, attributes and scroll
/// region are kept aside and a blank grid is shown (with the cursor homed when
/// `home` is set).
pub open spec fn enter_alt(s: ScreenModel, home: bool) -> ScreenModel {
    ScreenModel {
        alt_saved: Some(
            SavedScreen {
                grid: s.grid,
                cursor_x: s.cursor_x,
                cursor_y: s.cursor_y,
                attr: s.attr,
                scroll_top: s.scroll_top,
                scroll_bottom: s.scroll_bottom,
            },
        ),
        grid: blank_grid(s.cols as nat, s.rows as nat),
        cursor_x: if home { 0 } else { s.cursor_x },
        cursor_y: if home { 0 } else { s.cursor_y },
        alt_active: true,
        ..s
    }
}

/// Leave the alternate screen: the primary grid and scroll region come back (and
/// the cursor and attributes when `restore_cursor` is set); the transcript stays
/// suppressed until the next user input, since the application repaints what was
/// already recorded.
pub open spec fn exit_alt(s: ScreenModel, restore_cursor: bool) -> ScreenModel {
    let s1 = match s.alt_saved {
        Some(sv) => if restore_cursor {
            ScreenModel {
                grid: sv.grid,
                cursor_x: sv.cursor_x,
                cursor_y: sv.cursor_y,
                attr: sv.attr,
                scroll_top: sv.scroll_top,
                scroll_bottom: sv.scroll_bottom,
                ..s
            }
        } else {
            ScreenModel {
                grid: sv.grid,
                scroll_top: sv.scroll_top,
                scroll_bottom: sv.scroll_bottom,
                ..s
            }
        },
        None => s,
    };
    ScreenModel { alt_saved: None, alt_active: false, suppressed: true, cr_pending: false, ..s1 }
}

/// One DEC private mode set (`set`) or reset: 7 auto-wrap, 25 cursor visibility,
/// 1049 alternate screen with cursor save, 47 and 1047 alternate screen.
pub open spec fn dec_mode(s: ScreenModel, mode: u16, set: bool) -> ScreenModel {
    if mode == 7 {
        ScreenModel { auto_wrap: set, ..s }
    } else if mode == 25 {
        ScreenModel { cursor_visible: set, ..s }
    } else if mode == 1049 || mode == 47 || mode == 1047 {
        if set && !s.alt_active {
            enter_alt(s, mode == 1049)
        } else if !set && s.alt_active {
            exit_alt(s, mode == 1049)
        } else {
            s
        }
    } else {
        s
    }
}

/// The DEC private modes from position `i` on, applied in order.
pub open spec fn dec_modes(s: ScreenModel, params: Seq<u16>, i: int, set: bool) -> ScreenModel
    decreases params.len() - i,
{
    if i < 0 || i >= params.len() {
        s
    } else {
        dec_modes(dec_mode(s, params[i], set), params, i + 1, set)
    }
}

/// The screen with its grid replaced.
pub open spec fn with_grid(s: ScreenModel, g: Seq<Seq<Cell>>) -> ScreenModel {
    ScreenModel { grid: g, ..s }
}

/// The screen with the cursor row replaced.
pub open spec fn with_row(s: ScreenModel, row: Seq<Cell>) -> ScreenModel {
    ScreenModel { grid: s.grid.update(s.cursor_y as int, row), ..s }
}

/// Cursor to column `x`; arriving at the first column acts as a carriage return
/// for the transcript.
pub open spec fn move_to_column(s: ScreenModel, x: u16) -> ScreenModel {
    if recording(s) && x == 0 {
        ScreenModel { cursor_x: x, cr_pending: true, cr_col: s.cursor_x, ..s }
    } else {
        ScreenModel { cursor_x: x, ..s }
    }
}

/// Erase in line, with the transcript's line cut back in step (mode 0 at the
/// cursor column, mode 2 entirely).
pub open spec fn erase_line(s: ScreenModel, mode: u16) -> ScreenModel {
    let s1 = with_grid(s, erase_line_grid(s.grid, s.cols as nat, s.cursor_x as int, s.cursor_y as int, mode));
    if recording(s) && mode == 0 {
        ScreenModel {
            line: s.line.take(
                if s.cursor_x <= s.line.len() {
                    s.cursor_x as int
                } else {
                    s.line.len() as int
                },
            ),
            ..s1
        }
    } else if recording(s) && mode == 2 {
        ScreenModel { line: Seq::<char>::empty(), ..s1 }
    } else {
        s1
    }
}

/// The control sequences a screen can carry out where its cursor stands: erasing
/// from the cursor (ED 0, EL 0, ECH) needs the cursor inside the grid or right at
/// its end, erasing to the cursor or the whole line (EL 1, EL 2) a cursor row no
/// further than just below the grid, and deleting or inserting characters (DCH,
/// ICH) the cursor inside the grid. Only a cursor restored outside the grid can
/// fail these.
pub open spec fn csi_accepts(s: ScreenModel, params: Seq<u16>, inter: Seq<u8>, action: char) -> bool {
    let x = s.cursor_x as int;
    let y = s.cursor_y as int;
    let cols = s.cols as int;
    let rows = s.rows as int;
    let in_grid = y < rows && x <= cols;
    let at_end = y == rows && x == 0;
    let m = param_or(params, 0, 0);
    if inter == seq![0x3Fu8] && (action == 'h' || action == 'l') {
        true
    } else if action == 'J' {
        m == 0 ==> y * cols + x <= rows * cols
    } else if action == 'K' {
        &&& m == 0 ==> in_grid || at_end
        &&& (m == 1 || m == 2) ==> y <= rows
    } else if action == 'P' || action == '@' {
        in_grid
    } else if action == 'X' {
        in_grid || at_end
    } else {
        true
    }
}

/// Whether a parser action can be carried out on the screen (see [`csi_accepts`]).
pub open spec fn accepts(s: ScreenModel, a: Action) -> bool {
    match a {
        Action::Csi { params, intermediates, action } => csi_accepts(s, params@, intermediates@, action),
        _ => true,
    }
}

/// Whether parser actions can be carried out one after another.
pub open spec fn accepts_all(s: ScreenModel, actions: Seq<Action>) -> bool
    decreases actions.len(),
{
    if actions.len() == 0 {
        true
    } else {
        accepts_all(s, actions.drop_last()) && accepts(perform_all(s, actions.drop_last()), actions.last())
    }
}

/// Actions that can be carried out one after another can be up to any point.
pub proof fn lemma_accepts_prefix(s: ScreenModel, actions: Seq<Action>, i: int)
    requires
        accepts_all(s, actions),
        0 <= i <= actions.len(),
    ensures
        accepts_all(s, actions.take(i)),
    decreases actions.len() - i,
{
    if i < actions.len() {
        lemma_accepts_prefix(s, actions, i + 1);
        assert(actions.take(i + 1).drop_last() =~= actions.take(i));
    } else {
        assert(actions.take(i) =~= actions);
    }
}

/// The effect of a CSI sequence with the given parameters (first sub-parameter of
/// each), intermediate bytes and final character.
pub open spec fn csi(s: ScreenModel, params: Seq<u16>, inter: Seq<u8>, action: char) -> ScreenModel {
    let n = param_or(params, 0, 1);
    let last_col = (s.cols - 1) as int;
    let last_row = (s.rows - 1) as int;
    if inter == seq![0x3Fu8] && (action == 'h' || action == 'l') {
        dec_modes(s, params, 0, action == 'h')
    } else if action == 'A' {
        ScreenModel { cursor_y: sat_sub(s.cursor_y as int, n as int), ..s }
    } else if action == 'B' || action == 'e' {
        ScreenModel { cursor_y: min_u16(s.cursor_y + n, last_row), ..s }
    } else if action == 'C' || action == 'a' {
        ScreenModel { cursor_x: min_u16(s.cursor_x + n, last_col), ..s }
    } else if action == 'D' {
        ScreenModel { cursor_x: sat_sub(s.cursor_x as int, n as int), ..s }
    } else if action == 'E' {
        ScreenModel { cursor_x: 0, cursor_y: min_u16(s.cursor_y + n, last_row), ..s }
    } else if action == 'F' {
        ScreenModel { cursor_x: 0, cursor_y: sat_sub(s.cursor_y as int, n as int), ..s }
    } else if action == 'G' || action == '`' {
        move_to_column(s, min_u16(sat_sub(n as int, 1) as int, last_col))
    } else if action == 'H' || action == 'f' {
        ScreenModel {
            cursor_y: min_u16(sat_sub(n as int, 1) as int, last_row),
            cursor_x: min_u16(sat_sub(param_or(params, 1, 1) as int, 1) as int, last_col),
            ..s
        }
    } else if action == 'J' {
        with_grid(
            s,
            erase_display_grid(
                s.grid,
                s.cols as nat,
                s.rows as nat,
                s.cursor_x as int,
                s.cursor_y as int,
                param_or(params, 0, 0),
            ),
        )
    } else if action == 'K' {
        erase_line(s, param_or(params, 0, 0))
    } else if action == 'L' {
        with_grid(s, scroll_down_grid(s.grid, s.cols as nat, s.cursor_y as int, s.scroll_bottom as int, n as int))
    } else if action == 'M' {
        with_grid(s, scroll_up_grid(s.grid, s.cols as nat, s.cursor_y as int, s.scroll_bottom as int, n as int))
    } else if action == 'S' {
        with_grid(s, scroll_up_grid(s.grid, s.cols as nat, s.scroll_top as int, s.scroll_bottom as int, n as int))
    } else if action == 'T' {
        with_grid(s, scroll_down_grid(s.grid, s.cols as nat, s.scroll_top as int, s.scroll_bottom as int, n as int))
    } else if action == 'd' {
        ScreenModel { cursor_y: min_u16(sat_sub(n as int, 1) as int, last_row), ..s }
    } else if action == 'm' {
        ScreenModel { attr: sgr_from(s.attr, params, 0), ..s }
    } else if action == 'r' {
        ScreenModel {
            scroll_top: sat_sub(n as int, 1),
            scroll_bottom: min_u16(sat_sub(param_or(params, 1, s.rows) as int, 1) as int, last_row),
            cursor_x: 0,
            cursor_y: 0,
            ..s
        }
    } else if action == 'P' {
        with_row(s, delete_chars_row(s.grid[s.cursor_y as int], s.cursor_x as int, n as int))
    } else if action == '@' {
        with_row(s, insert_chars_row(s.grid[s.cursor_y as int], s.cursor_x as int, n as int))
    } else if action == 'X' {
        if s.cursor_y < s.rows {
            with_row(s, erase_chars_row(s.grid[s.cursor_y as int], s.cursor_x as int, n as int))
        } else {
            s
        }
    } else {
        s
    }
}

/// The effect of an ESC sequence: 7 saves the cursor, 8 restores it, D is index,
/// M reverse index, c full reset. A resize leaves the saved cursor as it was, so a
/// cursor saved before the screen shrank comes back where it was saved, possibly
/// outside the grid.
pub open spec fn esc(s: ScreenModel, byte: u8) -> ScreenModel {
    if byte == 0x37 {
        ScreenModel { saved_cursor: (s.cursor_x, s.cursor_y), ..s }
    } else if byte == 0x38 {
        ScreenModel { cursor_x: s.saved_cursor.0, cursor_y: s.saved_cursor.1, ..s }
    } else if byte == 0x44 {
        line_feed(s)
    } else if byte == 0x4D {
        if s.cursor_y <= s.scroll_top {
            with_grid(s, scroll_down_grid(s.grid, s.cols as nat, s.scroll_top as int, s.scroll_bottom as int, 1))
        } else {
            ScreenModel { cursor_y: (s.cursor_y - 1) as u16, ..s }
        }
    } else if byte == 0x63 {
        ScreenModel {
            attr: default_attr(),
            cursor_x: 0,
            cursor_y: 0,
            scroll_top: 0,
            scroll_bottom: (s.rows - 1) as u16,
            grid: blank_grid(s.cols as nat, s.rows as nat),
            ..s
        }
    } else {
        s
    }
}

/// The effect of an OSC sequence: `0`, `1` or `2` followed by UTF-8 text sets the title.
pub open spec fn osc(s: ScreenModel, params: Seq<Seq<u8>>) -> ScreenModel {
    if params.len() >= 2 && (params[0] == seq![0x30u8] || params[0] == seq![0x31u8] || params[0] == seq![0x32u8])
        && valid_utf8(params[1]) {
        ScreenModel { title: decode_utf8(params[1]), ..s }
    } else {
        s
    }
}

/// The effect of a resize: the grid (and the primary grid kept aside) keep the cells
/// both sizes share, the scroll regions reset to the whole screen, and cursors move
/// inside the new size.
pub open spec fn resize(s: ScreenModel, cols: u16, rows: u16) -> ScreenModel {
    ScreenModel {
        cols,
        rows,
        grid: resize_grid(s.grid, cols as nat, rows as nat),
        scroll_top: 0,
        scroll_bottom: (rows - 1) as u16,
        cursor_x: if s.cursor_x >= cols { (cols - 1) as u16 } else { s.cursor_x },
        cursor_y: if s.cursor_y >= rows { (rows - 1) as u16 } else { s.cursor_y },
        alt_saved: match s.alt_saved {
            Some(sv) => Some(
                SavedScreen {
                    grid: resize_grid(sv.grid, cols as nat, rows as nat),
                    scroll_top: 0,
                    scroll_bottom: (rows - 1) as u16,
                    cursor_x: if sv.cursor_x >= cols { (cols - 1) as u16 } else { sv.cursor_x },
                    cursor_y: if sv.cursor_y >= rows { (rows - 1) as u16 } else { sv.cursor_y },
                    ..sv
                },
            ),
            None => None,
        },
        ..s
    }
}


/// The screen after its whole transcript was taken away.
pub open spec fn drained(s: ScreenModel) -> ScreenModel {
    ScreenModel { log: Seq::<u8>::empty(), line: Seq::<char>::empty(), ..s }
}

/// The screen after its committed lines were taken away; the line being typed stays.
pub open spec fn committed_taken(s: ScreenModel) -> ScreenModel {
    ScreenModel { log: Seq::<u8>::empty(), ..s }
}

/// The user typed something: the transcript records screen output again.
pub open spec fn unsuppressed(s: ScreenModel) -> ScreenModel {
    ScreenModel { suppressed: false, ..s }
}

/// The line being typed is dropped (an interrupt or a completion request) and the
/// transcript ignores screen output until the next user input.
pub open spec fn line_cancelled(s: ScreenModel) -> ScreenModel {
    ScreenModel { line: Seq::<char>::empty(), cr_pending: false, suppressed: true, ..s }
}

/// User input that holds an interrupt (Ctrl+C) or a tab cancels the line being typed;
/// any other input ends the suppression of the transcript.
pub open spec fn user_input(s: ScreenModel, data: Seq<u8>) -> ScreenModel {
    if data.contains(0x03u8) || data.contains(0x09u8) {
        line_cancelled(s)
    } else {
        unsuppressed(s)
    }
}

/// The OSC parameters as byte sequences.
pub open spec fn osc_params(params: Seq<Vec<u8>>) -> Seq<Seq<u8>> {
    params.map_values(|p: Vec<u8>| p@)
}

/// The effect of one parser action.
pub open spec fn perform(s: ScreenModel, a: Action) -> ScreenModel {
    match a {
        Action::Print(c) => print(s, c),
        Action::Execute(b) => execute(s, b),
        Action::Csi { params, intermediates, action } => csi(s, params@, intermediates@, action),
        Action::Esc(b) => esc(s, b),
        Action::Osc(ps) => osc(s, osc_params(ps@)),
    }
}

/// The effect of parser actions applied in order.
pub open spec fn perform_all(s: ScreenModel, actions: Seq<Action>) -> ScreenModel
    decreases actions.len(),
{
    if actions.len() == 0 {
        s
    } else {
        perform(perform_all(s, actions.drop_last()), actions.last())
    }
}
} // verus!
