//! ANSI terminal screen buffer.
//!
//! Maintains a cell grid driven by the actions of a VT100/ANSI parser (printed
//! characters, control bytes, CSI, ESC and OSC sequences) and keeps a transcript of
//! the committed command-line text.
use vstd::prelude::*;
use vstd::utf8::encode_utf8;
use crate::consts::TAB_WIDTH;
use crate::text::{string_from_utf8, lemma_encode_utf8_push, lemma_encode_utf8_single, push_char_utf8, push_chars_utf8};
use grid::{
    blank_grid_vec, delete_chars_vec, erase_chars_vec,
    erase_display_cells, erase_line_cells, grid_of, insert_chars_vec, resize_grid_vec, row_snapshot_vec, scroll_down_region, scroll_up_region, set_cell,
    set_row,
};
use model::{ScreenModel, SavedScreen};

pub mod model;
pub mod grid;
pub mod render;
pub mod laws;
pub mod effects;

verus! {

/// Basic color representation.
#[derive(Debug, Clone, Copy, PartialEq, Eq, Structural)]
pub enum Color {
    Default,
    Index(u8),
    Rgb(u8, u8, u8),
}

impl Default for Color {
    fn default() -> (c: Self)
        ensures
            c == Color::Default,
    {
        Color::Default
    }
}

/// Cell attributes (basic SGR).
#[derive(Debug, Clone, Copy, PartialEq, Eq, Structural)]
pub struct CellAttr {
    pub bold: bool,
    pub dim: bool,
    pub italic: bool,
    pub underline: bool,
    pub inverse: bool,
    pub fg: Color,
    pub bg: Color,
}

impl Default for CellAttr {
    fn default() -> (a: Self)
        ensures
            a == model::default_attr(),
    {
        CellAttr {
            bold: false,
            dim: false,
            italic: false,
            underline: false,
            inverse: false,
            fg: Color::Default,
            bg: Color::Default,
        }
    }
}

/// A single cell in the screen buffer.
#[derive(Debug, Clone, Copy)]
pub struct Cell {
    pub ch: char,
    pub attr: CellAttr,
}

impl Default for Cell {
    fn default() -> (c: Self)
        ensures
            c == model::blank_cell(),
    {
        Cell { ch: ' ', attr: CellAttr::default() }
    }
}

/// Saved state when switching to alternate screen.
struct AltSaved {
    cells: Vec<Vec<Cell>>,
    cursor_x: u16,
    cursor_y: u16,
    attr: CellAttr,
    scroll_top: u16,
    scroll_bottom: u16,
}

/// Terminal screen buffer.
pub struct Screen {
    cols: u16,
    rows: u16,
    cells: Vec<Vec<Cell>>,
    cursor_x: u16,
    cursor_y: u16,
    attr: CellAttr,
    /// Saved cursor position (for DECSC/DECRC).
    saved_cursor: (u16, u16),
    /// Scroll region (top, bottom) - 0-based, inclusive.
    scroll_top: u16,
    scroll_bottom: u16,
    /// DECAWM: auto-wrap mode (default on).
    auto_wrap: bool,
    /// DECTCEM: cursor visible.
    cursor_visible: bool,
    /// Whether we are in the alternate screen buffer.
    alt_active: bool,
    /// Saved primary screen state (cells, cursor, scroll region, attr).
    alt_saved: Option<AltSaved>,
    /// Window/icon title set via OSC 0/1/2.
    pub title: String,
    /// Transcript bytes: committed lines followed by the line being typed.
    transcript: Vec<u8>,
    /// Where the line being typed starts in `transcript`.
    line_start: usize,
    /// The characters of the line being typed.
    line: Vec<char>,
    /// A carriage return (or a move to the first column) happened since the last
    /// printed character.
    cr_pending: bool,
    /// The cursor column at that carriage return.
    cr_col: u16,
    /// The transcript ignores screen output until the next user input.
    suppressed: bool,
}

/// The abstract content of a kept-aside primary screen.
spec fn saved_model(sv: Option<AltSaved>) -> Option<SavedScreen> {
    match sv {
        Some(a) => Some(
            SavedScreen {
                grid: grid_of(a.cells@),
                cursor_x: a.cursor_x,
                cursor_y: a.cursor_y,
                attr: a.attr,
                scroll_top: a.scroll_top,
                scroll_bottom: a.scroll_bottom,
            },
        ),
        None => None,
    }
}

impl View for Screen {
    type V = ScreenModel;

    closed spec fn view(&self) -> ScreenModel {
        ScreenModel {
            cols: self.cols,
            rows: self.rows,
            grid: grid_of(self.cells@),
            cursor_x: self.cursor_x,
            cursor_y: self.cursor_y,
            attr: self.attr,
            saved_cursor: self.saved_cursor,
            scroll_top: self.scroll_top,
            scroll_bottom: self.scroll_bottom,
            auto_wrap: self.auto_wrap,
            cursor_visible: self.cursor_visible,
            alt_active: self.alt_active,
            alt_saved: saved_model(self.alt_saved),
            title: self.title@,
            log: self.transcript@.take(self.line_start as int),
            line: self.line@,
            cr_pending: self.cr_pending,
            cr_col: self.cr_col,
            suppressed: self.suppressed,
        }
    }
}

impl Screen {
    /// The screen keeps its shape (see [`model::model_wf`]) and its transcript bytes
    /// are the committed lines followed by the encoding of the line being typed.
    pub closed spec fn wf(&self) -> bool {
        &&& model::model_wf(self@)
        &&& self.line_start <= self.transcript@.len()
        &&& self.transcript@ == self.transcript@.take(self.line_start as int) + encode_utf8(self.line@)
    }

    /// A well-formed screen has the shape its model promises: at least one row and
    /// column, a grid of `rows` rows of `cols` cells and the scroll region within the
    /// rows.
    pub proof fn lemma_wf_shape(&self)
        requires
            self.wf(),
        ensures
            model::model_wf(self@),
    {
    }

    /// Create a new screen buffer. A width or height of zero is taken as one, so the
    /// screen always has a cell for the cursor to stand on.
    pub fn new(cols: u16, rows: u16) -> (s: Self)
        ensures
            s.wf(),
            s@ == model::initial(model::at_least_one(cols), model::at_least_one(rows)),
    {
        let cols: u16 = if cols == 0 {
            1
        } else {
            cols
        };
        let rows: u16 = if rows == 0 {
            1
        } else {
            rows
        };
        let cells = blank_grid_vec(cols, rows);
        let s = Screen {
            cols,
            rows,
            cells,
            cursor_x: 0,
            cursor_y: 0,
            attr: CellAttr::default(),
            saved_cursor: (0, 0),
            scroll_top: 0,
            scroll_bottom: rows - 1,
            auto_wrap: true,
            cursor_visible: true,
            alt_active: false,
            alt_saved: None,
            title: String::new(),
            transcript: Vec::new(),
            line_start: 0,
            line: Vec::new(),
            cr_pending: false,
            cr_col: 0,
            suppressed: false,
        };
        proof {
            assert(s.transcript@.take(0) =~= Seq::<u8>::empty());
            assert(encode_utf8(Seq::<char>::empty()) =~= Seq::<u8>::empty());
            assert(s@.log =~= Seq::<u8>::empty());
        }
        s
    }

    /// Get the dimensions.
    pub fn size(&self) -> (r: (u16, u16))
        ensures
            r == (self@.cols, self@.rows),
    {
        (self.cols, self.rows)
    }

    /// Get cursor position.
    pub fn cursor(&self) -> (r: (u16, u16))
        ensures
            r == (self@.cursor_x, self@.cursor_y),
    {
        (self.cursor_x, self.cursor_y)
    }

    /// Get a cell at (col, row).
    pub fn cell(&self, col: u16, row: u16) -> (c: &Cell)
        requires
            self.wf(),
            col < self@.cols,
            row < self@.rows,
        ensures
            *c == self@.grid[row as int][col as int],
    {
        &self.cells[row as usize][col as usize]
    }

    /// Whether the alternate screen is shown.
    pub fn alt_active(&self) -> (b: bool)
        ensures
            b == self@.alt_active,
    {
        self.alt_active
    }

    /// Whether the cursor is visible (DECTCEM).
    pub fn cursor_visible(&self) -> (b: bool)
        ensures
            b == self@.cursor_visible,
    {
        self.cursor_visible
    }

    /// Whether auto-wrap (DECAWM) is on.
    pub fn auto_wrap(&self) -> (b: bool)
        ensures
            b == self@.auto_wrap,
    {
        self.auto_wrap
    }

    fn line_feed(&mut self)
        requires
            old(self).wf(),
        ensures
            final(self).wf(),
            final(self)@ == model::line_feed(old(self)@),
    {
        if self.cursor_y >= self.scroll_bottom {
            scroll_up_region(&mut self.cells, self.cols, self.scroll_top as usize, self.scroll_bottom as usize, 1);
        } else {
            self.cursor_y = self.cursor_y + 1;
        }
    }

    fn put_char(&mut self, ch: char)
        requires
            old(self).wf(),
        ensures
            final(self).wf(),
            final(self)@ == model::put_char(old(self)@, ch),
    {
        let ghost s0 = self@;
        if self.cursor_x >= self.cols {
            if self.auto_wrap {
                self.cursor_x = 0;
                self.line_feed();
            } else {
                self.cursor_x = self.cols - 1;
            }
        }
        let cell = Cell { ch, attr: self.attr };
        if self.cursor_y < self.rows {
            set_cell(&mut self.cells, self.cursor_y as usize, self.cursor_x as usize, cell);
        }
        self.cursor_x = self.cursor_x + 1;
    }
}


/// Replaces everything after `start` by the UTF-8 encoding of `line`.
fn rewrite_tail(transcript: &mut Vec<u8>, start: usize, line: &[char])
    requires
        start <= old(transcript)@.len(),
    ensures
        final(transcript)@ == old(transcript)@.take(start as int) + encode_utf8(line@),
{
    transcript.truncate(start);
    push_chars_utf8(transcript, line);
}

impl Screen {
    /// Records a character in the line being typed (see [`model::transcript_print`]).
    fn record_char(&mut self, ch: char, check_dim: bool)
        requires
            old(self).wf(),
        ensures
            final(self).wf(),
            final(self)@ == model::transcript_print(old(self)@, ch, check_dim),
    {
        if !self.alt_active && !self.suppressed && !(check_dim && self.attr.dim) {
            if self.cr_pending {
                self.line.clear();
                self.transcript.truncate(self.line_start);
                self.cr_pending = false;
                proof {
                    assert(encode_utf8(self.line@) =~= Seq::<u8>::empty());
                    assert(self.transcript@ =~= self.transcript@.take(self.line_start as int) + encode_utf8(self.line@));
                }
            }
            let ghost before = self.transcript@;
            let ghost line_before = self.line@;
            self.line.push(ch);
            push_char_utf8(&mut self.transcript, ch);
            proof {
                lemma_encode_utf8_push(line_before, ch);
                lemma_encode_utf8_single(ch);
                assert(self.transcript@.take(self.line_start as int) =~= before.take(self.line_start as int));
                assert(self.transcript@ =~= self.transcript@.take(self.line_start as int) + encode_utf8(self.line@));
            }
        }
    }

    /// Commits the line being typed at a line feed (see [`model::transcript_commit`]).
    #[verifier::spinoff_prover]
    fn commit_line(&mut self)
        requires
            old(self).wf(),
        ensures
            final(self).wf(),
            final(self)@ == model::transcript_commit(old(self)@),
    {
        if self.alt_active || self.suppressed {
            return;
        }
        let lim = if self.cr_pending {
            self.cr_col
        } else {
            self.cursor_x
        };
        let limit = if lim <= self.cols {
            lim
        } else {
            self.cols
        };
        let snap = if self.cursor_y < self.rows {
            row_snapshot_vec(&self.cells[self.cursor_y as usize], limit as usize)
        } else {
            Vec::new()
        };
        let ls = self.line_start;
        let blank_log = ls == 0 || (ls >= 2 && self.transcript[ls - 1] == 0x0Au8 && self.transcript[ls - 2]
            == 0x0Au8);
        let ghost log = self.transcript@.take(ls as int);
        self.transcript.truncate(ls);
        self.line.clear();
        self.cr_pending = false;
        if !(snap.len() == 0 && blank_log) {
            push_chars_utf8(&mut self.transcript, snap.as_slice());
            self.transcript.push(0x0Au8);
            self.line_start = self.transcript.len();
        }
        proof {
            assert(encode_utf8(self.line@) =~= Seq::<u8>::empty());
            assert(self.transcript@.take(self.line_start as int) =~= self.transcript@);
            assert(self.transcript@ =~= self.transcript@.take(self.line_start as int) + encode_utf8(self.line@));
            if !(snap@.len() == 0 && blank_log) {
                assert(self.transcript@ =~= log + encode_utf8(snap@) + seq![0x0Au8]);
            }
        }
    }

    /// Prints a character at the cursor (a parser's printable-character action).
    pub fn print(&mut self, ch: char)
        requires
            old(self).wf(),
        ensures
            final(self).wf(),
            final(self)@ == model::print(old(self)@, ch),
    {
        self.put_char(ch);
        self.record_char(ch, true);
    }

    /// Executes a C0 control byte (a parser's execute action).
    pub fn execute(&mut self, byte: u8)
        requires
            old(self).wf(),
        ensures
            final(self).wf(),
            final(self)@ == model::execute(old(self)@, byte),
    {
        if byte == 0x0Au8 || byte == 0x0Bu8 || byte == 0x0Cu8 {
            self.commit_line();
            self.line_feed();
        } else if byte == 0x0Du8 {
            if !self.alt_active && !self.suppressed {
                self.cr_pending = true;
                self.cr_col = self.cursor_x;
            }
            self.cursor_x = 0;
        } else if byte == 0x09u8 {
            let next: u32 = (self.cursor_x as u32 / TAB_WIDTH as u32 + 1) * TAB_WIDTH as u32;
            let last: u32 = (self.cols - 1) as u32;
            self.cursor_x = if next <= last {
                next as u16
            } else {
                last as u16
            };
            self.record_char('\t', false);
        } else if byte == 0x08u8 {
            if self.cursor_x > 0 {
                self.cursor_x = self.cursor_x - 1;
            }
            if !self.alt_active && !self.suppressed && self.line.len() > 0 {
                let ghost t0 = self.transcript@;
                self.line.pop();
                rewrite_tail(&mut self.transcript, self.line_start, self.line.as_slice());
                proof {
                    assert(self.transcript@.take(self.line_start as int) =~= t0.take(self.line_start as int));
                }
            }
        }
    }
}


/// Parameter `i` of a control sequence, or `default` when it is absent or zero.
fn param_or(params: &[u16], i: usize, default: u16) -> (r: u16)
    ensures
        r == model::param_or(params@, i as int, default),
{
    if i < params.len() && params[i] != 0 {
        params[i]
    } else {
        default
    }
}

/// Parameter `i + k` as a byte (its low eight bits), or zero when absent.
fn param_byte(params: &[u16], i: usize, k: usize) -> (r: u8)
    requires
        i <= params@.len(),
    ensures
        r == model::param_byte(params@, i + k),
{
    if k < params.len() - i {
        (params[i + k] % 256) as u8
    } else {
        0
    }
}

/// `a` if it is not above `b`, else `b`.
fn min_u16(a: u32, b: u16) -> (r: u16)
    ensures
        r == model::min_u16(a as int, b as int),
{
    if a <= b as u32 {
        a as u16
    } else {
        b
    }
}

/// `a - b`, or zero when `b` exceeds `a`.
fn sat_sub(a: u16, b: u16) -> (r: u16)
    ensures
        r == model::sat_sub(a as int, b as int),
{
    if a >= b {
        a - b
    } else {
        0
    }
}

/// The attributes after one SGR code that stands alone.
fn sgr_simple(a: CellAttr, p: u16) -> (r: CellAttr)
    ensures
        r == model::sgr_simple(a, p),
{
    if p == 0 {
        CellAttr::default()
    } else if p == 1 {
        CellAttr { bold: true, ..a }
    } else if p == 2 {
        CellAttr { dim: true, ..a }
    } else if p == 3 {
        CellAttr { italic: true, ..a }
    } else if p == 4 {
        CellAttr { underline: true, ..a }
    } else if p == 7 {
        CellAttr { inverse: true, ..a }
    } else if p == 22 {
        CellAttr { bold: false, dim: false, ..a }
    } else if p == 23 {
        CellAttr { italic: false, ..a }
    } else if p == 24 {
        CellAttr { underline: false, ..a }
    } else if p == 27 {
        CellAttr { inverse: false, ..a }
    } else if 30 <= p && p <= 37 {
        CellAttr { fg: Color::Index((p - 30) as u8), ..a }
    } else if p == 39 {
        CellAttr { fg: Color::Default, ..a }
    } else if 40 <= p && p <= 47 {
        CellAttr { bg: Color::Index((p - 40) as u8), ..a }
    } else if p == 49 {
        CellAttr { bg: Color::Default, ..a }
    } else if 90 <= p && p <= 97 {
        CellAttr { fg: Color::Index((p - 90 + 8) as u8), ..a }
    } else if 100 <= p && p <= 107 {
        CellAttr { bg: Color::Index((p - 100 + 8) as u8), ..a }
    } else {
        a
    }
}

/// Sets the foreground (`fg`) or background color.
fn with_color(a: CellAttr, fg: bool, c: Color) -> (r: CellAttr)
    ensures
        r == model::with_color(a, fg, c),
{
    if fg {
        CellAttr { fg: c, ..a }
    } else {
        CellAttr { bg: c, ..a }
    }
}

/// The attributes after a whole SGR parameter list (see [`model::sgr_from`]).
fn sgr_apply(a: CellAttr, params: &[u16]) -> (r: CellAttr)
    ensures
        r == model::sgr_from(a, params@, 0),
{
    let mut cur = a;
    let mut i: usize = 0;
    let len = params.len();
    while i < len
        invariant
            i <= len == params@.len(),
            model::sgr_from(cur, params@, i as int) == model::sgr_from(a, params@, 0),
        decreases len - i,
    {
        let p = params[i];
        if p == 38 || p == 48 {
            if len - i < 2 {
                i = len;
            } else if params[i + 1] == 5 {
                if len - i > 2 {
                    cur = with_color(cur, p == 38, Color::Index(param_byte(params, i, 2)));
                    i = i + 3;
                } else {
                    i = len;
                }
            } else if params[i + 1] == 2 {
                let c = Color::Rgb(param_byte(params, i, 2), param_byte(params, i, 3), param_byte(params, i, 4));
                cur = with_color(cur, p == 38, c);
                i = if len - i >= 5 {
                    i + 5
                } else {
                    len
                };
            } else {
                i = i + 2;
            }
        } else {
            cur = sgr_simple(cur, p);
            i = i + 1;
        }
    }
    cur
}

impl Screen {
    /// Shows the alternate screen (see [`model::enter_alt`]).
    fn enter_alt(&mut self, home: bool)
        requires
            old(self).wf(),
            !old(self).alt_active,
        ensures
            final(self).wf(),
            final(self)@ == model::enter_alt(old(self)@, home),
    {
        let mut primary = blank_grid_vec(self.cols, self.rows);
        std::mem::swap(&mut self.cells, &mut primary);
        self.alt_saved = Some(
            AltSaved {
                cells: primary,
                cursor_x: self.cursor_x,
                cursor_y: self.cursor_y,
                attr: self.attr,
                scroll_top: self.scroll_top,
                scroll_bottom: self.scroll_bottom,
            },
        );
        if home {
            self.cursor_x = 0;
            self.cursor_y = 0;
        }
        self.alt_active = true;
    }

    /// Returns to the primary screen (see [`model::exit_alt`]).
    fn exit_alt(&mut self, restore_cursor: bool)
        requires
            old(self).wf(),
            old(self).alt_active,
        ensures
            final(self).wf(),
            final(self)@ == model::exit_alt(old(self)@, restore_cursor),
    {
        let saved = self.alt_saved.take();
        match saved {
            Some(sv) => {
                self.cells = sv.cells;
                if restore_cursor {
                    self.cursor_x = sv.cursor_x;
                    self.cursor_y = sv.cursor_y;
                    self.attr = sv.attr;
                }
                self.scroll_top = sv.scroll_top;
                self.scroll_bottom = sv.scroll_bottom;
            },
            None => {},
        }
        self.alt_active = false;
        self.suppressed = true;
        self.cr_pending = false;
    }

    /// One DEC private mode set or reset (see [`model::dec_mode`]).
    fn dec_mode(&mut self, mode: u16, set: bool)
        requires
            old(self).wf(),
        ensures
            final(self).wf(),
            final(self)@ == model::dec_mode(old(self)@, mode, set),
    {
        if mode == 7 {
            self.auto_wrap = set;
        } else if mode == 25 {
            self.cursor_visible = set;
        } else if mode == 1049 || mode == 47 || mode == 1047 {
            if set && !self.alt_active {
                self.enter_alt(mode == 1049);
            } else if !set && self.alt_active {
                self.exit_alt(mode == 1049);
            }
        }
    }

    /// The DEC private modes of a parameter list, in order.
    fn dec_modes(&mut self, params: &[u16], set: bool)
        requires
            old(self).wf(),
        ensures
            final(self).wf(),
            final(self)@ == model::dec_modes(old(self)@, params@, 0, set),
    {
        let ghost s0 = self@;
        let mut i: usize = 0;
        while i < params.len()
            invariant
                self.wf(),
                i <= params@.len(),
                model::dec_modes(self@, params@, i as int, set) == model::dec_modes(s0, params@, 0, set),
            decreases params@.len() - i,
        {
            self.dec_mode(params[i], set);
            i = i + 1;
        }
    }

    /// Cursor to column `x` (see [`model::move_to_column`]).
    fn move_to_column(&mut self, x: u16)
        requires
            old(self).wf(),
            x < old(self)@.cols,
        ensures
            final(self).wf(),
            final(self)@ == model::move_to_column(old(self)@, x),
    {
        if !self.alt_active && !self.suppressed && x == 0 {
            self.cr_pending = true;
            self.cr_col = self.cursor_x;
        }
        self.cursor_x = x;
    }

    /// Erase in line, grid and transcript (see [`model::erase_line`]).
    fn erase_line(&mut self, mode: u16)
        requires
            old(self).wf(),
            mode == 0 ==> (old(self)@.cursor_y < old(self)@.rows && old(self)@.cursor_x <= old(self)@.cols)
                || (old(self)@.cursor_y == old(self)@.rows && old(self)@.cursor_x == 0),
            (mode == 1 || mode == 2) ==> old(self)@.cursor_y <= old(self)@.rows,
        ensures
            final(self).wf(),
            final(self)@ == model::erase_line(old(self)@, mode),
    {
        erase_line_cells(&mut self.cells, self.cols, self.rows, self.cursor_x, self.cursor_y, mode);
        if !self.alt_active && !self.suppressed {
            if mode == 0 {
                let keep: usize = if (self.cursor_x as usize) <= self.line.len() {
                    self.cursor_x as usize
                } else {
                    self.line.len()
                };
                let ghost t0 = self.transcript@;
                self.line.truncate(keep);
                rewrite_tail(&mut self.transcript, self.line_start, self.line.as_slice());
                proof {
                    assert(self.transcript@.take(self.line_start as int) =~= t0.take(self.line_start as int));
                }
            } else if mode == 2 {
                let ghost t0 = self.transcript@;
                self.line.clear();
                rewrite_tail(&mut self.transcript, self.line_start, self.line.as_slice());
                proof {
                    assert(self.transcript@.take(self.line_start as int) =~= t0.take(self.line_start as int));
                }
            }
        }
    }
}

impl Screen {
    /// Replaces the cursor row.
    fn replace_cursor_row(&mut self, row: Vec<Cell>)
        requires
            old(self).wf(),
            old(self)@.cursor_y < old(self)@.rows,
            row@.len() == old(self)@.cols,
        ensures
            final(self).wf(),
            final(self)@ == model::with_row(old(self)@, row@),
    {
        set_row(&mut self.cells, self.cursor_y as usize, row);
        proof {
            assert(model::grid_shape(grid_of(self.cells@), self.cols as nat, self.rows as nat));
        }
    }

    /// Dispatches a CSI sequence: its parameters (the first sub-parameter of each),
    /// its intermediate bytes and its final character.
    #[verifier::spinoff_prover]
    #[verifier::rlimit(60)]
    pub fn csi_dispatch(&mut self, params: &[u16], intermediates: &[u8], action: char)
        requires
            old(self).wf(),
            model::csi_accepts(old(self)@, params@, intermediates@, action),
        ensures
            final(self).wf(),
            final(self)@ == model::csi(old(self)@, params@, intermediates@, action),
    {
        let ghost s0 = self@;
        if intermediates.len() == 1 && intermediates[0] == 0x3Fu8 && (action == 'h' || action == 'l') {
            assert(intermediates@ =~= seq![0x3Fu8]);
            self.dec_modes(params, action == 'h');
            return;
        }
        assert(!(intermediates@ == seq![0x3Fu8] && (action == 'h' || action == 'l'))) by {
            if intermediates@ == seq![0x3Fu8] {
                assert(intermediates@.len() == 1 && intermediates@[0] == 0x3Fu8);
            }
        }
        let n = param_or(params, 0, 1);
        let last_col = self.cols - 1;
        let last_row = self.rows - 1;
        if action == 'A' {
            self.cursor_y = sat_sub(self.cursor_y, n);
        } else if action == 'B' || action == 'e' {
            self.cursor_y = min_u16(self.cursor_y as u32 + n as u32, last_row);
        } else if action == 'C' || action == 'a' {
            self.cursor_x = min_u16(self.cursor_x as u32 + n as u32, last_col);
        } else if action == 'D' {
            self.cursor_x = sat_sub(self.cursor_x, n);
        } else if action == 'E' {
            self.cursor_x = 0;
            self.cursor_y = min_u16(self.cursor_y as u32 + n as u32, last_row);
        } else if action == 'F' {
            self.cursor_x = 0;
            self.cursor_y = sat_sub(self.cursor_y, n);
        } else if action == 'G' || action == '`' {
            let x = min_u16(sat_sub(n, 1) as u32, last_col);
            self.move_to_column(x);
        } else if action == 'H' || action == 'f' {
            let col = param_or(params, 1, 1);
            self.cursor_y = min_u16(sat_sub(n, 1) as u32, last_row);
            self.cursor_x = min_u16(sat_sub(col, 1) as u32, last_col);
        } else if action == 'J' {
            let mode = param_or(params, 0, 0);
            erase_display_cells(&mut self.cells, self.cols, self.rows, self.cursor_x, self.cursor_y, mode);
        } else if action == 'K' {
            let mode = param_or(params, 0, 0);
            self.erase_line(mode);
        } else if action == 'L' {
            scroll_down_region(&mut self.cells, self.cols, self.cursor_y as usize, self.scroll_bottom as usize, n as usize);
        } else if action == 'M' {
            scroll_up_region(&mut self.cells, self.cols, self.cursor_y as usize, self.scroll_bottom as usize, n as usize);
        } else if action == 'S' {
            scroll_up_region(&mut self.cells, self.cols, self.scroll_top as usize, self.scroll_bottom as usize, n as usize);
        } else if action == 'T' {
            scroll_down_region(&mut self.cells, self.cols, self.scroll_top as usize, self.scroll_bottom as usize, n as usize);
        } else if action == 'd' {
            self.cursor_y = min_u16(sat_sub(n, 1) as u32, last_row);
        } else if action == 'm' {
            self.attr = sgr_apply(self.attr, params);
        } else if action == 'r' {
            let bottom = param_or(params, 1, self.rows);
            self.scroll_top = sat_sub(n, 1);
            self.scroll_bottom = min_u16(sat_sub(bottom, 1) as u32, last_row);
            self.cursor_x = 0;
            self.cursor_y = 0;
        } else if action == 'P' {
            let row = delete_chars_vec(&self.cells[self.cursor_y as usize], self.cursor_x as usize, n as usize);
            self.replace_cursor_row(row);
        } else if action == '@' {
            let row = insert_chars_vec(&self.cells[self.cursor_y as usize], self.cursor_x as usize, n as usize);
            self.replace_cursor_row(row);
        } else if action == 'X' {
            if self.cursor_y < self.rows {
                let row = erase_chars_vec(&self.cells[self.cursor_y as usize], self.cursor_x as usize, n as usize);
                self.replace_cursor_row(row);
            }
        }
        proof {
            assert(model::grid_shape(grid_of(self.cells@), self.cols as nat, self.rows as nat));
        }
    }
}

impl Screen {
    /// Dispatches an ESC sequence by its final byte (see [`model::esc`]). Restoring
    /// the cursor (ESC 8) puts it back where it was saved, even when the screen has
    /// shrunk since: a cursor saved at column 70 comes back at column 70 on a screen
    /// resized to 40 columns.
    pub fn esc_dispatch(&mut self, byte: u8)
        requires
            old(self).wf(),
        ensures
            final(self).wf(),
            final(self)@ == model::esc(old(self)@, byte),
    {
        if byte == 0x37u8 {
            self.saved_cursor = (self.cursor_x, self.cursor_y);
        } else if byte == 0x38u8 {
            self.cursor_x = self.saved_cursor.0;
            self.cursor_y = self.saved_cursor.1;
        } else if byte == 0x44u8 {
            self.line_feed();
        } else if byte == 0x4Du8 {
            if self.cursor_y <= self.scroll_top {
                scroll_down_region(&mut self.cells, self.cols, self.scroll_top as usize, self.scroll_bottom as usize, 1);
            } else {
                self.cursor_y = self.cursor_y - 1;
            }
        } else if byte == 0x63u8 {
            self.attr = CellAttr::default();
            self.cursor_x = 0;
            self.cursor_y = 0;
            self.scroll_top = 0;
            self.scroll_bottom = self.rows - 1;
            self.cells = blank_grid_vec(self.cols, self.rows);
        }
        proof {
            assert(model::grid_shape(grid_of(self.cells@), self.cols as nat, self.rows as nat));
        }
    }

    /// Dispatches an OSC sequence: `0`, `1` or `2` followed by UTF-8 text sets the title.
    pub fn osc_dispatch(&mut self, params: &[Vec<u8>])
        requires
            old(self).wf(),
        ensures
            final(self).wf(),
            final(self)@ == model::osc(old(self)@, model::osc_params(params@)),
    {
        let ghost ps = model::osc_params(params@);
        if params.len() >= 2 && params[0].len() == 1 && (params[0][0] == 0x30u8 || params[0][0] == 0x31u8
            || params[0][0] == 0x32u8) {
            assert(ps[0] =~= seq![params@[0]@[0]]);
            let bytes = params[1].clone();
            assert(bytes@ =~= ps[1]);
            match string_from_utf8(bytes) {
                Some(t) => {
                    self.title = t;
                },
                None => {},
            }
        } else {
            assert(!(ps.len() >= 2 && (ps[0] == seq![0x30u8] || ps[0] == seq![0x31u8] || ps[0]
                == seq![0x32u8]))) by {
                if ps.len() >= 2 && (ps[0] == seq![0x30u8] || ps[0] == seq![0x31u8] || ps[0] == seq![0x32u8]) {
                    assert(ps[0].len() == 1);
                }
            }
        }
    }

    /// Resize the screen. Content is best-effort preserved. A width or height of
    /// zero is taken as one, as in [`Screen::new`].
    pub fn resize(&mut self, cols: u16, rows: u16)
        requires
            old(self).wf(),
        ensures
            final(self).wf(),
            final(self)@ == model::resize(old(self)@, model::at_least_one(cols), model::at_least_one(rows)),
    {
        let cols: u16 = if cols == 0 {
            1
        } else {
            cols
        };
        let rows: u16 = if rows == 0 {
            1
        } else {
            rows
        };
        self.cells = resize_grid_vec(&self.cells, cols, rows);
        let saved = self.alt_saved.take();
        match saved {
            Some(sv) => {
                let cells = resize_grid_vec(&sv.cells, cols, rows);
                self.alt_saved = Some(
                    AltSaved {
                        cells,
                        cursor_x: if sv.cursor_x >= cols {
                            cols - 1
                        } else {
                            sv.cursor_x
                        },
                        cursor_y: if sv.cursor_y >= rows {
                            rows - 1
                        } else {
                            sv.cursor_y
                        },
                        attr: sv.attr,
                        scroll_top: 0,
                        scroll_bottom: rows - 1,
                    },
                );
            },
            None => {},
        }
        self.cols = cols;
        self.rows = rows;
        self.scroll_top = 0;
        self.scroll_bottom = rows - 1;
        if self.cursor_x >= cols {
            self.cursor_x = cols - 1;
        }
        if self.cursor_y >= rows {
            self.cursor_y = rows - 1;
        }
    }
}

impl Screen {
    /// The transcript: committed lines followed by the line being typed, since the
    /// last drain.
    pub fn transcript(&self) -> (t: &[u8])
        requires
            self.wf(),
        ensures
            t@ == model::transcript_of(self@),
    {
        self.transcript.as_slice()
    }

    /// Drain the transcript buffer, returning accumulated text since last drain.
    pub fn drain_transcript(&mut self) -> (t: Vec<u8>)
        requires
            old(self).wf(),
        ensures
            final(self).wf(),
            t@ == model::transcript_of(old(self)@),
            final(self)@ == model::drained(old(self)@),
    {
        let mut t: Vec<u8> = Vec::new();
        std::mem::swap(&mut self.transcript, &mut t);
        self.line_start = 0;
        self.line.clear();
        proof {
            assert(encode_utf8(self.line@) =~= Seq::<u8>::empty());
            assert(self.transcript@.take(0) =~= Seq::<u8>::empty());
        }
        t
    }

    /// Clear the transcript buffer.
    pub fn clear_transcript(&mut self)
        requires
            old(self).wf(),
        ensures
            final(self).wf(),
            final(self)@ == model::drained(old(self)@),
    {
        self.transcript.clear();
        self.line_start = 0;
        self.line.clear();
        proof {
            assert(encode_utf8(self.line@) =~= Seq::<u8>::empty());
            assert(self.transcript@.take(0) =~= Seq::<u8>::empty());
        }
    }

    /// The committed lines of the transcript (each ended by a line feed), without
    /// the line being typed.
    pub fn committed_transcript(&self) -> (t: Vec<u8>)
        requires
            self.wf(),
        ensures
            t@ == self@.log,
    {
        let mut t: Vec<u8> = Vec::new();
        let mut i: usize = 0;
        while i < self.line_start
            invariant
                self.wf(),
                i <= self.line_start,
                t@ == self.transcript@.take(i as int),
            decreases self.line_start - i,
        {
            t.push(self.transcript[i]);
            assert(t@ =~= self.transcript@.take(i + 1));
            i = i + 1;
        }
        t
    }

    /// Drops the committed lines of the transcript; the line being typed stays.
    pub fn discard_committed_transcript(&mut self)
        requires
            old(self).wf(),
        ensures
            final(self).wf(),
            final(self)@ == model::committed_taken(old(self)@),
    {
        let mut t: Vec<u8> = Vec::new();
        push_chars_utf8(&mut t, self.line.as_slice());
        self.transcript = t;
        self.line_start = 0;
        proof {
            assert(self.transcript@.take(0) =~= Seq::<u8>::empty());
            assert(self.transcript@ =~= Seq::<u8>::empty() + encode_utf8(self.line@));
        }
    }

    /// The user typed something: screen output is recorded again.
    pub fn clear_transcript_suppress(&mut self)
        requires
            old(self).wf(),
        ensures
            final(self).wf(),
            final(self)@ == model::unsuppressed(old(self)@),
    {
        self.suppressed = false;
    }

    /// Drops the line being typed and ignores screen output until the next user input.
    pub fn cancel_transcript_line(&mut self)
        requires
            old(self).wf(),
        ensures
            final(self).wf(),
            final(self)@ == model::line_cancelled(old(self)@),
    {
        let ghost t0 = self.transcript@;
        self.line.clear();
        rewrite_tail(&mut self.transcript, self.line_start, self.line.as_slice());
        self.cr_pending = false;
        self.suppressed = true;
        proof {
            assert(self.transcript@.take(self.line_start as int) =~= t0.take(self.line_start as int));
        }
    }

    /// Notes input the user sent to the session (see [`model::user_input`]).
    #[verifier::spinoff_prover]
    pub fn user_input(&mut self, data: &[u8])
        requires
            old(self).wf(),
        ensures
            final(self).wf(),
            final(self)@ == model::user_input(old(self)@, data@),
    {
        let mut cancel = false;
        let mut i: usize = 0;
        while i < data.len()
            invariant
                i <= data@.len(),
                cancel <==> (data@.take(i as int).contains(0x03u8) || data@.take(i as int).contains(0x09u8)),
            decreases data@.len() - i,
        {
            if data[i] == 0x03u8 || data[i] == 0x09u8 {
                cancel = true;
            }
            proof {
                let t = data@.take(i as int);
                let t1 = data@.take(i + 1);
                assert(t1 =~= t.push(data@[i as int]));
                if t.contains(0x03u8) {
                    let k = choose|k: int| 0 <= k < t.len() && t[k] == 0x03u8;
                    assert(t1[k] == 0x03u8);
                }
                if t.contains(0x09u8) {
                    let k = choose|k: int| 0 <= k < t.len() && t[k] == 0x09u8;
                    assert(t1[k] == 0x09u8);
                }
                if t1.contains(0x03u8) && !t.contains(0x03u8) {
                    let k = choose|k: int| 0 <= k < t1.len() && t1[k] == 0x03u8;
                    if k < i {
                        assert(t[k] == 0x03u8);
                    }
                }
                if t1.contains(0x09u8) && !t.contains(0x09u8) {
                    let k = choose|k: int| 0 <= k < t1.len() && t1[k] == 0x09u8;
                    if k < i {
                        assert(t[k] == 0x09u8);
                    }
                }
                if data@[i as int] == 0x03u8 {
                    assert(t1[i as int] == 0x03u8);
                }
                if data@[i as int] == 0x09u8 {
                    assert(t1[i as int] == 0x09u8);
                }
            }
            i = i + 1;
        }
        assert(data@.take(data@.len() as int) =~= data@);
        if cancel {
            self.cancel_transcript_line();
        } else {
            self.clear_transcript_suppress();
        }
    }
}

/// One action of a VT parser, as the screen consumes it: a printable character, a
/// C0 control byte, a CSI sequence (the first sub-parameter of each parameter, the
/// intermediate bytes, the final character), an ESC sequence (its final byte) or an
/// OSC sequence (its parameters).
pub enum Action {
    Print(char),
    Execute(u8),
    Csi { params: Vec<u16>, intermediates: Vec<u8>, action: char },
    Esc(u8),
    Osc(Vec<Vec<u8>>),
}

impl Screen {
    /// Get one line as a string (trimming trailing whitespace).
    pub fn line_text(&self, row: u16) -> (s: String)
        requires
            self.wf(),
            row < self@.rows,
        ensures
            s@ == render::line_text_spec(self@.grid[row as int]),
    {
        render::row_text(&self.cells[row as usize])
    }

    /// Get all visible text as a string (plain, no SGR).
    pub fn text(&self) -> (s: String)
        ensures
            s@ == render::screen_text(self@.grid),
    {
        render::grid_text(&self.cells)
    }

    /// Render screen content as a string with ANSI/SGR escape sequences.
    ///
    /// Unlike `text()`, this preserves colors and attributes (bold, dim,
    /// underline, inverse, fg/bg colors) so that e.g. PowerShell's
    /// PSReadLine inline predictions remain visually distinct.
    pub fn render_ansi(&self) -> (s: String)
        ensures
            s@ == render::screen_ansi(self@.grid),
    {
        render::grid_ansi(&self.cells)
    }

    /// Whether a control sequence can be carried out where the cursor stands (see
    /// [`model::csi_accepts`]).
    pub fn csi_accepts(&self, params: &[u16], intermediates: &[u8], action: char) -> (b: bool)
        ensures
            b == model::csi_accepts(self@, params@, intermediates@, action),
    {
        let dec = intermediates.len() == 1 && intermediates[0] == 0x3Fu8 && (action == 'h' || action == 'l');
        proof {
            if intermediates@ == seq![0x3Fu8] {
                assert(intermediates@.len() == 1 && intermediates@[0] == 0x3Fu8);
            }
            if dec {
                assert(intermediates@ =~= seq![0x3Fu8]);
            }
        }
        if dec {
            return true;
        }
        let x = self.cursor_x as u64;
        let y = self.cursor_y as u64;
        let cols = self.cols as u64;
        let rows = self.rows as u64;
        let in_grid = y < rows && x <= cols;
        let at_end = y == rows && x == 0;
        let m = param_or(params, 0, 0);
        if action == 'J' {
            proof {
                assert(y * cols <= 0xFFFF * 0xFFFF) by (nonlinear_arith)
                    requires
                        y <= 0xFFFF,
                        cols <= 0xFFFF,
                ;
                assert(rows * cols <= 0xFFFF * 0xFFFF) by (nonlinear_arith)
                    requires
                        rows <= 0xFFFF,
                        cols <= 0xFFFF,
                ;
            }
            m != 0 || y * cols + x <= rows * cols
        } else if action == 'K' {
            (m != 0 || in_grid || at_end) && (!(m == 1 || m == 2) || y <= rows)
        } else if action == 'P' || action == '@' {
            in_grid
        } else if action == 'X' {
            in_grid || at_end
        } else {
            true
        }
    }

    /// Whether a parser action can be carried out (see [`model::accepts`]).
    pub fn accepts(&self, a: &Action) -> (b: bool)
        ensures
            b == model::accepts(self@, *a),
    {
        match a {
            Action::Csi { params, intermediates, action } => self.csi_accepts(
                params.as_slice(),
                intermediates.as_slice(),
                *action,
            ),
            _ => true,
        }
    }

    /// Applies one parser action (see [`model::perform`]).
    pub fn perform(&mut self, a: &Action)
        requires
            old(self).wf(),
            model::accepts(old(self)@, *a),
        ensures
            final(self).wf(),
            final(self)@ == model::perform(old(self)@, *a),
    {
        match a {
            Action::Print(c) => self.print(*c),
            Action::Execute(b) => self.execute(*b),
            Action::Csi { params, intermediates, action } => self.csi_dispatch(
                params.as_slice(),
                intermediates.as_slice(),
                *action,
            ),
            Action::Esc(b) => self.esc_dispatch(*b),
            Action::Osc(ps) => self.osc_dispatch(ps.as_slice()),
        }
    }

    /// Applies parser actions in order (see [`model::perform_all`]).
    pub fn perform_all(&mut self, actions: &[Action])
        requires
            old(self).wf(),
            model::accepts_all(old(self)@, actions@),
        ensures
            final(self).wf(),
            final(self)@ == model::perform_all(old(self)@, actions@),
    {
        let ghost s0 = self@;
        let mut i: usize = 0;
        while i < actions.len()
            invariant
                self.wf(),
                i <= actions@.len(),
                self@ == model::perform_all(s0, actions@.take(i as int)),
                model::accepts_all(s0, actions@),
            decreases actions@.len() - i,
        {
            proof {
                model::lemma_accepts_prefix(s0, actions@, i + 1);
                assert(actions@.take(i + 1).drop_last() =~= actions@.take(i as int));
                assert(actions@.take(i + 1).last() == actions@[i as int]);
            }
            self.perform(&actions[i]);
            proof {
                assert(actions@.take(i + 1).drop_last() =~= actions@.take(i as int));
            }
            i = i + 1;
        }
        assert(actions@.take(actions@.len() as int) =~= actions@);
    }
}
} // verus!
