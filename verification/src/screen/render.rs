//! Reading the grid back as text: one row, the whole screen as plain text, and the
//! whole screen with SGR sequences for the cell attributes.
use vstd::prelude::*;
use super::{Cell, CellAttr, Color};
use super::grid::grid_of;
use super::model::default_attr;
use crate::text::{decimal, is_white_space, is_white_space_char, push_decimal, string_push, string_push_str, trim_end_ws};

verus! {

/// The characters of a row of cells.
pub open spec fn row_chars(row: Seq<Cell>) -> Seq<char> {
    row.map_values(|c: Cell| c.ch)
}

/// The text of one row, without trailing whitespace.
pub open spec fn line_text_spec(row: Seq<Cell>) -> Seq<char> {
    trim_end_ws(row_chars(row))
}

/// The number of leading cells left once trailing spaces are dropped.
pub open spec fn content_len(row: Seq<Cell>) -> nat
    decreases row.len(),
{
    if row.len() == 0 {
        0
    } else if row.last().ch == ' ' {
        content_len(row.drop_last())
    } else {
        row.len()
    }
}

/// `n` line feeds.
pub open spec fn newlines(n: nat) -> Seq<char> {
    Seq::new(n, |i: int| '\n')
}

/// The text accumulated so far and the number of blank rows not yet written:
/// blank rows are held back and only written (as line feeds) before a later row
/// with content, which is itself preceded by a line feed unless the text is empty.
pub open spec fn text_step(acc: (Seq<char>, nat), row: Seq<Cell>) -> (Seq<char>, nat) {
    let n = content_len(row);
    if n == 0 {
        (acc.0, acc.1 + 1)
    } else {
        let r1 = acc.0 + newlines(acc.1);
        let r2 = if r1.len() > 0 {
            r1.push('\n')
        } else {
            r1
        };
        (r2 + row_chars(row.take(n as int)), 0)
    }
}

/// [`text_step`] over the first `k` rows.
pub open spec fn text_upto(g: Seq<Seq<Cell>>, k: int) -> (Seq<char>, nat)
    decreases k,
{
    if k <= 0 {
        (Seq::<char>::empty(), 0)
    } else {
        text_step(text_upto(g, k - 1), g[k - 1])
    }
}

/// All visible text of a grid: rows without trailing spaces, joined by line feeds,
/// trailing blank rows dropped.
pub open spec fn screen_text(g: Seq<Seq<Cell>>) -> Seq<char> {
    text_upto(g, g.len() as int).0
}

/// `;` and a flag's code when the flag is set.
pub open spec fn flag_part(on: bool, code: char) -> Seq<char> {
    if on {
        seq![';', code]
    } else {
        Seq::<char>::empty()
    }
}

/// The SGR parameters of a color: `base + n` for the eight basic colors, `bright + n - 8`
/// for the eight bright ones, `ext;5;n` for the other indexed colors, `ext;2;r;g;b`
/// for a direct color, nothing for the default.
pub open spec fn color_part(c: Color, base: nat, bright: nat, ext: nat) -> Seq<char> {
    match c {
        Color::Default => Seq::<char>::empty(),
        Color::Index(n) => if n < 8 {
            seq![';'] + decimal((base + n) as nat)
        } else if n < 16 {
            seq![';'] + decimal((bright + n - 8) as nat)
        } else {
            seq![';'] + decimal(ext) + seq![';', '5', ';'] + decimal(n as nat)
        },
        Color::Rgb(r, g, b) => seq![';'] + decimal(ext) + seq![';', '2', ';'] + decimal(r as nat) + seq![';']
            + decimal(g as nat) + seq![';'] + decimal(b as nat),
    }
}

/// The SGR reset sequence `ESC [ 0 m`.
pub open spec fn sgr_reset() -> Seq<char> {
    seq!['\x1b', '[', '0', 'm']
}

/// The SGR sequence that sets the given attributes from a reset state.
pub open spec fn sgr_spec(a: CellAttr) -> Seq<char> {
    if a == default_attr() {
        sgr_reset()
    } else {
        seq!['\x1b', '[', '0'] + flag_part(a.bold, '1') + flag_part(a.dim, '2') + flag_part(a.italic, '3')
            + flag_part(a.underline, '4') + flag_part(a.inverse, '7') + color_part(a.fg, 30, 90, 38)
            + color_part(a.bg, 40, 100, 48) + seq!['m']
    }
}

/// The characters of a row prefix with an SGR sequence before each change of
/// attributes (starting from the default), and the attributes in force at its end.
pub open spec fn ansi_cells(cells: Seq<Cell>) -> (Seq<char>, CellAttr)
    decreases cells.len(),
{
    if cells.len() == 0 {
        (Seq::<char>::empty(), default_attr())
    } else {
        let (out, cur) = ansi_cells(cells.drop_last());
        let c = cells.last();
        if c.attr != cur {
            (out + sgr_spec(c.attr) + seq![c.ch], c.attr)
        } else {
            (out.push(c.ch), cur)
        }
    }
}

/// A row prefix rendered with SGR sequences, reset at the end when attributes changed.
pub open spec fn row_ansi(cells: Seq<Cell>) -> Seq<char> {
    let (out, cur) = ansi_cells(cells);
    if cur != default_attr() {
        out + sgr_reset()
    } else {
        out
    }
}

/// The number of leading cells left once trailing cells that are spaces with
/// default attributes are dropped.
pub open spec fn ansi_content_len(row: Seq<Cell>) -> nat
    decreases row.len(),
{
    if row.len() == 0 {
        0
    } else if row.last().ch == ' ' && row.last().attr == default_attr() {
        ansi_content_len(row.drop_last())
    } else {
        row.len()
    }
}

/// As [`text_step`], with rows rendered by [`row_ansi`].
pub open spec fn ansi_step(acc: (Seq<char>, nat), row: Seq<Cell>) -> (Seq<char>, nat) {
    let n = ansi_content_len(row);
    if n == 0 {
        (acc.0, acc.1 + 1)
    } else {
        let r1 = acc.0 + newlines(acc.1);
        let r2 = if r1.len() > 0 {
            r1.push('\n')
        } else {
            r1
        };
        (r2 + row_ansi(row.take(n as int)), 0)
    }
}

/// [`ansi_step`] over the first `k` rows.
pub open spec fn ansi_upto(g: Seq<Seq<Cell>>, k: int) -> (Seq<char>, nat)
    decreases k,
{
    if k <= 0 {
        (Seq::<char>::empty(), 0)
    } else {
        ansi_step(ansi_upto(g, k - 1), g[k - 1])
    }
}

/// The grid rendered with SGR sequences, rows joined by line feeds, trailing
/// blank rows dropped.
pub open spec fn screen_ansi(g: Seq<Seq<Cell>>) -> Seq<char> {
    ansi_upto(g, g.len() as int).0
}


/// Appends the characters of the first `n` cells of a row.
fn push_row_chars(s: &mut String, row: &Vec<Cell>, n: usize)
    requires
        n <= row@.len(),
    ensures
        final(s)@ == old(s)@ + row_chars(row@.take(n as int)),
{
    let mut i: usize = 0;
    while i < n
        invariant
            i <= n <= row@.len(),
            s@ == old(s)@ + row_chars(row@.take(i as int)),
        decreases n - i,
    {
        string_push(s, row[i].ch);
        assert(row_chars(row@.take(i + 1)) =~= row_chars(row@.take(i as int)).push(row@[i as int].ch));
        assert(s@ =~= old(s)@ + row_chars(row@.take(i + 1)));
        i = i + 1;
    }
}

/// The text of one row, without trailing whitespace.
pub fn row_text(row: &Vec<Cell>) -> (s: String)
    ensures
        s@ == line_text_spec(row@),
{
    let mut n: usize = row.len();
    assert(row@.take(row@.len() as int) =~= row@);
    while n > 0
        invariant
            n <= row@.len(),
            trim_end_ws(row_chars(row@)) == trim_end_ws(row_chars(row@.take(n as int))),
        ensures
            n <= row@.len(),
            trim_end_ws(row_chars(row@)) == trim_end_ws(row_chars(row@.take(n as int))),
            n == 0 || !is_white_space(row@[n - 1].ch),
        decreases n,
    {
        if !is_white_space_char(row[n - 1].ch) {
            break;
        }
        proof {
            let t = row_chars(row@.take(n as int));
            assert(t.drop_last() =~= row_chars(row@.take(n - 1)));
            assert(t.last() == row@[n - 1].ch);
        }
        n = n - 1;
    }
    proof {
        assert(row@.take(row@.len() as int) =~= row@);
        let t = row_chars(row@.take(n as int));
        if n > 0 {
            assert(t.last() == row@[n - 1].ch);
        }
        assert(trim_end_ws(t) == t);
    }
    let mut s = String::new();
    push_row_chars(&mut s, row, n);
    assert(s@ =~= row_chars(row@.take(n as int)));
    s
}

/// The number of leading cells of a row left once trailing spaces are dropped.
fn content_len_vec(row: &Vec<Cell>) -> (n: usize)
    ensures
        n == content_len(row@),
        n <= row@.len(),
{
    let mut n: usize = row.len();
    assert(row@.take(row@.len() as int) =~= row@);
    while n > 0
        invariant
            n <= row@.len(),
            content_len(row@) == content_len(row@.take(n as int)),
        ensures
            n <= row@.len(),
            content_len(row@) == content_len(row@.take(n as int)),
            n == 0 || row@[n - 1].ch != ' ',
        decreases n,
    {
        if row[n - 1].ch != ' ' {
            break;
        }
        proof {
            let t = row@.take(n as int);
            assert(t.drop_last() =~= row@.take(n - 1));
        }
        n = n - 1;
    }
    proof {
        assert(row@.take(row@.len() as int) =~= row@);
        let t = row@.take(n as int);
        if n > 0 {
            assert(t.last() == row@[n - 1]);
        }
    }
    n
}

/// Appends `n` line feeds.
fn push_newlines(s: &mut String, n: usize)
    ensures
        final(s)@ == old(s)@ + newlines(n as nat),
{
    let mut k: usize = 0;
    while k < n
        invariant
            k <= n,
            s@ == old(s)@ + newlines(k as nat),
        decreases n - k,
    {
        string_push(s, '\n');
        assert(s@ =~= old(s)@ + newlines((k + 1) as nat));
        k = k + 1;
    }
}

/// All visible text of a grid (see [`screen_text`]).
pub fn grid_text(cells: &Vec<Vec<Cell>>) -> (s: String)
    ensures
        s@ == screen_text(grid_of(cells@)),
{
    let ghost g = grid_of(cells@);
    let mut result = String::new();
    let mut nonempty = false;
    let mut trailing: usize = 0;
    let mut r: usize = 0;
    while r < cells.len()
        invariant
            r <= cells@.len(),
            g == grid_of(cells@),
            trailing <= r,
            text_upto(g, r as int).0 == result@,
            text_upto(g, r as int).1 == trailing,
            nonempty == (result@.len() > 0),
        decreases cells@.len() - r,
    {
        let row = &cells[r];
        assert(g[r as int] == row@);
        let n = content_len_vec(row);
        if n == 0 {
            trailing = trailing + 1;
        } else {
            let ghost before = result@;
            push_newlines(&mut result, trailing);
            if trailing > 0 {
                nonempty = true;
            }
            trailing = 0;
            if nonempty {
                string_push(&mut result, '\n');
            }
            push_row_chars(&mut result, row, n);
            nonempty = true;
            proof {
                let r1 = before + newlines(text_upto(g, r as int).1);
                assert(r1.len() > 0 <==> (before.len() > 0 || text_upto(g, r as int).1 > 0));
            }
        }
        r = r + 1;
    }
    result
}

/// Appends `;` and a flag's code when the flag is set.
fn push_flag(s: &mut String, on: bool, code: char)
    ensures
        final(s)@ == old(s)@ + flag_part(on, code),
{
    if on {
        string_push(s, ';');
        string_push(s, code);
        assert(s@ =~= old(s)@ + flag_part(on, code));
    } else {
        assert(s@ =~= old(s)@ + flag_part(on, code));
    }
}

/// Appends the SGR parameters of a color (see [`color_part`]).
fn push_color(s: &mut String, c: Color, base: u64, bright: u64, ext: u64)
    requires
        base <= 100,
        bright <= 100,
        bright >= 8,
        ext <= 100,
    ensures
        final(s)@ == old(s)@ + color_part(c, base as nat, bright as nat, ext as nat),
{
    match c {
        Color::Default => {
            assert(s@ =~= old(s)@ + color_part(c, base as nat, bright as nat, ext as nat));
        },
        Color::Index(n) => {
            string_push(s, ';');
            if n < 8 {
                push_decimal(s, base + n as u64);
            } else if n < 16 {
                push_decimal(s, bright + n as u64 - 8);
            } else {
                push_decimal(s, ext);
                string_push(s, ';');
                string_push(s, '5');
                string_push(s, ';');
                push_decimal(s, n as u64);
            }
            assert(s@ =~= old(s)@ + color_part(c, base as nat, bright as nat, ext as nat));
        },
        Color::Rgb(r, g, b) => {
            string_push(s, ';');
            push_decimal(s, ext);
            string_push(s, ';');
            string_push(s, '2');
            string_push(s, ';');
            push_decimal(s, r as u64);
            string_push(s, ';');
            push_decimal(s, g as u64);
            string_push(s, ';');
            push_decimal(s, b as u64);
            assert(s@ =~= old(s)@ + color_part(c, base as nat, bright as nat, ext as nat));
        },
    }
}

/// Build an SGR escape sequence that sets the given attributes from a
/// reset state.  E.g. bold + red foreground → `\x1b[0;1;31m`.
pub fn sgr_sequence(attr: &CellAttr) -> (s: String)
    ensures
        s@ == sgr_spec(*attr),
{
    let mut s = String::new();
    string_push(&mut s, '\x1b');
    string_push(&mut s, '[');
    string_push(&mut s, '0');
    if *attr == CellAttr::default() {
        string_push(&mut s, 'm');
        assert(s@ =~= sgr_reset());
        return s;
    }
    let ghost start = s@;
    push_flag(&mut s, attr.bold, '1');
    push_flag(&mut s, attr.dim, '2');
    push_flag(&mut s, attr.italic, '3');
    push_flag(&mut s, attr.underline, '4');
    push_flag(&mut s, attr.inverse, '7');
    push_color(&mut s, attr.fg, 30, 90, 38);
    push_color(&mut s, attr.bg, 40, 100, 48);
    string_push(&mut s, 'm');
    assert(s@ =~= sgr_spec(*attr));
    s
}

/// The number of leading cells of a row left once trailing default-attribute spaces
/// are dropped.
fn ansi_content_len_vec(row: &Vec<Cell>) -> (n: usize)
    ensures
        n == ansi_content_len(row@),
        n <= row@.len(),
{
    let mut n: usize = row.len();
    assert(row@.take(row@.len() as int) =~= row@);
    while n > 0
        invariant
            n <= row@.len(),
            ansi_content_len(row@) == ansi_content_len(row@.take(n as int)),
        ensures
            n <= row@.len(),
            ansi_content_len(row@) == ansi_content_len(row@.take(n as int)),
            n == 0 || !(row@[n - 1].ch == ' ' && row@[n - 1].attr == default_attr()),
        decreases n,
    {
        if !(row[n - 1].ch == ' ' && row[n - 1].attr == CellAttr::default()) {
            break;
        }
        proof {
            let t = row@.take(n as int);
            assert(t.drop_last() =~= row@.take(n - 1));
        }
        n = n - 1;
    }
    proof {
        let t = row@.take(n as int);
        if n > 0 {
            assert(t.last() == row@[n - 1]);
        }
    }
    n
}

/// Appends the first `n` cells of a row rendered with SGR sequences (see [`row_ansi`]).
fn push_row_ansi(s: &mut String, row: &Vec<Cell>, n: usize)
    requires
        n <= row@.len(),
    ensures
        final(s)@ == old(s)@ + row_ansi(row@.take(n as int)),
{
    let mut cur = CellAttr::default();
    let mut i: usize = 0;
    assert(s@ =~= old(s)@ + ansi_cells(row@.take(0)).0);
    while i < n
        invariant
            i <= n <= row@.len(),
            s@ == old(s)@ + ansi_cells(row@.take(i as int)).0,
            cur == ansi_cells(row@.take(i as int)).1,
        decreases n - i,
    {
        let ghost before = s@;
        let c = row[i];
        proof {
            let t = row@.take(i + 1);
            assert(t.drop_last() =~= row@.take(i as int));
            assert(t.last() == c);
        }
        if c.attr != cur {
            let seq_str = sgr_sequence(&c.attr);
            string_push_str(s, seq_str.as_str());
            string_push(s, c.ch);
            cur = c.attr;
            assert(s@ =~= old(s)@ + ansi_cells(row@.take(i + 1)).0);
        } else {
            string_push(s, c.ch);
            assert(s@ =~= old(s)@ + ansi_cells(row@.take(i + 1)).0);
        }
        i = i + 1;
    }
    if cur != CellAttr::default() {
        string_push(s, '\x1b');
        string_push(s, '[');
        string_push(s, '0');
        string_push(s, 'm');
        assert(s@ =~= old(s)@ + row_ansi(row@.take(n as int)));
    } else {
        assert(s@ =~= old(s)@ + row_ansi(row@.take(n as int)));
    }
}

/// The grid rendered with SGR sequences (see [`screen_ansi`]).
pub fn grid_ansi(cells: &Vec<Vec<Cell>>) -> (s: String)
    ensures
        s@ == screen_ansi(grid_of(cells@)),
{
    let ghost g = grid_of(cells@);
    let mut result = String::new();
    let mut nonempty = false;
    let mut trailing: usize = 0;
    let mut r: usize = 0;
    while r < cells.len()
        invariant
            r <= cells@.len(),
            g == grid_of(cells@),
            trailing <= r,
            ansi_upto(g, r as int).0 == result@,
            ansi_upto(g, r as int).1 == trailing,
            nonempty == (result@.len() > 0),
        decreases cells@.len() - r,
    {
        let row = &cells[r];
        assert(g[r as int] == row@);
        let n = ansi_content_len_vec(row);
        if n == 0 {
            trailing = trailing + 1;
        } else {
            let ghost before = result@;
            push_newlines(&mut result, trailing);
            if trailing > 0 {
                nonempty = true;
            }
            trailing = 0;
            if nonempty {
                string_push(&mut result, '\n');
            }
            let ghost mid = result@;
            push_row_ansi(&mut result, row, n);
            proof {
                let r1 = before + newlines(ansi_upto(g, r as int).1);
                assert(r1.len() > 0 <==> (before.len() > 0 || ansi_upto(g, r as int).1 > 0));
            }
            proof {
                lemma_ansi_cells_len(row@.take(n as int));
            }
            nonempty = true;
        }
        r = r + 1;
    }
    result
}

/// Rendering keeps every character of the cells.
proof fn lemma_ansi_cells_len(cells: Seq<Cell>)
    ensures
        ansi_cells(cells).0.len() >= cells.len(),
        row_ansi(cells).len() >= cells.len(),
    decreases cells.len(),
{
    if cells.len() > 0 {
        lemma_ansi_cells_len(cells.drop_last());
    }
}
} // verus!
