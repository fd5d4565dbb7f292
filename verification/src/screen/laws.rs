//! Properties of the screen that hold across operations.
use vstd::prelude::*;
use super::{Action, Cell, CellAttr, Color};
use crate::text::{decimal, digit_char};
use super::model::{
    blank_cell, csi, dec_mode, dec_modes, default_attr, drained, committed_taken, enter_alt, exit_alt,
    model_wf, perform, perform_all, print, resize, resize_grid, sgr_from, sgr_simple, transcript_of, with_color,
    ScreenModel,
};
use super::render::{
    color_part, flag_part, sgr_spec, ansi_cells, ansi_content_len, ansi_upto, content_len, row_ansi, row_chars, screen_ansi, screen_text,
    text_upto,
};

verus! {

/// Leaving the alternate screen from a state with the alternate screen shown never
/// keeps it shown when the reset applies to an alternate-screen mode.
proof fn lemma_dec_modes_stay_primary(u: ScreenModel, ps: Seq<u16>, i: int)
    requires
        !u.alt_active,
    ensures
        !dec_modes(u, ps, i, false).alt_active,
    decreases ps.len() - i,
{
    if 0 <= i < ps.len() {
        lemma_dec_modes_stay_primary(dec_mode(u, ps[i], false), ps, i + 1);
    }
}

/// While the alternate screen stays shown, DEC mode changes keep the primary screen
/// kept aside.
proof fn lemma_dec_modes_keep_saved(t: ScreenModel, ps: Seq<u16>, i: int, set: bool)
    requires
        t.alt_active,
        dec_modes(t, ps, i, set).alt_active,
    ensures
        dec_modes(t, ps, i, set).alt_saved == t.alt_saved,
    decreases ps.len() - i,
{
    if 0 <= i < ps.len() {
        let u = dec_mode(t, ps[i], set);
        if u.alt_active {
            lemma_dec_modes_keep_saved(u, ps, i + 1, set);
        } else {
            assert(!set);
            lemma_dec_modes_stay_primary(u, ps, i + 1);
        }
    }
}

/// While the alternate screen stays shown, no parser action changes the primary
/// screen kept aside.
pub proof fn lemma_perform_keeps_saved(t: ScreenModel, a: Action)
    requires
        t.alt_active,
        perform(t, a).alt_active,
    ensures
        perform(t, a).alt_saved == t.alt_saved,
{
    match a {
        Action::Csi { params, intermediates, action } => {
            if intermediates@ == seq![0x3Fu8] && (action == 'h' || action == 'l') {
                lemma_dec_modes_keep_saved(t, params@, 0, action == 'h');
            }
        },
        _ => {},
    }
}

/// The same over a sequence of actions every prefix of which leaves the alternate
/// screen shown.
proof fn lemma_perform_all_keeps_saved(t: ScreenModel, acts: Seq<Action>)
    requires
        t.alt_active,
        forall|k: int| 0 <= k <= acts.len() ==> (#[trigger] perform_all(t, acts.take(k))).alt_active,
    ensures
        perform_all(t, acts).alt_saved == t.alt_saved,
    decreases acts.len(),
{
    assert(acts.take(acts.len() as int) =~= acts);
    if acts.len() > 0 {
        let init = acts.drop_last();
        assert forall|k: int| 0 <= k <= init.len() implies (#[trigger] perform_all(t, init.take(k))).alt_active by {
            assert(init.take(k) =~= acts.take(k));
        }
        lemma_perform_all_keeps_saved(t, init);
        assert(acts.take(init.len() as int) =~= init);
        assert(perform_all(t, init).alt_active);
        lemma_perform_keeps_saved(perform_all(t, init), acts.last());
    }
}

/// `CSI ? 1049 h` (show the alternate screen) or `CSI ? 1049 l` (leave it).
pub open spec fn alt_screen_switch(s: ScreenModel, show: bool) -> ScreenModel {
    csi(s, seq![1049u16], seq![0x3Fu8], if show { 'h' } else { 'l' })
}

/// Showing the alternate screen with `CSI ? 1049 h`, doing anything there, and
/// leaving it with `CSI ? 1049 l` gives back the primary screen as it was: its cells,
/// cursor, attributes and scroll region.
#[verifier::spinoff_prover]
pub proof fn lemma_alt_screen_round_trip(s: ScreenModel, acts: Seq<Action>)
    requires
        !s.alt_active,
        forall|k: int|
            0 <= k <= acts.len() ==> (#[trigger] perform_all(alt_screen_switch(s, true), acts.take(k))).alt_active,
    ensures
        ({
            let t = alt_screen_switch(perform_all(alt_screen_switch(s, true), acts), false);
            &&& t.grid == s.grid
            &&& t.cursor_x == s.cursor_x
            &&& t.cursor_y == s.cursor_y
            &&& t.attr == s.attr
            &&& t.scroll_top == s.scroll_top
            &&& t.scroll_bottom == s.scroll_bottom
            &&& !t.alt_active
        }),
{
    let e = alt_screen_switch(s, true);
    assert(e == enter_alt(s, true)) by {
        assert(dec_modes(s, seq![1049u16], 0, true) == dec_modes(dec_mode(s, 1049, true), seq![1049u16], 1, true));
    }
    lemma_perform_all_keeps_saved(e, acts);
    let u = perform_all(e, acts);
    assert(acts.take(acts.len() as int) =~= acts);
    assert(u.alt_active);
    assert(alt_screen_switch(u, false) == exit_alt(u, true)) by {
        assert(dec_modes(u, seq![1049u16], 0, false) == dec_modes(dec_mode(u, 1049, false), seq![1049u16], 1, false));
    }
}

/// A resize keeps every cell inside both sizes and blanks the rest; a primary
/// screen kept aside is resized the same way, so leaving the alternate screen after
/// a resize shows the primary cells resized.
pub proof fn lemma_resize_keeps_shared(s: ScreenModel, cols: u16, rows: u16)
    requires
        model_wf(s),
        cols >= 1,
        rows >= 1,
    ensures
        model_wf(resize(s, cols, rows)),
        forall|r: int, c: int|
            0 <= r < rows && 0 <= c < cols ==> (#[trigger] resize(s, cols, rows).grid[r][c]) == if r < s.rows && c
                < s.cols {
                s.grid[r][c]
            } else {
                blank_cell()
            },
        s.alt_saved matches Some(sv) ==> exit_alt(resize(s, cols, rows), true).grid == resize_grid(
            sv.grid,
            cols as nat,
            rows as nat,
        ),
{
}

/// A drained screen has an empty transcript, and draining it again changes nothing.
pub proof fn lemma_drain_empties(s: ScreenModel)
    ensures
        transcript_of(drained(s)) == Seq::<u8>::empty(),
        drained(drained(s)) == drained(s),
{
    assert(vstd::utf8::encode_utf8(Seq::<char>::empty()) =~= Seq::<u8>::empty());
}

/// Taking the committed lines splits the transcript: they are its beginning, and
/// what remains is the rest.
pub proof fn lemma_committed_split(s: ScreenModel)
    ensures
        s.log + transcript_of(committed_taken(s)) == transcript_of(s),
{
    assert(s.log + (Seq::<u8>::empty() + vstd::utf8::encode_utf8(s.line)) =~= s.log + vstd::utf8::encode_utf8(
        s.line,
    ));
}

/// While the transcript is suppressed, no parser action records anything: the
/// committed lines and the line being typed stay as they are, and it stays
/// suppressed.
pub proof fn lemma_suppressed_perform(s: ScreenModel, a: Action)
    requires
        s.suppressed,
    ensures
        perform(s, a).suppressed,
        perform(s, a).log == s.log,
        perform(s, a).line == s.line,
{
    match a {
        Action::Csi { params, intermediates, action } => {
            if intermediates@ == seq![0x3Fu8] && (action == 'h' || action == 'l') {
                lemma_suppressed_dec_modes(s, params@, 0, action == 'h');
            }
        },
        _ => {},
    }
}

proof fn lemma_suppressed_dec_modes(s: ScreenModel, ps: Seq<u16>, i: int, set: bool)
    requires
        s.suppressed,
    ensures
        dec_modes(s, ps, i, set).suppressed,
        dec_modes(s, ps, i, set).log == s.log,
        dec_modes(s, ps, i, set).line == s.line,
    decreases ps.len() - i,
{
    if 0 <= i < ps.len() {
        lemma_suppressed_dec_modes(dec_mode(s, ps[i], set), ps, i + 1, set);
    }
}

/// Screen output that arrives while the transcript is suppressed (after the alternate
/// screen was left or the line was cancelled, until the next user input) is never
/// recorded.
pub proof fn lemma_suppressed_not_recorded(s: ScreenModel, acts: Seq<Action>)
    requires
        s.suppressed,
    ensures
        perform_all(s, acts).suppressed,
        perform_all(s, acts).log == s.log,
        perform_all(s, acts).line == s.line,
    decreases acts.len(),
{
    if acts.len() > 0 {
        lemma_suppressed_not_recorded(s, acts.drop_last());
        lemma_suppressed_perform(perform_all(s, acts.drop_last()), acts.last());
    }
}

/// Applying actions in two batches is applying them all at once.
pub proof fn lemma_perform_all_concat(s: ScreenModel, a: Seq<Action>, b: Seq<Action>)
    ensures
        perform_all(perform_all(s, a), b) == perform_all(s, a + b),
    decreases b.len(),
{
    if b.len() == 0 {
        assert(a + b =~= a);
    } else {
        lemma_perform_all_concat(s, a, b.drop_last());
        assert((a + b).drop_last() =~= a + b.drop_last());
        assert((a + b).last() == b.last());
    }
}

/// Every cell of a row prefix has the default attributes.
pub open spec fn plain_row(row: Seq<Cell>) -> bool {
    forall|c: int| 0 <= c < row.len() ==> (#[trigger] row[c]).attr == default_attr()
}

proof fn lemma_plain_row_ansi(row: Seq<Cell>)
    requires
        plain_row(row),
    ensures
        ansi_cells(row) == (row_chars(row), default_attr()),
        row_ansi(row) == row_chars(row),
        ansi_content_len(row) == content_len(row),
    decreases row.len(),
{
    if row.len() > 0 {
        let init = row.drop_last();
        assert(plain_row(init)) by {
            assert forall|c: int| 0 <= c < init.len() implies (#[trigger] init[c]).attr == default_attr() by {
                assert(init[c] == row[c]);
            }
        }
        lemma_plain_row_ansi(init);
        assert(row.last() == row[row.len() - 1]);
        assert(row_chars(row) =~= row_chars(init).push(row.last().ch));
    }
}

proof fn lemma_content_len_bound(row: Seq<Cell>)
    ensures
        content_len(row) <= row.len(),
    decreases row.len(),
{
    if row.len() > 0 {
        lemma_content_len_bound(row.drop_last());
    }
}

/// Without attributes, the rendering with SGR sequences is the plain text.
pub proof fn lemma_plain_render(g: Seq<Seq<Cell>>)
    requires
        forall|r: int| 0 <= r < g.len() ==> plain_row(#[trigger] g[r]),
    ensures
        screen_ansi(g) == screen_text(g),
{
    lemma_plain_upto(g, g.len() as int);
}

proof fn lemma_plain_upto(g: Seq<Seq<Cell>>, k: int)
    requires
        forall|r: int| 0 <= r < g.len() ==> plain_row(#[trigger] g[r]),
        k <= g.len(),
    ensures
        ansi_upto(g, k) == text_upto(g, k),
    decreases k,
{
    if k > 0 {
        lemma_plain_upto(g, k - 1);
        let row = g[k - 1];
        lemma_plain_row_ansi(row);
        let n = content_len(row);
        lemma_content_len_bound(row);
        let t = row.take(n as int);
        assert(plain_row(t)) by {
            assert forall|c: int| 0 <= c < t.len() implies (#[trigger] t[c]).attr == default_attr() by {
                assert(t[c] == row[c]);
            }
        }
        lemma_plain_row_ansi(t);
    }
}


/// The SGR parameter of a flag when it is set.
pub open spec fn flag_params(on: bool, code: u16) -> Seq<u16> {
    if on {
        seq![code]
    } else {
        Seq::<u16>::empty()
    }
}

/// The SGR parameters that set a color, as the rendering writes them.
pub open spec fn color_params(c: Color, base: u16, bright: u16, ext: u16) -> Seq<u16> {
    match c {
        Color::Default => Seq::<u16>::empty(),
        Color::Index(n) => if n < 8 {
            seq![(base + n) as u16]
        } else if n < 16 {
            seq![(bright + n - 8) as u16]
        } else {
            seq![ext, 5u16, n as u16]
        },
        Color::Rgb(r, g, b) => seq![ext, 2u16, r as u16, g as u16, b as u16],
    }
}

/// The SGR parameters the rendering writes for a set of attributes: a reset, the
/// flags that are set, then the colors that are not the default.
pub open spec fn sgr_params(a: CellAttr) -> Seq<u16> {
    seq![0u16] + flag_params(a.bold, 1) + flag_params(a.dim, 2) + flag_params(a.italic, 3) + flag_params(
        a.underline,
        4,
    ) + flag_params(a.inverse, 7) + color_params(a.fg, 30, 90, 38) + color_params(a.bg, 40, 100, 48)
}

proof fn lemma_flag_step(a: CellAttr, ps: Seq<u16>, k: int, on: bool, code: u16)
    requires
        0 <= k,
        on ==> k < ps.len() && ps[k] == code,
        code == 1 || code == 2 || code == 3 || code == 4 || code == 7,
    ensures
        sgr_from(a, ps, k) == sgr_from(
            if on {
                sgr_simple(a, code)
            } else {
                a
            },
            ps,
            k + flag_params(on, code).len(),
        ),
{
}

proof fn lemma_color_step(a: CellAttr, ps: Seq<u16>, k: int, c: Color, fg: bool)
    requires
        0 <= k,
        k + color_params(c, if fg { 30 } else { 40 }, if fg { 90 } else { 100 }, if fg { 38 } else { 48 }).len() <= ps.len(),
        ps.subrange(k, k + color_params(c, if fg { 30 } else { 40 }, if fg { 90 } else { 100 }, if fg { 38 } else { 48 }).len())
            == color_params(c, if fg { 30 } else { 40 }, if fg { 90 } else { 100 }, if fg { 38 } else { 48 }),
    ensures
        sgr_from(a, ps, k) == sgr_from(
            if c is Default {
                a
            } else {
                with_color(a, fg, c)
            },
            ps,
            k + color_params(c, if fg { 30 } else { 40 }, if fg { 90 } else { 100 }, if fg { 38 } else { 48 }).len(),
        ),
{
    let cp = color_params(c, if fg { 30 } else { 40 }, if fg { 90 } else { 100 }, if fg { 38 } else { 48 });
    match c {
        Color::Default => {},
        Color::Index(n) => {
            assert(ps[k] == cp[0]);
            if n >= 16 {
                assert(ps[k + 1] == cp[1]);
                assert(ps[k + 2] == cp[2]);
            }
        },
        Color::Rgb(r, g, b) => {
            assert(ps[k] == cp[0]);
            assert(ps[k + 1] == cp[1]);
            assert(ps[k + 2] == cp[2]);
            assert(ps[k + 3] == cp[3]);
            assert(ps[k + 4] == cp[4]);
        },
    }
}

/// Where each part of the SGR parameters of some attributes stands.
proof fn lemma_params_layout(a: CellAttr)
    ensures
        ({
            let ps = sgr_params(a);
            let k1 = 1int;
            let k2 = k1 + flag_params(a.bold, 1).len();
            let k3 = k2 + flag_params(a.dim, 2).len();
            let k4 = k3 + flag_params(a.italic, 3).len();
            let k5 = k4 + flag_params(a.underline, 4).len();
            let k6 = k5 + flag_params(a.inverse, 7).len();
            let k7 = k6 + color_params(a.fg, 30, 90, 38).len();
            let k8 = k7 + color_params(a.bg, 40, 100, 48).len();
            &&& ps.len() == k8
            &&& ps[0] == 0
            &&& a.bold ==> ps[k1] == 1
            &&& a.dim ==> ps[k2] == 2
            &&& a.italic ==> ps[k3] == 3
            &&& a.underline ==> ps[k4] == 4
            &&& a.inverse ==> ps[k5] == 7
            &&& ps.subrange(k6, k7) == color_params(a.fg, 30, 90, 38)
            &&& ps.subrange(k7, k8) == color_params(a.bg, 40, 100, 48)
        }),
{
    let ps = sgr_params(a);
    let k1 = 1int;
    let k2 = k1 + flag_params(a.bold, 1).len();
    let k3 = k2 + flag_params(a.dim, 2).len();
    let k4 = k3 + flag_params(a.italic, 3).len();
    let k5 = k4 + flag_params(a.underline, 4).len();
    let k6 = k5 + flag_params(a.inverse, 7).len();
    let k7 = k6 + color_params(a.fg, 30, 90, 38).len();
    let k8 = k7 + color_params(a.bg, 40, 100, 48).len();
    assert(ps.subrange(k6, k7) =~= color_params(a.fg, 30, 90, 38));
    assert(ps.subrange(k7, k8) =~= color_params(a.bg, 40, 100, 48));
}

/// The attributes once the reset and the flags of `a` are read.
spec fn flags_only(a: CellAttr) -> CellAttr {
    CellAttr { fg: Color::Default, bg: Color::Default, ..a }
}

#[verifier::spinoff_prover]
proof fn lemma_read_flags(x: CellAttr, a: CellAttr)
    ensures
        ({
            let ps = sgr_params(a);
            let k6 = 1int + flag_params(a.bold, 1).len() + flag_params(a.dim, 2).len() + flag_params(a.italic, 3).len()
                + flag_params(a.underline, 4).len() + flag_params(a.inverse, 7).len();
            sgr_from(x, ps, 0) == sgr_from(flags_only(a), ps, k6)
        }),
{
    lemma_params_layout(a);
    let ps = sgr_params(a);
    let k1 = 1int;
    let k2 = k1 + flag_params(a.bold, 1).len();
    let k3 = k2 + flag_params(a.dim, 2).len();
    let k4 = k3 + flag_params(a.italic, 3).len();
    let k5 = k4 + flag_params(a.underline, 4).len();
    let k6 = k5 + flag_params(a.inverse, 7).len();
    let a0 = default_attr();
    assert(sgr_from(x, ps, 0) == sgr_from(a0, ps, 1));
    lemma_flag_step(a0, ps, k1, a.bold, 1);
    let a1 = CellAttr { bold: a.bold, ..a0 };
    lemma_flag_step(a1, ps, k2, a.dim, 2);
    let a2 = CellAttr { dim: a.dim, ..a1 };
    lemma_flag_step(a2, ps, k3, a.italic, 3);
    let a3 = CellAttr { italic: a.italic, ..a2 };
    lemma_flag_step(a3, ps, k4, a.underline, 4);
    let a4 = CellAttr { underline: a.underline, ..a3 };
    lemma_flag_step(a4, ps, k5, a.inverse, 7);
    let a5 = CellAttr { inverse: a.inverse, ..a4 };
    assert(a5 == flags_only(a));
}

/// Reading back the SGR parameters the rendering writes for some attributes gives
/// those attributes, whatever attributes were in force before.
#[verifier::spinoff_prover]
pub proof fn lemma_sgr_params_read_back(x: CellAttr, a: CellAttr)
    ensures
        sgr_from(x, sgr_params(a), 0) == a,
{
    lemma_params_layout(a);
    lemma_read_flags(x, a);
    let ps = sgr_params(a);
    let k6 = 1int + flag_params(a.bold, 1).len() + flag_params(a.dim, 2).len() + flag_params(a.italic, 3).len()
        + flag_params(a.underline, 4).len() + flag_params(a.inverse, 7).len();
    let k7 = k6 + color_params(a.fg, 30, 90, 38).len();
    let k8 = k7 + color_params(a.bg, 40, 100, 48).len();
    let a5 = flags_only(a);
    lemma_color_step(a5, ps, k6, a.fg, true);
    let a6 = CellAttr { fg: a.fg, ..a5 };
    lemma_color_step(a6, ps, k7, a.bg, false);
    assert(sgr_from(a, ps, k8) == a);
}


/// Parameters after the first, each written as `;` and its decimal value.
pub open spec fn params_tail(ps: Seq<u16>) -> Seq<char>
    decreases ps.len(),
{
    if ps.len() == 0 {
        Seq::<char>::empty()
    } else {
        params_tail(ps.drop_last()) + seq![';'] + decimal(ps.last() as nat)
    }
}

/// SGR parameters as written in a sequence: decimal values separated by `;`.
pub open spec fn params_text(ps: Seq<u16>) -> Seq<char> {
    if ps.len() == 0 {
        Seq::<char>::empty()
    } else {
        decimal(ps[0] as nat) + params_tail(ps.drop_first())
    }
}

proof fn lemma_params_tail_concat(p: Seq<u16>, q: Seq<u16>)
    ensures
        params_tail(p + q) == params_tail(p) + params_tail(q),
    decreases q.len(),
{
    if q.len() == 0 {
        assert(p + q =~= p);
        assert(params_tail(p) + Seq::<char>::empty() =~= params_tail(p));
    } else {
        lemma_params_tail_concat(p, q.drop_last());
        assert((p + q).drop_last() =~= p + q.drop_last());
        assert((p + q).last() == q.last());
        assert(params_tail(p) + params_tail(q.drop_last()) + seq![';'] + decimal(q.last() as nat) =~= params_tail(p)
            + (params_tail(q.drop_last()) + seq![';'] + decimal(q.last() as nat)));
    }
}

proof fn lemma_single_digit(d: nat)
    requires
        d < 10,
    ensures
        decimal(d) == seq![digit_char(d)],
{
}

proof fn lemma_one_param(v: u16)
    ensures
        params_tail(seq![v]) == seq![';'] + decimal(v as nat),
{
    assert(seq![v].drop_last() =~= Seq::<u16>::empty());
    assert(seq![v].last() == v);
    assert(params_tail(Seq::<u16>::empty()) == Seq::<char>::empty());
    assert(Seq::<char>::empty() + seq![';'] + decimal(v as nat) =~= seq![';'] + decimal(v as nat));
}

proof fn lemma_flag_text(on: bool, code: u16, c: char)
    requires
        code < 10,
        digit_char(code as nat) == c,
    ensures
        flag_part(on, c) == params_tail(flag_params(on, code)),
{
    if on {
        lemma_one_param(code);
        lemma_single_digit(code as nat);
        assert(seq![';'] + seq![c] =~= seq![';', c]);
    } else {
        assert(params_tail(Seq::<u16>::empty()) == Seq::<char>::empty());
    }
}

#[verifier::spinoff_prover]
proof fn lemma_color_text(c: Color, base: u16, bright: u16, ext: u16)
    requires
        base <= 100,
        8 <= bright <= 100,
        ext <= 100,
    ensures
        color_part(c, base as nat, bright as nat, ext as nat) == params_tail(color_params(c, base, bright, ext)),
{
    match c {
        Color::Default => {},
        Color::Index(n) => {
            if n < 16 {
                let v: u16 = if n < 8 { (base + n) as u16 } else { (bright + n - 8) as u16 };
                lemma_one_param(v);
                assert(color_params(c, base, bright, ext) == seq![v]);
            } else {
                let ps = seq![ext, 5u16, n as u16];
                lemma_params_tail_concat(seq![ext, 5u16], seq![n as u16]);
                lemma_params_tail_concat(seq![ext], seq![5u16]);
                assert(seq![ext] + seq![5u16] =~= seq![ext, 5u16]);
                assert(seq![ext, 5u16] + seq![n as u16] =~= ps);
                lemma_one_param(ext);
                lemma_one_param(5u16);
                lemma_one_param(n as u16);
                lemma_single_digit(5);
                assert(digit_char(5) == '5');
                assert(params_tail(ps) =~= seq![';'] + decimal(ext as nat) + seq![';', '5', ';'] + decimal(n as nat));
            }
        },
        Color::Rgb(r, g, b) => {
            let ps = seq![ext, 2u16, r as u16, g as u16, b as u16];
            lemma_params_tail_concat(seq![ext, 2u16, r as u16, g as u16], seq![b as u16]);
            lemma_params_tail_concat(seq![ext, 2u16, r as u16], seq![g as u16]);
            lemma_params_tail_concat(seq![ext, 2u16], seq![r as u16]);
            lemma_params_tail_concat(seq![ext], seq![2u16]);
            assert(seq![ext] + seq![2u16] =~= seq![ext, 2u16]);
            assert(seq![ext, 2u16] + seq![r as u16] =~= seq![ext, 2u16, r as u16]);
            assert(seq![ext, 2u16, r as u16] + seq![g as u16] =~= seq![ext, 2u16, r as u16, g as u16]);
            assert(seq![ext, 2u16, r as u16, g as u16] + seq![b as u16] =~= ps);
            lemma_one_param(ext);
            lemma_one_param(2u16);
            lemma_one_param(r as u16);
            lemma_one_param(g as u16);
            lemma_one_param(b as u16);
            lemma_single_digit(2);
            assert(digit_char(2) == '2');
            assert(params_tail(ps) =~= seq![';'] + decimal(ext as nat) + seq![';', '2', ';'] + decimal(r as nat)
                + seq![';'] + decimal(g as nat) + seq![';'] + decimal(b as nat));
        },
    }
}

/// The flags of some attributes, written as the rendering writes them.
proof fn lemma_flags_text(a: CellAttr)
    ensures
        flag_part(a.bold, '1') + flag_part(a.dim, '2') + flag_part(a.italic, '3') + flag_part(a.underline, '4')
            + flag_part(a.inverse, '7') == params_tail(
            flag_params(a.bold, 1) + flag_params(a.dim, 2) + flag_params(a.italic, 3) + flag_params(a.underline, 4)
                + flag_params(a.inverse, 7),
        ),
{
    let f1 = flag_params(a.bold, 1);
    let f2 = flag_params(a.dim, 2);
    let f3 = flag_params(a.italic, 3);
    let f4 = flag_params(a.underline, 4);
    let f5 = flag_params(a.inverse, 7);
    lemma_params_tail_concat(f1 + f2 + f3 + f4, f5);
    lemma_params_tail_concat(f1 + f2 + f3, f4);
    lemma_params_tail_concat(f1 + f2, f3);
    lemma_params_tail_concat(f1, f2);
    assert(digit_char(1) == '1');
    assert(digit_char(2) == '2');
    assert(digit_char(3) == '3');
    assert(digit_char(4) == '4');
    assert(digit_char(7) == '7');
    lemma_flag_text(a.bold, 1, '1');
    lemma_flag_text(a.dim, 2, '2');
    lemma_flag_text(a.italic, 3, '3');
    lemma_flag_text(a.underline, 4, '4');
    lemma_flag_text(a.inverse, 7, '7');
}

/// The flags of some attributes as the rendering writes them.
spec fn flags_text(a: CellAttr) -> Seq<char> {
    flag_part(a.bold, '1') + flag_part(a.dim, '2') + flag_part(a.italic, '3') + flag_part(a.underline, '4')
        + flag_part(a.inverse, '7')
}

/// Everything after the leading reset parameter, as the rendering writes it.
#[verifier::spinoff_prover]
proof fn lemma_tail_parts(a: CellAttr)
    ensures
        params_tail(sgr_params(a).drop_first()) == flags_text(a) + color_part(a.fg, 30, 90, 38) + color_part(
            a.bg,
            40,
            100,
            48,
        ),
{
    let ps = sgr_params(a);
    let fl = flag_params(a.bold, 1) + flag_params(a.dim, 2) + flag_params(a.italic, 3) + flag_params(a.underline, 4)
        + flag_params(a.inverse, 7);
    let c1 = color_params(a.fg, 30, 90, 38);
    let c2 = color_params(a.bg, 40, 100, 48);
    assert(ps.drop_first() =~= fl + c1 + c2);
    lemma_params_tail_concat(fl + c1, c2);
    lemma_params_tail_concat(fl, c1);
    lemma_flags_text(a);
    lemma_color_text(a.fg, 30, 90, 38);
    lemma_color_text(a.bg, 40, 100, 48);
}

proof fn lemma_params_text_head(a: CellAttr)
    ensures
        params_text(sgr_params(a)) == seq!['0'] + params_tail(sgr_params(a).drop_first()),
{
    let ps = sgr_params(a);
    assert(ps[0] == 0u16);
    assert(digit_char(0) == '0');
    lemma_single_digit(0);
}

proof fn lemma_default_parts(a: CellAttr)
    requires
        a == default_attr(),
    ensures
        flags_text(a) + color_part(a.fg, 30, 90, 38) + color_part(a.bg, 40, 100, 48) == Seq::<char>::empty(),
        sgr_spec(a) == seq!['\x1b', '[', '0', 'm'],
{
    assert(flags_text(a) =~= Seq::<char>::empty());
    assert(color_part(a.fg, 30, 90, 38) =~= Seq::<char>::empty());
    assert(color_part(a.bg, 40, 100, 48) =~= Seq::<char>::empty());
    assert(flags_text(a) + color_part(a.fg, 30, 90, 38) + color_part(a.bg, 40, 100, 48) =~= Seq::<char>::empty());
}

#[verifier::spinoff_prover]
proof fn lemma_other_parts(a: CellAttr)
    requires
        a != default_attr(),
    ensures
        sgr_spec(a) == seq!['\x1b', '[', '0'] + (flags_text(a) + color_part(a.fg, 30, 90, 38) + color_part(
            a.bg,
            40,
            100,
            48,
        )) + seq!['m'],
{
    let f = flags_text(a);
    let c1 = color_part(a.fg, 30, 90, 38);
    let c2 = color_part(a.bg, 40, 100, 48);
    assert(sgr_spec(a) == seq!['\x1b', '[', '0'] + flag_part(a.bold, '1') + flag_part(a.dim, '2') + flag_part(
        a.italic,
        '3',
    ) + flag_part(a.underline, '4') + flag_part(a.inverse, '7') + c1 + c2 + seq!['m']);
    assert(seq!['\x1b', '[', '0'] + flag_part(a.bold, '1') + flag_part(a.dim, '2') + flag_part(a.italic, '3')
        + flag_part(a.underline, '4') + flag_part(a.inverse, '7') + c1 + c2 + seq!['m'] =~= seq!['\x1b', '[', '0'] + (
    f + c1 + c2) + seq!['m']);
}

/// A character printed after the SGR parameters the rendering writes for some
/// attributes is shown with exactly those attributes, whatever was in force before.
pub proof fn lemma_sgr_then_print(s: ScreenModel, a: CellAttr, ch: char)
    requires
        model_wf(s),
        s.cursor_x < s.cols,
        s.cursor_y < s.rows,
    ensures
        print(csi(s, sgr_params(a), Seq::<u8>::empty(), 'm'), ch).grid[s.cursor_y as int][s.cursor_x as int]
            == (Cell { ch, attr: a }),
{
    lemma_sgr_params_read_back(s.attr, a);
    let ps = sgr_params(a);
    assert(Seq::<u8>::empty() != seq![0x3Fu8]) by {
        assert(seq![0x3Fu8].len() == 1);
    }
    let s1 = csi(s, ps, Seq::<u8>::empty(), 'm');
    assert(s1.attr == a);
    assert(s1.grid == s.grid && s1.cursor_x == s.cursor_x && s1.cursor_y == s.cursor_y);
}

/// The SGR sequence the rendering writes for some attributes is `ESC [`, their
/// parameters (see [`sgr_params`]) separated by `;`, and `m`.
pub proof fn lemma_sgr_text(a: CellAttr)
    ensures
        sgr_spec(a) == seq!['\x1b', '['] + params_text(sgr_params(a)) + seq!['m'],
{
    let tail = params_tail(sgr_params(a).drop_first());
    lemma_tail_parts(a);
    lemma_params_text_head(a);
    let x = params_text(sgr_params(a));
    assert(x == seq!['0'] + tail);
    if a == default_attr() {
        lemma_default_parts(a);
        assert(seq!['\x1b', '['] + x + seq!['m'] =~= seq!['\x1b', '[', '0', 'm']);
    } else {
        lemma_other_parts(a);
        assert(seq!['\x1b', '['] + x + seq!['m'] =~= seq!['\x1b', '[', '0'] + tail + seq!['m']);
    }
}


/// The committed lines are empty or end with a line feed.
pub open spec fn log_complete(log: Seq<u8>) -> bool {
    log.len() == 0 || log.last() == 0x0Au8
}

proof fn lemma_dec_modes_keep_log(s: ScreenModel, ps: Seq<u16>, i: int, set: bool)
    ensures
        dec_modes(s, ps, i, set).log == s.log,
    decreases ps.len() - i,
{
    if 0 <= i < ps.len() {
        lemma_dec_modes_keep_log(dec_mode(s, ps[i], set), ps, i + 1, set);
    }
}

/// A parser action only ever adds committed lines: the committed lines before it
/// begin the committed lines after it, and they still end with a line feed.
pub proof fn lemma_perform_log_grows(s: ScreenModel, a: Action)
    requires
        log_complete(s.log),
    ensures
        s.log.is_prefix_of(perform(s, a).log),
        log_complete(perform(s, a).log),
{
    match a {
        Action::Csi { params, intermediates, action } => {
            if intermediates@ == seq![0x3Fu8] && (action == 'h' || action == 'l') {
                lemma_dec_modes_keep_log(s, params@, 0, action == 'h');
            }
        },
        _ => {},
    }
    let t = perform(s, a);
    if t.log != s.log {
        assert(t.log.len() >= s.log.len());
        assert(t.log.take(s.log.len() as int) =~= s.log);
    }
}

/// Screen output only ever adds committed lines (until the transcript is drained):
/// every committed line stays, in order, and each ends with a line feed.
pub proof fn lemma_log_grows(s: ScreenModel, acts: Seq<Action>)
    requires
        log_complete(s.log),
    ensures
        s.log.is_prefix_of(perform_all(s, acts).log),
        log_complete(perform_all(s, acts).log),
    decreases acts.len(),
{
    if acts.len() > 0 {
        let mid = perform_all(s, acts.drop_last());
        lemma_log_grows(s, acts.drop_last());
        lemma_perform_log_grows(mid, acts.last());
        let fin = perform_all(s, acts);
        assert(fin.log.take(s.log.len() as int) =~= mid.log.take(s.log.len() as int));
    }
}
} // verus!
