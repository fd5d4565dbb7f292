//! Operations on the cell grid, each proved to have the effect its model states.
use vstd::prelude::*;
use super::Cell;
use super::model::{
    erase_display_grid, erase_line_grid, blank_grid, blank_row, delete_chars_row, erase_chars_row, erase_where, grid_shape,
    insert_chars_row, resize_grid, row_snapshot, scroll_down_grid, scroll_up_grid, snapshot_len, with_cell,
};

verus! {

/// The abstract grid held by a vector of rows.
pub open spec fn grid_of(cells: Seq<Vec<Cell>>) -> Seq<Seq<Cell>> {
    Seq::new(cells.len(), |r: int| cells[r]@)
}

/// A row of `cols` blank cells.
pub fn blank_row_vec(cols: u16) -> (v: Vec<Cell>)
    ensures
        v@ == blank_row(cols as nat),
{
    let mut v: Vec<Cell> = Vec::new();
    let mut i: u16 = 0;
    while i < cols
        invariant
            i <= cols,
            v@ == blank_row(i as nat),
        decreases cols - i,
    {
        v.push(Cell::default());
        assert(v@ =~= blank_row((i + 1) as nat));
        i = i + 1;
    }
    v
}

/// `rows` blank rows of `cols` cells.
pub fn blank_grid_vec(cols: u16, rows: u16) -> (v: Vec<Vec<Cell>>)
    ensures
        grid_of(v@) == blank_grid(cols as nat, rows as nat),
{
    let mut v: Vec<Vec<Cell>> = Vec::new();
    let mut i: u16 = 0;
    while i < rows
        invariant
            i <= rows,
            v@.len() == i,
            forall|j: int| 0 <= j < i ==> (#[trigger] v@[j])@ == blank_row(cols as nat),
        decreases rows - i,
    {
        let row = blank_row_vec(cols);
        v.push(row);
        i = i + 1;
    }
    assert(grid_of(v@) =~= blank_grid(cols as nat, rows as nat));
    v
}

/// A copy of a row.
pub fn copy_row(row: &Vec<Cell>) -> (v: Vec<Cell>)
    ensures
        v@ == row@,
{
    let mut v: Vec<Cell> = Vec::new();
    let mut i: usize = 0;
    while i < row.len()
        invariant
            i <= row@.len(),
            v@ == row@.take(i as int),
        decreases row@.len() - i,
    {
        v.push(row[i]);
        assert(v@ =~= row@.take(i + 1));
        i = i + 1;
    }
    assert(row@.take(row@.len() as int) =~= row@);
    v
}

/// Replaces one cell.
pub fn set_cell(cells: &mut Vec<Vec<Cell>>, r: usize, c: usize, cell: Cell)
    requires
        r < old(cells)@.len(),
        c < old(cells)@[r as int]@.len(),
    ensures
        final(cells)@.len() == old(cells)@.len(),
        grid_of(final(cells)@) == with_cell(grid_of(old(cells)@), r as int, c as int, cell),
{
    cells[r].set(c, cell);
    assert(grid_of(cells@) =~= with_cell(grid_of(old(cells)@), r as int, c as int, cell));
}

/// Replaces one row.
pub fn set_row(cells: &mut Vec<Vec<Cell>>, r: usize, row: Vec<Cell>)
    requires
        r < old(cells)@.len(),
    ensures
        final(cells)@.len() == old(cells)@.len(),
        grid_of(final(cells)@) == grid_of(old(cells)@).update(r as int, row@),
{
    let ghost rv = row@;
    cells.set(r, row);
    assert(grid_of(cells@) =~= grid_of(old(cells)@).update(r as int, rv));
}

/// Rows `top..=bottom` move up by `n`; blank rows open at the bottom of the region.
pub fn scroll_up_region(cells: &mut Vec<Vec<Cell>>, cols: u16, top: usize, bottom: usize, n: usize)
    requires
        bottom < old(cells)@.len(),
    ensures
        final(cells)@.len() == old(cells)@.len(),
        grid_of(final(cells)@) == scroll_up_grid(grid_of(old(cells)@), cols as nat, top as int, bottom as int, n as int),
{
    let ghost g = grid_of(cells@);
    if n == 0 || top > bottom {
        return;
    }
    let len = cells.len();
    let mut row = top;
    while row <= bottom
        invariant
            len == cells@.len(),
            top <= row <= bottom + 1,
            bottom < cells@.len(),
            n > 0,
            cells@.len() == g.len(),
            forall|r: int| 0 <= r < g.len() ==> (#[trigger] grid_of(cells@)[r]) == (if top <= r < row {
                scroll_up_grid(g, cols as nat, top as int, bottom as int, n as int)[r]
            } else {
                g[r]
            }),
        decreases bottom + 1 - row,
    {
        if n <= bottom - row {
            assert(grid_of(cells@)[row + n] == g[row + n]);
            let src = copy_row(&cells[row + n]);
            set_row(cells, row, src);
        } else {
            let blank = blank_row_vec(cols);
            set_row(cells, row, blank);
        }
        row = row + 1;
    }
    assert(grid_of(cells@) =~= scroll_up_grid(g, cols as nat, top as int, bottom as int, n as int));
}

/// Rows `top..=bottom` move down by `n`; blank rows open at the top of the region.
pub fn scroll_down_region(cells: &mut Vec<Vec<Cell>>, cols: u16, top: usize, bottom: usize, n: usize)
    requires
        bottom < old(cells)@.len(),
    ensures
        final(cells)@.len() == old(cells)@.len(),
        grid_of(final(cells)@) == scroll_down_grid(grid_of(old(cells)@), cols as nat, top as int, bottom as int, n as int),
{
    let ghost g = grid_of(cells@);
    if n == 0 || top > bottom {
        return;
    }
    let len = cells.len();
    let mut row = bottom + 1;
    while row > top
        invariant
            len == cells@.len(),
            top <= row <= bottom + 1,
            bottom < cells@.len(),
            n > 0,
            cells@.len() == g.len(),
            forall|r: int| 0 <= r < g.len() ==> (#[trigger] grid_of(cells@)[r]) == (if row <= r <= bottom {
                scroll_down_grid(g, cols as nat, top as int, bottom as int, n as int)[r]
            } else {
                g[r]
            }),
        decreases row,
    {
        row = row - 1;
        if row - top >= n {
            assert(grid_of(cells@)[row - n] == g[row - n]);
            let src = copy_row(&cells[row - n]);
            set_row(cells, row, src);
        } else {
            let blank = blank_row_vec(cols);
            set_row(cells, row, blank);
        }
    }
    assert(grid_of(cells@) =~= scroll_down_grid(g, cols as nat, top as int, bottom as int, n as int));
}

/// Erasing twice is erasing where either predicate holds.
pub proof fn lemma_erase_twice(g: Seq<Seq<Cell>>, f1: spec_fn(int, int) -> bool, f2: spec_fn(int, int) -> bool)
    ensures
        erase_where(erase_where(g, f1), f2) == erase_where(g, |r: int, c: int| f1(r, c) || f2(r, c)),
{
    let a = erase_where(erase_where(g, f1), f2);
    let b = erase_where(g, |r: int, c: int| f1(r, c) || f2(r, c));
    assert forall|r: int| 0 <= r < g.len() implies a[r] =~= b[r] by {}
    assert(a =~= b);
}

/// Predicates that agree on every cell of the grid erase the same cells.
pub proof fn lemma_erase_ext(g: Seq<Seq<Cell>>, f1: spec_fn(int, int) -> bool, f2: spec_fn(int, int) -> bool)
    requires
        forall|r: int, c: int| 0 <= r < g.len() && 0 <= c < g[r].len() ==> #[trigger] f1(r, c) == f2(r, c),
    ensures
        erase_where(g, f1) == erase_where(g, f2),
{
    let a = erase_where(g, f1);
    let b = erase_where(g, f2);
    assert forall|r: int| 0 <= r < g.len() implies a[r] =~= b[r] by {}
    assert(a =~= b);
}

/// Erasing nowhere changes nothing.
pub proof fn lemma_erase_none(g: Seq<Seq<Cell>>)
    ensures
        erase_where(g, |r: int, c: int| false) == g,
{
    let a = erase_where(g, |r: int, c: int| false);
    assert forall|r: int| 0 <= r < g.len() implies a[r] =~= g[r] by {}
    assert(a =~= g);
}

/// Blanks the cells `from..to` of row `r`.
pub fn blank_span(cells: &mut Vec<Vec<Cell>>, r: usize, from: usize, to: usize)
    requires
        r < old(cells)@.len(),
        from <= to <= old(cells)@[r as int]@.len(),
    ensures
        final(cells)@.len() == old(cells)@.len(),
        grid_of(final(cells)@) == erase_where(grid_of(old(cells)@), |rr: int, c: int| rr == r && from <= c < to),
{
    let ghost g = grid_of(cells@);
    proof {
        lemma_erase_none(g);
        lemma_erase_ext(g, |rr: int, c: int| false, |rr: int, c: int| rr == r && from <= c < from);
    }
    let mut c = from;
    while c < to
        invariant
            from <= c <= to,
            r < cells@.len(),
            cells@.len() == g.len(),
            to <= g[r as int].len(),
            cells@[r as int]@.len() == g[r as int].len(),
            grid_of(cells@) == erase_where(g, |rr: int, cc: int| rr == r && from <= cc < c),
        decreases to - c,
    {
        let ghost before = grid_of(cells@);
        set_cell(cells, r, c, Cell::default());
        proof {
            assert(grid_of(cells@)[r as int] == cells@[r as int]@);
            let f1 = |rr: int, cc: int| rr == r && from <= cc < c;
            let f2 = |rr: int, cc: int| rr == r && cc == c;
            let f3 = |rr: int, cc: int| rr == r && from <= cc < c + 1;
            assert(grid_of(cells@) =~= erase_where(before, f2)) by {
                assert forall|i: int| 0 <= i < g.len() implies grid_of(cells@)[i] =~= erase_where(before, f2)[i] by {}
            }
            lemma_erase_twice(g, f1, f2);
            lemma_erase_ext(g, |rr: int, cc: int| f1(rr, cc) || f2(rr, cc), f3);
        }
        c = c + 1;
    }
}

/// Blanks the whole rows `from..to` of a grid whose rows have `cols` cells.
pub fn blank_rows(cells: &mut Vec<Vec<Cell>>, cols: u16, from: usize, to: usize)
    requires
        from <= to <= old(cells)@.len(),
        forall|i: int| 0 <= i < old(cells)@.len() ==> (#[trigger] old(cells)@[i])@.len() == cols,
    ensures
        final(cells)@.len() == old(cells)@.len(),
        forall|i: int| 0 <= i < final(cells)@.len() ==> (#[trigger] final(cells)@[i])@.len() == cols,
        grid_of(final(cells)@) == erase_where(grid_of(old(cells)@), |rr: int, c: int| from <= rr < to),
{
    let ghost g = grid_of(cells@);
    proof {
        lemma_erase_none(g);
        lemma_erase_ext(g, |rr: int, c: int| false, |rr: int, c: int| from <= rr < from);
    }
    let mut r = from;
    while r < to
        invariant
            from <= r <= to <= cells@.len(),
            cells@.len() == g.len(),
            forall|i: int| 0 <= i < cells@.len() ==> (#[trigger] cells@[i])@.len() == cols,
            forall|i: int| 0 <= i < g.len() ==> (#[trigger] g[i]).len() == cols,
            grid_of(cells@) == erase_where(g, |rr: int, cc: int| from <= rr < r),
        decreases to - r,
    {
        let blank = blank_row_vec(cols);
        set_row(cells, r, blank);
        proof {
            let target = erase_where(g, |rr: int, cc: int| from <= rr < r + 1);
            assert forall|i: int| 0 <= i < g.len() implies grid_of(cells@)[i] =~= target[i] by {}
            assert forall|i: int| 0 <= i < cells@.len() implies (#[trigger] cells@[i])@.len() == cols by {
                assert(grid_of(cells@)[i] == cells@[i]@);
            }
            assert(grid_of(cells@) =~= target);
        }
        r = r + 1;
    }
}

/// A row with `n` cells deleted at `x` (the rest shifts left, blanks fill the end).
pub fn delete_chars_vec(row: &Vec<Cell>, x: usize, n: usize) -> (v: Vec<Cell>)
    requires
        row@.len() <= 0xFFFF,
        n <= 0xFFFF,
    ensures
        v@ == delete_chars_row(row@, x as int, n as int),
{
    let mut v: Vec<Cell> = Vec::new();
    let len = row.len();
    let mut c: usize = 0;
    while c < len
        invariant
            len == row@.len() <= 0xFFFF,
            n <= 0xFFFF,
            c <= len,
            v@ == delete_chars_row(row@, x as int, n as int).take(c as int),
        decreases len - c,
    {
        if c < x {
            v.push(row[c]);
        } else if c + n < len {
            v.push(row[c + n]);
        } else {
            v.push(Cell::default());
        }
        assert(v@ =~= delete_chars_row(row@, x as int, n as int).take(c + 1));
        c = c + 1;
    }
    assert(v@ =~= delete_chars_row(row@, x as int, n as int));
    v
}

/// A row with `n` blank cells inserted at `x` (the rest shifts right and falls off).
pub fn insert_chars_vec(row: &Vec<Cell>, x: usize, n: usize) -> (v: Vec<Cell>)
    requires
        row@.len() <= 0xFFFF,
        x <= 0xFFFF,
        n <= 0xFFFF,
    ensures
        v@ == insert_chars_row(row@, x as int, n as int),
{
    let mut v: Vec<Cell> = Vec::new();
    let len = row.len();
    let mut c: usize = 0;
    while c < len
        invariant
            len == row@.len() <= 0xFFFF,
            x <= 0xFFFF,
            n <= 0xFFFF,
            c <= len,
            v@ == insert_chars_row(row@, x as int, n as int).take(c as int),
        decreases len - c,
    {
        if c < x {
            v.push(row[c]);
        } else if c < x + n {
            v.push(Cell::default());
        } else {
            v.push(row[c - n]);
        }
        assert(v@ =~= insert_chars_row(row@, x as int, n as int).take(c + 1));
        c = c + 1;
    }
    assert(v@ =~= insert_chars_row(row@, x as int, n as int));
    v
}

/// A row with the `n` cells from `x` blanked.
pub fn erase_chars_vec(row: &Vec<Cell>, x: usize, n: usize) -> (v: Vec<Cell>)
    requires
        row@.len() <= 0xFFFF,
        x <= 0xFFFF,
        n <= 0xFFFF,
    ensures
        v@ == erase_chars_row(row@, x as int, n as int),
{
    let mut v: Vec<Cell> = Vec::new();
    let len = row.len();
    let mut c: usize = 0;
    while c < len
        invariant
            len == row@.len() <= 0xFFFF,
            x <= 0xFFFF,
            n <= 0xFFFF,
            c <= len,
            v@ == erase_chars_row(row@, x as int, n as int).take(c as int),
        decreases len - c,
    {
        if x <= c && c < x + n {
            v.push(Cell::default());
        } else {
            v.push(row[c]);
        }
        assert(v@ =~= erase_chars_row(row@, x as int, n as int).take(c + 1));
        c = c + 1;
    }
    assert(v@ =~= erase_chars_row(row@, x as int, n as int));
    v
}

/// A grid of the new size keeping the shared cells.
pub fn resize_grid_vec(cells: &Vec<Vec<Cell>>, cols: u16, rows: u16) -> (v: Vec<Vec<Cell>>)
    ensures
        grid_of(v@) == resize_grid(grid_of(cells@), cols as nat, rows as nat),
        v@.len() == rows,
        forall|i: int| 0 <= i < rows ==> (#[trigger] v@[i])@.len() == cols,
{
    let ghost g = grid_of(cells@);
    let ghost target = resize_grid(g, cols as nat, rows as nat);
    let mut v: Vec<Vec<Cell>> = Vec::new();
    let mut r: u16 = 0;
    while r < rows
        invariant
            r <= rows,
            g == grid_of(cells@),
            target == resize_grid(g, cols as nat, rows as nat),
            v@.len() == r,
            forall|i: int| 0 <= i < r ==> (#[trigger] v@[i])@ == target[i],
        decreases rows - r,
    {
        let mut row: Vec<Cell> = Vec::new();
        let mut c: u16 = 0;
        while c < cols
            invariant
                c <= cols,
                r < rows,
                g == grid_of(cells@),
                target == resize_grid(g, cols as nat, rows as nat),
                row@ == target[r as int].take(c as int),
            decreases cols - c,
        {
            if (r as usize) < cells.len() && (c as usize) < cells[r as usize].len() {
                row.push(cells[r as usize][c as usize]);
            } else {
                row.push(Cell::default());
            }
            assert(row@ =~= target[r as int].take(c + 1));
            c = c + 1;
        }
        assert(row@ =~= target[r as int]);
        v.push(row);
        r = r + 1;
    }
    assert(grid_of(v@) =~= target);
    v
}


/// Whether a cell is dropped from the end of a transcript snapshot.
fn trailing_cell(c: &Cell) -> (b: bool)
    ensures
        b == (c.ch == ' ' || c.attr.dim),
{
    c.ch == ' ' || c.attr.dim
}

/// The characters of `row` up to `limit`, without trailing blanks or dim cells.
pub fn row_snapshot_vec(row: &Vec<Cell>, limit: usize) -> (v: Vec<char>)
    requires
        limit <= row@.len(),
    ensures
        v@ == row_snapshot(row@, limit as int),
{
    let ghost cells = row@.take(limit as int);
    let mut n: usize = limit;
    while n > 0
        invariant
            n <= limit <= row@.len(),
            cells == row@.take(limit as int),
            snapshot_len(cells) == snapshot_len(row@.take(n as int)),
        ensures
            n <= limit <= row@.len(),
            snapshot_len(cells) == snapshot_len(row@.take(n as int)),
            n == 0 || !(row@[n - 1].ch == ' ' || row@[n - 1].attr.dim),
        decreases n,
    {
        if !trailing_cell(&row[n - 1]) {
            break;
        }
        proof {
            let t = row@.take(n as int);
            assert(t.drop_last() =~= row@.take(n - 1));
            assert(t.last() == row@[n - 1]);
        }
        n = n - 1;
    }
    proof {
        let t = row@.take(n as int);
        if n > 0 {
            assert(t.last() == row@[n - 1]);
        } else {
            assert(t.len() == 0);
        }
        assert(snapshot_len(t) == n);
        assert(cells.take(n as int) =~= t);
    }
    let mut v: Vec<char> = Vec::new();
    let mut i: usize = 0;
    while i < n
        invariant
            i <= n <= row@.len(),
            v@ == row@.take(i as int).map_values(|c: Cell| c.ch),
        decreases n - i,
    {
        v.push(row[i].ch);
        assert(row@.take(i + 1).map_values(|c: Cell| c.ch) =~= row@.take(i as int).map_values(|c: Cell| c.ch).push(row@[i as int].ch));
        i = i + 1;
    }
    v
}

/// Erase in line on a grid of `rows` rows of `cols` cells (see [`erase_line_grid`]).
/// Erasing from the cursor needs it inside the grid or right at its end; erasing to
/// it or the whole line needs its row no further than just below the grid.
pub fn erase_line_cells(cells: &mut Vec<Vec<Cell>>, cols: u16, rows: u16, x: u16, y: u16, mode: u16)
    requires
        grid_shape(grid_of(old(cells)@), cols as nat, rows as nat),
        cols >= 1,
        mode == 0 ==> (y < rows && x <= cols) || (y == rows && x == 0),
        (mode == 1 || mode == 2) ==> y <= rows,
    ensures
        final(cells)@.len() == old(cells)@.len(),
        grid_of(final(cells)@) == erase_line_grid(grid_of(old(cells)@), cols as nat, x as int, y as int, mode),
{
    let ghost g = grid_of(cells@);
    if y >= rows {
        proof {
            let e = erase_line_grid(g, cols as nat, x as int, y as int, mode);
            assert forall|r: int| 0 <= r < g.len() implies #[trigger] e[r] =~= g[r] by {}
            assert(e =~= g);
        }
        return;
    }
    let yu = y as usize;
    assert(g[y as int] == cells@[y as int]@);
    if mode == 0 {
        blank_span(cells, yu, x as usize, cols as usize);
        assert(grid_of(cells@) =~~= erase_line_grid(g, cols as nat, x as int, y as int, mode));
    } else if mode == 1 {
        let end: usize = if x < cols {
            x as usize + 1
        } else {
            cols as usize
        };
        blank_span(cells, yu, 0, end);
        assert(grid_of(cells@) =~~= erase_line_grid(g, cols as nat, x as int, y as int, mode));
    } else if mode == 2 {
        blank_span(cells, yu, 0, cols as usize);
        assert(grid_of(cells@) =~~= erase_line_grid(g, cols as nat, x as int, y as int, mode));
    }
}

/// Where reading order puts a cursor further right than one past the last column:
/// `x / cols` rows further down, at column `x % cols`.
proof fn lemma_reading_position(x: int, y: int, cols: int, rows: int, r: int, c: int)
    requires
        cols >= 1,
        x >= 0,
        y >= 0,
        0 <= c < cols,
    ensures
        (r * cols + c >= y * cols + x) == (r > y + x / cols || (r == y + x / cols && c >= x % cols)),
        y * cols + x == (y + x / cols) * cols + x % cols,
        0 <= x % cols < cols,
{
    let q = x / cols;
    let m = x % cols;
    assert(x == q * cols + m && 0 <= m < cols) by (nonlinear_arith)
        requires
            cols >= 1,
            q == x / cols,
            m == x % cols,
    ;
    assert(y * cols + x == (y + q) * cols + m) by (nonlinear_arith)
        requires
            x == q * cols + m,
    ;
    assert((r * cols + c >= (y + q) * cols + m) == (r > y + q || (r == y + q && c >= m))) by (nonlinear_arith)
        requires
            cols >= 1,
            0 <= c < cols,
            0 <= m < cols,
    ;
}

/// Erase in display on a grid of `rows` rows of `cols` cells (see [`erase_display_grid`]).
/// Erasing from the cursor needs it no further on, in reading order, than the end
/// of the grid.
pub fn erase_display_cells(cells: &mut Vec<Vec<Cell>>, cols: u16, rows: u16, x: u16, y: u16, mode: u16)
    requires
        grid_shape(grid_of(old(cells)@), cols as nat, rows as nat),
        cols >= 1,
        mode == 0 ==> y * cols + x <= rows * cols,
    ensures
        final(cells)@.len() == old(cells)@.len(),
        grid_of(final(cells)@) == erase_display_grid(grid_of(old(cells)@), cols as nat, rows as nat, x as int, y as int, mode),
    decreases x,
{
    let ghost g = grid_of(cells@);
    assert forall|i: int| 0 <= i < cells@.len() implies (#[trigger] cells@[i])@.len() == cols by {
        assert(g[i] == cells@[i]@);
    }
    if mode == 0 {
        if x > cols {
            let cx: u16 = x % cols;
            let q: u16 = x / cols;
            proof {
                lemma_reading_position(x as int, y as int, cols as int, rows as int, 0, 0);
                assert((y + q) * cols + cx <= rows * cols);
                assert(y + q <= rows) by (nonlinear_arith)
                    requires
                        (y + q) * cols + cx <= rows * cols,
                        cols >= 1,
                        cx >= 0,
                ;
            }
            let ry: u16 = y + q;
            erase_display_cells(cells, cols, rows, cx, ry, 0);
            proof {
                let e1 = erase_display_grid(g, cols as nat, rows as nat, cx as int, ry as int, 0);
                let e2 = erase_display_grid(g, cols as nat, rows as nat, x as int, y as int, 0);
                assert(ry == y as int + x as int / cols as int);
                assert(cx == x as int % cols as int);
                assert forall|r: int| 0 <= r < g.len() implies #[trigger] e1[r] =~= e2[r] by {}
                assert(e1 =~= e2);
            }
            return;
        }
        if y >= rows {
            proof {
                assert(y * cols + x <= rows * cols);
                assert(y == rows && x == 0) by (nonlinear_arith)
                    requires
                        y * cols + x <= rows * cols,
                        y >= rows,
                        cols >= 1,
                        x >= 0,
                ;
                let e = erase_display_grid(g, cols as nat, rows as nat, x as int, y as int, mode);
                assert forall|r: int| 0 <= r < g.len() implies #[trigger] e[r] =~= g[r] by {}
                assert(e =~= g);
            }
            return;
        }
        let yu = y as usize;
        assert(g[y as int] == cells@[y as int]@);
        blank_span(cells, yu, x as usize, cols as usize);
        let ghost g1 = grid_of(cells@);
        assert forall|i: int| 0 <= i < cells@.len() implies (#[trigger] cells@[i])@.len() == cols by {
            assert(g1[i] == cells@[i]@);
        }
        blank_rows(cells, cols, yu + 1, rows as usize);
        assert(grid_of(cells@) =~~= erase_display_grid(g, cols as nat, rows as nat, x as int, y as int, mode));
    } else if mode == 1 {
        if y >= rows {
            blank_rows(cells, cols, 0, rows as usize);
            proof {
                let e = erase_display_grid(g, cols as nat, rows as nat, x as int, y as int, mode);
                let h = grid_of(cells@);
                assert forall|r: int| 0 <= r < g.len() implies #[trigger] h[r] =~= e[r] by {}
                assert(h =~= e);
            }
            return;
        }
        let yu = y as usize;
        blank_rows(cells, cols, 0, yu);
        let ghost g1 = grid_of(cells@);
        assert(g1[y as int] == cells@[y as int]@);
        let end: usize = if x < cols {
            x as usize + 1
        } else {
            cols as usize
        };
        blank_span(cells, yu, 0, end);
        assert(grid_of(cells@) =~~= erase_display_grid(g, cols as nat, rows as nat, x as int, y as int, mode));
    } else if mode == 2 || mode == 3 {
        *cells = blank_grid_vec(cols, rows);
        assert(grid_of(cells@).len() == cells@.len());
    }
}
} // verus!
