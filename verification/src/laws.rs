//! The general properties of the terminal state machine, stated over the
//! spec-level model and proved once and for all.

use vstd::prelude::*;

use crate::emu::{
    blank_cell, blank_grid, clamp_coord, csi_dispatch_v, draw_char_v, eff_width, feed_v, idx_v,
    lemma_feed_snoc, lemma_step_wf, line_feed_v, param_or, scroll_v, step_v, term_wf, Cell,
    PState, TermV,
};

verus! {

/// Feeding a byte sequence in two pieces ends in exactly the state that
/// feeding it whole does: the parser state persists across call boundaries,
/// so chunk boundaries are never observable.
pub proof fn lemma_feed_split(t: TermV, a: Seq<u8>, b: Seq<u8>)
    ensures
        feed_v(feed_v(t, a), b) == feed_v(t, a + b),
    decreases b.len(),
{
    if b.len() == 0 {
        assert(a + b =~= a);
    } else {
        let b0 = b.subrange(0, b.len() - 1);
        let last = b[b.len() - 1];
        assert(b =~= b0.push(last));
        assert(a + b =~= (a + b0).push(last));
        lemma_feed_split(t, a, b0);
        lemma_feed_snoc(feed_v(t, a), b0, last);
        lemma_feed_snoc(t, a + b0, last);
    }
}

/// A list of chunks, fed one call at a time.
pub open spec fn feed_chunks_v(t: TermV, chunks: Seq<Seq<u8>>) -> TermV
    decreases chunks.len(),
{
    if chunks.len() == 0 {
        t
    } else {
        feed_chunks_v(feed_v(t, chunks[0]), chunks.drop_first())
    }
}

/// Feeding a byte sequence split into any number of chunks, one call per
/// chunk, ends in exactly the state that feeding the concatenation in one
/// call does.
pub proof fn lemma_feed_chunked(t: TermV, chunks: Seq<Seq<u8>>)
    ensures
        feed_chunks_v(t, chunks) == feed_v(t, chunks.flatten()),
    decreases chunks.len(),
{
    if chunks.len() == 0 {
        assert(chunks.flatten() =~= Seq::<u8>::empty());
    } else {
        lemma_feed_chunked(feed_v(t, chunks[0]), chunks.drop_first());
        lemma_feed_split(t, chunks[0], chunks.drop_first().flatten());
        assert(chunks.flatten() == chunks[0] + chunks.drop_first().flatten());
    }
}

/// Every byte stream leaves a well-formed terminal well formed: the grid
/// keeps exactly `cols * rows` cells and the cursor row stays on the grid,
/// whatever bytes arrive.
pub proof fn lemma_feed_preserves_wf(t: TermV, bs: Seq<u8>)
    requires
        term_wf(t),
    ensures
        term_wf(feed_v(t, bs)),
    decreases bs.len(),
{
    if bs.len() > 0 {
        lemma_step_wf(t, bs[0]);
        lemma_feed_preserves_wf(step_v(t, bs[0]), bs.drop_first());
    }
}

/// Where a cursor-position sequence puts the cursor: with 1-based
/// parameters `(row, col)`, both defaulting to 1 when absent, the cursor
/// lands on column `clamp(col - 1, 0, cols - 1)` and row
/// `clamp(row - 1, 0, rows - 1)`; the grid contents do not change.
pub proof fn lemma_cursor_position_clamps(t: TermV, params: Seq<u16>, a: char)
    requires
        term_wf(t),
        a == 'H' || a == 'f',
    ensures
        ({
            let row = param_or(params, 0, 1);
            let col = param_or(params, 1, 1);
            let r = csi_dispatch_v(t, params, a);
            &&& r.cur_x == clamp_coord(col, t.cols)
            &&& r.cur_x == if col - 1 <= 0 { 0int } else if col - 1 >= t.cols - 1 { t.cols - 1 } else { col - 1 }
            &&& r.cur_y == clamp_coord(row, t.rows)
            &&& r.cur_y == if row - 1 <= 0 { 0int } else if row - 1 >= t.rows - 1 { t.rows - 1 } else { row - 1 }
            &&& r.cells == t.cells
            &&& r.cols == t.cols && r.rows == t.rows
        }),
{
}

/// The cells of row `r`.
pub open spec fn row_v(t: TermV, r: int) -> Seq<Cell> {
    t.cells.subrange(r * t.cols, r * t.cols + t.cols)
}

/// What scrolling does, row by row: on a grid of more than one row, the
/// content of every row `r` in `1 .. rows` moves to row `r - 1`, old row 0
/// is discarded, and the last row becomes all blank cells; a one-row grid
/// does not change.
pub proof fn lemma_scroll_up_shifts_rows(t: TermV)
    requires
        term_wf(t),
    ensures
        t.rows == 1 ==> scroll_v(t) == t,
        t.rows > 1 ==> forall|r: int|
            1 <= r < t.rows ==> row_v(scroll_v(t), r - 1) =~= row_v(t, r),
        t.rows > 1 ==> row_v(scroll_v(t), t.rows - 1) =~= blank_grid(t.cols),
{
    if t.rows > 1 {
        let s = scroll_v(t);
        let cols = t.cols as int;
        let rows = t.rows as int;
        assert forall|r: int| 1 <= r < rows implies row_v(s, r - 1) =~= row_v(t, r) by {
            assert(0 <= (r - 1) * cols && (r - 1) * cols + cols == r * cols && r * cols + cols
                <= cols * rows) by (nonlinear_arith)
                requires
                    1 <= r < rows,
                    cols >= 1,
            ;
            assert forall|j: int| 0 <= j < cols implies #[trigger] row_v(s, r - 1)[j] == row_v(
                t,
                r,
            )[j] by {
                assert((r - 1) * cols + j < (rows - 1) * cols) by (nonlinear_arith)
                    requires
                        1 <= r < rows,
                        0 <= j < cols,
                ;
                assert(row_v(s, r - 1)[j] == s.cells[(r - 1) * cols + j]);
                assert(s.cells[(r - 1) * cols + j] == t.cells[(r - 1) * cols + j + cols]);
            }
        }
        let last = rows - 1;
        assert(0 <= last * cols && last * cols + cols == cols * rows) by (nonlinear_arith)
            requires
                last == rows - 1,
                cols >= 1,
                rows >= 2,
        ;
        assert forall|j: int| 0 <= j < cols implies #[trigger] row_v(s, last)[j] == blank_cell()
            by {
            assert(last * cols + j >= (rows - 1) * cols);
            assert(row_v(s, last)[j] == s.cells[last * cols + j]);
        }
        assert(row_v(s, last) =~= blank_grid(t.cols));
    }
}

/// Feeding printable single-width ASCII bytes that stop short of the right
/// edge: each lands in its own cell in order, nothing else changes, and the
/// cursor moves right by one per byte.
pub proof fn lemma_fill_right(t: TermV, bs: Seq<u8>)
    requires
        term_wf(t),
        t.p.state == PState::Ground,
        t.cur_x + bs.len() < t.cols,
        forall|k: int| 0 <= k < bs.len() ==> 0x20 <= #[trigger] bs[k] < 0x7F,
    ensures
        ({
            let r = feed_v(t, bs);
            &&& r.cur_x == t.cur_x + bs.len()
            &&& r.cur_y == t.cur_y
            &&& r.cols == t.cols && r.rows == t.rows
            &&& r.fg == t.fg && r.bg == t.bg && r.p == t.p
            &&& r.cells.len() == t.cells.len()
            &&& forall|k: int|
                0 <= k < bs.len() ==> r.cells[idx_v(t, t.cur_x + k, t.cur_y as int)] == (Cell {
                    ch: bs[k] as char,
                    fg: t.fg,
                    bg: t.bg,
                })
            &&& forall|i: int|
                0 <= i < t.cells.len() && !(idx_v(t, t.cur_x as int, t.cur_y as int) <= i
                    < idx_v(t, t.cur_x as int, t.cur_y as int) + bs.len()) ==> r.cells[i] == t.cells[i]
        }),
    decreases bs.len(),
{
    if bs.len() == 0 {
    } else {
        let b = bs[0];
        let c = b as char;
        assert(0x20 <= b < 0x7F);
        assert(eff_width(c) == 1);
        assert(!(c == '\n' || c == '\r' || c == '\u{8}'));
        let t1 = step_v(t, b);
        assert(t1 == draw_char_v(t, c));
        assert(t.cur_x + 1 < t.cols);
        let w = idx_v(t, t.cur_x as int, t.cur_y as int);
        assert(0 <= w < t.cells.len()) by {
            crate::emu::lemma_pos_in_grid(t.cur_x, t.cur_y, t.cols, t.rows);
        }
        assert(t1.cells =~= t.cells.update(w, Cell { ch: c, fg: t.fg, bg: t.bg }));
        lemma_fill_right(t1, bs.drop_first());
        assert(feed_v(t, bs) == feed_v(t1, bs.drop_first()));
        let r = feed_v(t, bs);
        assert forall|k: int| 0 <= k < bs.len() implies r.cells[idx_v(t, t.cur_x + k, t.cur_y as int)]
            == (Cell { ch: bs[k] as char, fg: t.fg, bg: t.bg }) by {
            if k == 0 {
                assert(r.cells[w] == t1.cells[w]);
            } else {
                assert(bs.drop_first()[k - 1] == bs[k]);
                assert(idx_v(t1, t1.cur_x + (k - 1), t1.cur_y as int) == idx_v(t, t.cur_x + k, t.cur_y as int));
            }
        }
    }
}

/// Writing exactly `cols` printable single-width characters from column 0
/// without a newline: every character lands in its own cell of the row, in
/// order — none lost, none duplicated — and the cursor ends wrapped to
/// `(0, row + 1)`. On the last row of a taller grid the wrap scrolls once,
/// carrying the freshly written row up by one and blanking the last row;
/// on a one-row grid the scroll is a no-op, so the row keeps its characters
/// and the cursor returns to its start.
pub proof fn lemma_full_row_wraps(t: TermV, bs: Seq<u8>)
    requires
        term_wf(t),
        t.p.state == PState::Ground,
        t.cur_x == 0,
        bs.len() == t.cols,
        forall|k: int| 0 <= k < bs.len() ==> 0x20 <= #[trigger] bs[k] < 0x7F,
    ensures
        ({
            let r = feed_v(t, bs);
            let written = Seq::new(
                t.cols,
                |k: int| Cell { ch: bs[k] as char, fg: t.fg, bg: t.bg },
            );
            &&& r.cur_x == 0
            &&& (t.cur_y + 1 < t.rows ==> r.cur_y == t.cur_y + 1 && row_v(r, t.cur_y as int)
                =~= written)
            &&& (t.cur_y + 1 == t.rows && t.rows > 1 ==> r.cur_y == t.cur_y && row_v(
                r,
                t.cur_y - 1,
            ) =~= written && row_v(r, t.cur_y as int) =~= blank_grid(t.cols))
            &&& (t.rows == 1 ==> r.cur_y == 0 && row_v(r, 0) =~= written)
        }),
{
    let cols = t.cols as int;
    let rows = t.rows as int;
    let cy = t.cur_y as int;
    let written = Seq::new(t.cols, |k: int| Cell { ch: bs[k] as char, fg: t.fg, bg: t.bg });
    let pre = bs.subrange(0, cols - 1);
    let lastb = bs[cols - 1];
    assert(bs =~= pre.push(lastb));
    lemma_feed_snoc(t, pre, lastb);
    lemma_fill_right(t, pre);
    let m = feed_v(t, pre);
    let r = feed_v(t, bs);
    assert(r == step_v(m, lastb));
    let c = lastb as char;
    assert(eff_width(c) == 1);
    assert(!(c == '\n' || c == '\r' || c == '\u{8}'));
    let wix = idx_v(m, m.cur_x as int, m.cur_y as int);
    assert(0 <= wix < m.cells.len()) by {
        crate::emu::lemma_pos_in_grid(m.cur_x, m.cur_y, m.cols, m.rows);
    }
    let t2 = TermV {
        cells: m.cells.update(wix, Cell { ch: c, fg: t.fg, bg: t.bg }),
        cur_x: (m.cur_x + 1) as nat,
        ..m
    };
    assert(step_v(m, lastb) == line_feed_v(t2));
    // the filled row, before the wrap
    assert(cy * cols + cols <= cols * rows) by (nonlinear_arith)
        requires
            0 <= cy < rows,
            cols >= 1,
    ;
    assert forall|k: int| 0 <= k < cols implies #[trigger] t2.cells[cy * cols + k]
        == written[k] by {
        if k < cols - 1 {
            assert(t2.cells[cy * cols + k] == m.cells[idx_v(t, k, cy)]);
        }
    }
    if cy + 1 < rows {
        assert(r == (TermV { cur_y: (cy + 1) as nat, cur_x: 0, ..t2 }));
        assert forall|k: int| 0 <= k < cols implies #[trigger] row_v(r, cy)[k] == written[k] by {
            assert(row_v(r, cy)[k] == r.cells[cy * cols + k]);
        }
        assert(row_v(r, cy) =~= written);
    } else if rows > 1 {
        let t2z = TermV { cur_x: 0, ..t2 };
        assert(r == scroll_v(t2z));
        assert((cy - 1) * cols + cols == cy * cols && 0 <= (cy - 1) * cols && cy * cols == (rows
            - 1) * cols) by (nonlinear_arith)
            requires
                cy == rows - 1,
                rows >= 2,
                cols >= 1,
        ;
        assert forall|k: int| 0 <= k < cols implies #[trigger] row_v(r, cy - 1)[k]
            == written[k] by {
            assert((cy - 1) * cols + k < (rows - 1) * cols);
            assert(row_v(r, cy - 1)[k] == r.cells[(cy - 1) * cols + k]);
            assert(r.cells[(cy - 1) * cols + k] == t2z.cells[(cy - 1) * cols + k + cols]);
            assert((cy - 1) * cols + k + cols == cy * cols + k);
        }
        assert(row_v(r, cy - 1) =~= written);
        assert forall|k: int| 0 <= k < cols implies #[trigger] row_v(r, cy)[k] == blank_cell() by {
            assert(cy * cols + k >= (rows - 1) * cols);
            assert(row_v(r, cy)[k] == r.cells[cy * cols + k]);
        }
        assert(row_v(r, cy) =~= blank_grid(t.cols));
    } else {
        assert(cy == 0);
        assert(r == (TermV { cur_x: 0, ..t2 }));
        assert(0 * cols == 0);
        assert(cols * rows == cols) by (nonlinear_arith)
            requires
                rows == 1,
        ;
        assert(r.cells.len() == cols);
        assert forall|k: int| 0 <= k < cols implies #[trigger] row_v(r, 0)[k] == written[k] by {
            assert(row_v(r, 0)[k] == r.cells[k]);
        }
        assert(row_v(r, 0) =~= written);
    }
}

} // verus!
