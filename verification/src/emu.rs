//! A byte-accurate terminal emulator: a fixed-size character grid with a
//! cursor, driven by a streaming escape-sequence parser that survives
//! arbitrary chunk boundaries.

use vstd::prelude::*;

verus! {

/// A color as four 8-bit channels: red, green, blue, alpha.
#[derive(Clone, Copy, Default, PartialEq, Eq, Structural, Debug)]
pub struct Rgba(pub u8, pub u8, pub u8, pub u8);

/// One grid position: a character and the colors it is drawn with.
#[derive(Clone, Copy, PartialEq, Eq, Structural, Debug)]
pub struct Cell {
    pub ch: char,
    pub fg: Rgba,
    pub bg: Rgba,
}

/// The fixed default foreground color.
pub open spec fn default_fg() -> Rgba {
    Rgba(0xD6, 0xEF, 0xFF, 0xFF)
}

/// The fixed default background color.
pub open spec fn default_bg() -> Rgba {
    Rgba(0x07, 0x12, 0x1A, 0xFF)
}

/// The blank cell: a space in the default colors.
pub open spec fn blank_cell() -> Cell {
    Cell { ch: ' ', fg: default_fg(), bg: default_bg() }
}

impl Default for Cell {
    fn default() -> (c: Cell)
        ensures
            c == blank_cell(),
    {
        Cell { ch: ' ', fg: Rgba(0xD6, 0xEF, 0xFF, 0xFF), bg: Rgba(0x07, 0x12, 0x1A, 0xFF) }
    }
}

/// The states of the escape-sequence grammar: printing, just after an
/// escape byte, collecting escape intermediates, collecting
/// control-sequence parameters, consuming a string sequence, or
/// reassembling a multi-byte character.
#[derive(Clone, Copy, PartialEq, Eq, Structural, Debug)]
pub enum PState {
    Ground,
    Escape,
    EscInt,
    Csi,
    Osc,
    Utf8,
}

/// The persistent parser state carried across `on_bytes` calls.
pub struct Parser {
    pub state: PState,
    /// Completed numeric parameters of the control sequence being collected.
    pub params: Vec<u16>,
    /// The parameter currently being accumulated.
    pub cur: u16,
    /// Whether any digit or separator has been seen in this control sequence.
    pub seen: bool,
    /// Code point bits collected so far from a multi-byte character.
    pub ucode: u32,
    /// Continuation bytes still expected (1 to 3 while reassembling).
    pub uneed: u8,
    /// Total byte length of the multi-byte character being reassembled.
    pub ulen: u8,
}

/// The mathematical image of a `Parser`.
#[verifier::ext_equal]
pub struct ParserV {
    pub state: PState,
    pub params: Seq<u16>,
    pub cur: u16,
    pub seen: bool,
    pub ucode: u32,
    pub uneed: u8,
    pub ulen: u8,
}

impl View for Parser {
    type V = ParserV;

    open spec fn view(&self) -> ParserV {
        ParserV {
            state: self.state,
            params: self.params@,
            cur: self.cur,
            seen: self.seen,
            ucode: self.ucode,
            uneed: self.uneed,
            ulen: self.ulen,
        }
    }
}

/// The mathematical image of an `Emu`: grid, cursor, drawing colors and
/// parser state.
#[verifier::ext_equal]
pub struct TermV {
    pub cols: nat,
    pub rows: nat,
    pub cells: Seq<Cell>,
    pub cur_x: nat,
    pub cur_y: nat,
    pub fg: Rgba,
    pub bg: Rgba,
    pub p: ParserV,
}

/// Well-formedness of the parser state: bounds that every reachable state
/// satisfies and that keep the byte-step free of overflow.
pub open spec fn parser_wf(p: ParserV) -> bool {
    &&& p.params.len() <= 16
    &&& (p.state == PState::Utf8 ==> {
        &&& 1 <= p.uneed <= 3
        &&& 2 <= p.ulen <= 4
        &&& p.uneed < p.ulen
        &&& (p.uneed == 3 ==> p.ucode < 0x8)
        &&& (p.uneed == 2 ==> p.ucode < 0x200)
        &&& (p.uneed == 1 ==> p.ucode < 0x8000)
    })
}

/// Well-formedness of a terminal state: the grid is exactly `cols * rows`
/// cells and the cursor never escapes the grid — its column stays below
/// `cols` and its row below `rows`.
pub open spec fn term_wf(t: TermV) -> bool {
    &&& 1 <= t.cols
    &&& 1 <= t.rows
    &&& t.cols * t.rows <= usize::MAX as nat
    &&& t.cells.len() == t.cols * t.rows
    &&& t.cur_y < t.rows
    &&& t.cur_x < t.cols
    &&& parser_wf(t.p)
}

/// The parser state at session start: ground, no parameters collected.
pub open spec fn init_parser() -> ParserV {
    ParserV {
        state: PState::Ground,
        params: Seq::empty(),
        cur: 0,
        seen: false,
        ucode: 0,
        uneed: 0,
        ulen: 0,
    }
}

/// A grid of `n` blank cells.
pub open spec fn blank_grid(n: nat) -> Seq<Cell> {
    Seq::new(n, |i: int| blank_cell())
}

/// The terminal state right after creation or a resize to `cols x rows`
/// (each bumped to at least 1): all cells blank, cursor at the origin.
pub open spec fn sized_v(cols: nat, rows: nat, fg: Rgba, bg: Rgba, p: ParserV) -> TermV {
    let c: nat = if cols < 1 { 1 } else { cols };
    let r: nat = if rows < 1 { 1 } else { rows };
    TermV {
        cols: c,
        rows: r,
        cells: blank_grid(c * r),
        cur_x: 0,
        cur_y: 0,
        fg: fg,
        bg: bg,
        p: p,
    }
}

/// All cells blank and the cursor at the origin; size, colors and parser
/// state kept.
pub open spec fn clear_v(t: TermV) -> TermV {
    TermV { cells: blank_grid(t.cols * t.rows), cur_x: 0, cur_y: 0, ..t }
}

/// Scrolling: on a single-row grid nothing happens; otherwise every row
/// moves up one, row 0 is discarded, and the last row becomes blank.
pub open spec fn scroll_v(t: TermV) -> TermV {
    if t.rows <= 1 {
        t
    } else {
        TermV {
            cells: Seq::new(
                t.cells.len(),
                |i: int|
                    if i < (t.rows - 1) * t.cols {
                        t.cells[i + t.cols]
                    } else {
                        blank_cell()
                    },
            ),
            ..t
        }
    }
}

/// Cursor to column 0 and one row down, scrolling when already on the last
/// row.
pub open spec fn line_feed_v(t: TermV) -> TermV {
    let t2 = TermV { cur_x: 0, ..t };
    if t.cur_y + 1 >= t.rows {
        scroll_v(t2)
    } else {
        TermV { cur_y: t.cur_y + 1, ..t2 }
    }
}

/// Display width, in columns, that the width tables assign to a character
/// outside the ASCII and control ranges.
pub uninterp spec fn table_width(c: char) -> Option<usize>;

/// Displayed column count of one character, or `None` for a control
/// character, mirroring the width crate's classification: C0 controls and
/// the U+007F..U+009F block have no width, printable ASCII is one column,
/// and everything else comes from its tables.
pub open spec fn uw_width(c: char) -> Option<usize> {
    if (c as u32) < 0x20 {
        None
    } else if (c as u32) < 0x7F {
        Some(1usize)
    } else if (c as u32) < 0xA0 {
        None
    } else {
        table_width(c)
    }
}

/// Relies on unicode_width's UnicodeWidthChar::width: the character's
/// displayed width in columns, or None for a control character; a function
/// of the character alone, one column for printable ASCII, never more than
/// three columns.
#[verifier::external_body]
fn unicode_char_width(c: char) -> (r: Option<usize>)
    ensures
        r == uw_width(c),
        (c as u32) >= 0xA0 ==> r == table_width(c),
        r matches Some(w) ==> w <= 3,
{
    unicode_width::UnicodeWidthChar::width(c)
}

/// The width a printable character occupies on the grid: the table width
/// clamped into 1 to 3 columns (zero-width marks take one cell; the tables
/// assign at most three columns).
pub open spec fn eff_width(c: char) -> nat {
    match uw_width(c) {
        Some(w) => if w == 0 {
            1
        } else if w > 3 {
            3
        } else {
            w as nat
        },
        None => 1,
    }
}

/// Effective widths are between 1 and 3 columns.
pub proof fn lemma_eff_width_bounds(c: char)
    ensures
        1 <= eff_width(c) <= 3,
{
}

/// A control character: the C0 range, delete, or the C1 range.
pub open spec fn is_ctrl_char(c: char) -> bool {
    (c as u32) < 0x20 || (0x7F <= (c as u32) && (c as u32) <= 0x9F)
}

/// The grid index of position (x, y).
pub open spec fn idx_v(t: TermV, x: int, y: int) -> int {
    y * t.cols + x
}

/// Drawing one decoded character: newline, carriage return and backspace
/// move the cursor, other control characters are ignored, and a printable
/// character wraps first when it does not fit, is written at the cursor in
/// the current colors, and advances the cursor by its width — wrapping at
/// once (scrolling on the last row) when that reaches the right edge, so
/// the cursor never leaves the grid.
pub open spec fn draw_char_v(t: TermV, c: char) -> TermV {
    if c == '\n' {
        line_feed_v(t)
    } else if c == '\r' {
        TermV { cur_x: 0, ..t }
    } else if c == '\u{8}' {
        if t.cur_x > 0 {
            TermV { cur_x: (t.cur_x - 1) as nat, ..t }
        } else {
            t
        }
    } else if is_ctrl_char(c) {
        t
    } else {
        let w = eff_width(c);
        let t1 = if t.cur_x + w > t.cols {
            line_feed_v(t)
        } else {
            t
        };
        let t2 = TermV {
            cells: t1.cells.update(idx_v(t1, t1.cur_x as int, t1.cur_y as int), Cell { ch: c, fg: t.fg, bg: t.bg }),
            cur_x: t1.cur_x + w,
            ..t1
        };
        if t2.cur_x >= t2.cols {
            line_feed_v(t2)
        } else {
            t2
        }
    }
}

/// A position on the grid indexes into the row-major cell array.
pub proof fn lemma_pos_in_grid(x: nat, y: nat, cols: nat, rows: nat)
    by (nonlinear_arith)
    requires
        x < cols,
        y < rows,
    ensures
        y * cols + x < cols * rows,
        0 <= y * cols + x,
{
}

/// The terminal emulator: a `cols x rows` grid of cells in row-major order,
/// a cursor clamped to the grid, the colors new characters are drawn with,
/// and the persistent parser state.
pub struct Emu {
    pub cols: usize,
    pub rows: usize,
    pub grid: Vec<Cell>,
    pub cur_x: usize,
    pub cur_y: usize,
    pub parser: Parser,
    pub cur_fg: Rgba,
    pub cur_bg: Rgba,
}

impl View for Emu {
    type V = TermV;

    open spec fn view(&self) -> TermV {
        TermV {
            cols: self.cols as nat,
            rows: self.rows as nat,
            cells: self.grid@,
            cur_x: self.cur_x as nat,
            cur_y: self.cur_y as nat,
            fg: self.cur_fg,
            bg: self.cur_bg,
            p: self.parser@,
        }
    }
}

/// A vector of `n` blank cells.
fn blank_cells(n: usize) -> (v: Vec<Cell>)
    ensures
        v@ == blank_grid(n as nat),
{
    let mut v: Vec<Cell> = Vec::new();
    let mut i: usize = 0;
    while i < n
        invariant
            i <= n,
            v@.len() == i,
            forall|j: int| 0 <= j < i ==> v@[j] == blank_cell(),
        decreases n - i,
    {
        v.push(Cell::default());
        i = i + 1;
    }
    proof {
        assert(v@ =~= blank_grid(n as nat));
    }
    v
}

impl Emu {
    /// Whether this emulator state is well formed.
    pub open spec fn wf(&self) -> bool {
        term_wf(self@)
    }

    /// A fresh emulator: dimensions bumped to at least 1, a blank grid,
    /// cursor at the origin, default colors, parser at ground.
    pub fn new(cols: usize, rows: usize) -> (e: Emu)
        requires
            (if cols < 1 { 1nat } else { cols as nat }) * (if rows < 1 { 1nat } else { rows as nat })
                <= usize::MAX as nat,
        ensures
            e@ == sized_v(cols as nat, rows as nat, default_fg(), default_bg(), init_parser()),
            e.wf(),
    {
        let c: usize = if cols < 1 { 1 } else { cols };
        let r: usize = if rows < 1 { 1 } else { rows };
        let n: usize = c * r;
        let e = Emu {
            cols: c,
            rows: r,
            grid: blank_cells(n),
            cur_x: 0,
            cur_y: 0,
            parser: Parser {
                state: PState::Ground,
                params: Vec::new(),
                cur: 0,
                seen: false,
                ucode: 0,
                uneed: 0,
                ulen: 0,
            },
            cur_fg: Rgba(0xD6, 0xEF, 0xFF, 0xFF),
            cur_bg: Rgba(0x07, 0x12, 0x1A, 0xFF),
        };
        proof {
            assert(e@.p =~= init_parser());
            assert(e@ =~= sized_v(cols as nat, rows as nat, default_fg(), default_bg(), init_parser()));
        }
        e
    }

    /// Reallocate the grid to the new dimensions (each bumped to at least 1)
    /// with every cell blank, and reset the cursor to the origin; prior
    /// contents are deliberately discarded. Colors and parser state are kept.
    pub fn resize(&mut self, cols: usize, rows: usize)
        requires
            old(self).wf(),
            (if cols < 1 { 1nat } else { cols as nat }) * (if rows < 1 { 1nat } else { rows as nat })
                <= usize::MAX as nat,
        ensures
            final(self)@ == sized_v(cols as nat, rows as nat, old(self)@.fg, old(self)@.bg, old(self)@.p),
            final(self)@.cells == blank_grid(final(self)@.cols * final(self)@.rows),
            final(self)@.cells.len() == final(self)@.cols * final(self)@.rows,
            final(self)@.cur_x == 0 && final(self)@.cur_y == 0,
            final(self).wf(),
    {
        let c: usize = if cols < 1 { 1 } else { cols };
        let r: usize = if rows < 1 { 1 } else { rows };
        self.cols = c;
        self.rows = r;
        self.grid = blank_cells(c * r);
        self.cur_x = 0;
        self.cur_y = 0;
        proof {
            assert(self@ =~= sized_v(cols as nat, rows as nat, old(self)@.fg, old(self)@.bg, old(self)@.p));
        }
    }

    /// Every cell back to blank and the cursor to the origin.
    fn clear_all(&mut self)
        requires
            old(self).wf(),
        ensures
            final(self)@ == clear_v(old(self)@),
            final(self).wf(),
    {
        let n: usize = self.grid.len();
        let mut i: usize = 0;
        while i < n
            invariant
                old(self).wf(),
                n == self.grid.len(),
                i <= n,
                self.cols == old(self).cols,
                self.rows == old(self).rows,
                self.cur_x == old(self).cur_x,
                self.cur_y == old(self).cur_y,
                self.cur_fg == old(self).cur_fg,
                self.cur_bg == old(self).cur_bg,
                self.parser@ == old(self).parser@,
                forall|j: int| 0 <= j < i ==> self.grid@[j] == blank_cell(),
                forall|j: int| i <= j < n ==> self.grid@[j] == old(self).grid@[j],
            decreases n - i,
        {
            self.grid.set(i, Cell::default());
            i = i + 1;
        }
        self.cur_x = 0;
        self.cur_y = 0;
        proof {
            assert(self@.cells =~= blank_grid(old(self)@.cols * old(self)@.rows));
            assert(self@ =~= clear_v(old(self)@));
        }
    }

    /// Shift every row up by one, discarding row 0 and blanking the last
    /// row; a single-row grid is left unchanged. The cursor does not move.
    pub fn scroll_up(&mut self)
        requires
            old(self).wf(),
        ensures
            final(self)@ == scroll_v(old(self)@),
            final(self).wf(),
    {
        if self.rows <= 1 {
            return;
        }
        let w: usize = self.cols;
        let len: usize = self.grid.len();
        proof {
            lemma_pos_in_grid(0, (self@.rows - 1) as nat, self@.cols, self@.rows);
            assert((self@.rows - 1) * self@.cols + self@.cols == self@.rows * self@.cols)
                by (nonlinear_arith);
            assert(self@.cols * self@.rows == self@.rows * self@.cols) by (nonlinear_arith);
        }
        let shifted: usize = len - w;
        let mut i: usize = 0;
        while i < shifted
            invariant
                old(self).wf(),
                w == old(self).cols,
                len == old(self).grid@.len(),
                shifted == len - w,
                w >= 1,
                i <= shifted,
                self.cols == old(self).cols,
                self.rows == old(self).rows,
                self.cur_x == old(self).cur_x,
                self.cur_y == old(self).cur_y,
                self.cur_fg == old(self).cur_fg,
                self.cur_bg == old(self).cur_bg,
                self.parser@ == old(self).parser@,
                self.grid@.len() == len,
                forall|j: int| 0 <= j < i ==> self.grid@[j] == old(self).grid@[j + w],
                forall|j: int| i <= j < len ==> self.grid@[j] == old(self).grid@[j],
            decreases shifted - i,
        {
            let moved = self.grid[i + w];
            self.grid.set(i, moved);
            i = i + 1;
        }
        let mut k: usize = shifted;
        while k < len
            invariant
                old(self).wf(),
                w == old(self).cols,
                len == old(self).grid@.len(),
                shifted == len - w,
                shifted <= k <= len,
                self.cols == old(self).cols,
                self.rows == old(self).rows,
                self.cur_x == old(self).cur_x,
                self.cur_y == old(self).cur_y,
                self.cur_fg == old(self).cur_fg,
                self.cur_bg == old(self).cur_bg,
                self.parser@ == old(self).parser@,
                self.grid@.len() == len,
                forall|j: int| 0 <= j < shifted ==> self.grid@[j] == old(self).grid@[j + w],
                forall|j: int| shifted <= j < k ==> self.grid@[j] == blank_cell(),
                forall|j: int| k <= j < len ==> self.grid@[j] == old(self).grid@[j],
            decreases len - k,
        {
            self.grid.set(k, Cell::default());
            k = k + 1;
        }
        proof {
            let ghost orows = old(self)@.rows;
            let ghost ocols = old(self)@.cols;
            assert((orows - 1) * ocols == orows * ocols - ocols) by (nonlinear_arith);
            assert(self@.cells =~= scroll_v(old(self)@).cells);
            assert(self@ =~= scroll_v(old(self)@));
        }
    }

    /// Cursor to column 0 and one row down, scrolling on the last row.
    fn line_feed(&mut self)
        requires
            old(self).wf(),
        ensures
            final(self)@ == line_feed_v(old(self)@),
            final(self).wf(),
    {
        self.cur_x = 0;
        if self.cur_y + 1 >= self.rows {
            self.scroll_up();
        } else {
            self.cur_y = self.cur_y + 1;
        }
    }

    /// Draw one decoded character at the cursor, as `draw_char_v` states:
    /// newline, carriage return and backspace move the cursor, other control
    /// characters are ignored, and a printable character wraps first when it
    /// does not fit, lands at the cursor in the current colors, and advances
    /// the cursor by its display width, wrapping at once (scrolling on the
    /// last row) when that reaches the right edge — the cursor never leaves
    /// the grid.
    pub fn draw_char(&mut self, c: char)
        requires
            old(self).wf(),
        ensures
            final(self)@ == draw_char_v(old(self)@, c),
            final(self).wf(),
    {
        if c == '\n' {
            self.line_feed();
            return;
        }
        if c == '\r' {
            self.cur_x = 0;
            return;
        }
        if c == '\u{8}' {
            if self.cur_x > 0 {
                self.cur_x = self.cur_x - 1;
            }
            return;
        }
        let cu = c as u32;
        if cu < 0x20 || (0x7F <= cu && cu <= 0x9F) {
            return;
        }
        let w: usize = match unicode_char_width(c) {
            Some(got) => if got < 1 {
                1
            } else {
                got
            },
            None => 1,
        };
        proof {
            assert(w as nat == eff_width(c));
        }
        if self.cols - self.cur_x < w {
            self.line_feed();
        }
        proof {
            lemma_pos_in_grid(self@.cur_x, self@.cur_y, self@.cols, self@.rows);
        }
        let i: usize = self.cur_y * self.cols + self.cur_x;
        self.grid.set(i, Cell { ch: c, fg: self.cur_fg, bg: self.cur_bg });
        self.cur_x = self.cur_x + w;
        let ghost t2 = self@;
        if self.cur_x >= self.cols {
            self.cur_x = 0;
            proof {
                assert(line_feed_v(self@) == line_feed_v(t2)) by {
                    assert(TermV { cur_x: 0, ..self@ } =~= TermV { cur_x: 0, ..t2 });
                }
            }
            self.line_feed();
        }
        proof {
            assert(self@ =~= draw_char_v(old(self)@, c));
        }
    }
}

/// The same terminal with the parser in the given state.
pub open spec fn to_state(t: TermV, s: PState) -> TermV {
    TermV { p: ParserV { state: s, ..t.p }, ..t }
}

/// Enter parameter collection: no parameters seen yet.
pub open spec fn start_csi_v(t: TermV) -> TermV {
    TermV { p: ParserV { state: PState::Csi, params: Seq::empty(), cur: 0, seen: false, ..t.p }, ..t }
}

/// Back to the ground state with the parameter store emptied.
pub open spec fn reset_parser_v(t: TermV) -> TermV {
    TermV {
        p: ParserV { state: PState::Ground, params: Seq::empty(), cur: 0, seen: false, ..t.p },
        ..t
    }
}

/// Start reassembling a multi-byte character from its leading bits.
pub open spec fn start_utf8_v(t: TermV, bits: u32, need: u8, len: u8) -> TermV {
    TermV {
        p: ParserV { state: PState::Utf8, ucode: bits, uneed: need, ulen: len, ..t.p },
        ..t
    }
}

/// Accumulate one decimal digit into a parameter, saturating at the
/// largest 16-bit value.
pub open spec fn sat10(cur: u16, d: u16) -> u16 {
    if cur <= (0xFFFF - d) / 10 {
        (cur * 10 + d) as u16
    } else {
        0xFFFF
    }
}

/// Append the accumulated parameter; at most 16 parameters are kept, later
/// ones are dropped.
pub open spec fn push_param_v(params: Seq<u16>, cur: u16) -> Seq<u16> {
    if params.len() < 16 {
        params.push(cur)
    } else {
        params
    }
}

/// The `i`-th collected parameter, or the given default when absent.
pub open spec fn param_or(params: Seq<u16>, i: int, dflt: u16) -> u16 {
    if params.len() > i {
        params[i]
    } else {
        dflt
    }
}

/// Clamp a 1-based control-sequence coordinate into `0 .. limit`:
/// subtract one stopping at zero, then cap at `limit - 1`.
pub open spec fn clamp_coord(v: u16, limit: nat) -> nat
    recommends
        limit >= 1,
{
    let z: nat = if v >= 1 { (v - 1) as nat } else { 0 };
    if z > limit - 1 {
        (limit - 1) as nat
    } else {
        z
    }
}

/// Dispatch of a completed control sequence: cursor position (`H` or `f`)
/// takes 1-based row and column, both defaulting to 1, and clamps them into
/// the grid; erase display (`J`) with parameter 2 clears everything; select
/// graphic rendition (`m`) with parameter 0 or none resets the colors; every
/// other final byte is discarded without effect.
pub open spec fn csi_dispatch_v(t: TermV, params: Seq<u16>, action: char) -> TermV {
    if action == 'H' || action == 'f' {
        let row = param_or(params, 0, 1);
        let col = param_or(params, 1, 1);
        TermV { cur_x: clamp_coord(col, t.cols), cur_y: clamp_coord(row, t.rows), ..t }
    } else if action == 'J' {
        if param_or(params, 0, 0) == 2 {
            clear_v(t)
        } else {
            t
        }
    } else if action == 'm' {
        if param_or(params, 0, 0) == 0 {
            TermV { fg: default_fg(), bg: default_bg(), ..t }
        } else {
            t
        }
    } else {
        t
    }
}

/// The smallest code point whose shortest encoding has the given length.
pub open spec fn utf8_min(len: u8) -> u32 {
    if len == 2 {
        0x80
    } else if len == 3 {
        0x800
    } else {
        0x10000
    }
}

/// A Unicode scalar value: any code point except the surrogate block.
pub open spec fn is_scalar_u32(v: u32) -> bool {
    v < 0xD800 || (0xE000 <= v && v <= 0x10FFFF)
}

/// The character a completed byte sequence decodes to: its code point when
/// the encoding was shortest-form and lands on a scalar value, otherwise
/// the replacement character.
pub open spec fn decoded_char(code: u32, len: u8) -> char {
    if utf8_min(len) <= code && is_scalar_u32(code) {
        code as char
    } else {
        '\u{FFFD}'
    }
}

/// Relies on char::from_u32: `Some` exactly on Unicode scalar values,
/// returning the character with that code point.
#[verifier::external_body]
fn char_from_u32(v: u32) -> (r: Option<char>)
    ensures
        r is Some <==> is_scalar_u32(v),
        r matches Some(c) ==> c == (v as char),
{
    char::from_u32(v)
}

/// One byte in the ground state: an escape byte starts a sequence; any
/// other byte below 0x80 is drawn as a character (which ignores the
/// controls that do nothing); a leading byte opens a multi-byte character;
/// a stray continuation byte or an impossible leading byte draws the
/// replacement character.
pub open spec fn step_ground_v(t: TermV, b: u8) -> TermV {
    if b == 0x1B {
        to_state(t, PState::Escape)
    } else if b < 0x80 {
        draw_char_v(t, b as char)
    } else if b < 0xC0 {
        draw_char_v(t, '\u{FFFD}')
    } else if b < 0xE0 {
        start_utf8_v(t, (b & 0x1F) as u32, 1, 2)
    } else if b < 0xF0 {
        start_utf8_v(t, (b & 0x0F) as u32, 2, 3)
    } else if b < 0xF8 {
        start_utf8_v(t, (b & 0x07) as u32, 3, 4)
    } else {
        draw_char_v(t, '\u{FFFD}')
    }
}

/// One byte right after an escape byte: `[` opens a control sequence; `]`
/// and the other string introducers (device control and the private string
/// messages) open a string sequence that is consumed to its terminator; an
/// intermediate byte (0x20 to 0x2F) starts an intermediate sequence;
/// another escape byte stays put; cancel and substitute abort; any other
/// control byte acts as it would while printing; delete is ignored; and any
/// remaining byte ends the sequence, discarded.
pub open spec fn step_escape_v(t: TermV, b: u8) -> TermV {
    if b == 0x1B {
        t
    } else if b == 0x5B {
        start_csi_v(t)
    } else if b == 0x5D || b == 0x50 || b == 0x58 || b == 0x5E || b == 0x5F {
        to_state(t, PState::Osc)
    } else if b == 0x18 || b == 0x1A {
        to_state(t, PState::Ground)
    } else if b < 0x20 {
        draw_char_v(t, b as char)
    } else if 0x20 <= b && b <= 0x2F {
        to_state(t, PState::EscInt)
    } else if b == 0x7F {
        t
    } else {
        to_state(t, PState::Ground)
    }
}

/// One byte while collecting escape intermediates: more intermediates are
/// consumed, a final byte (0x30 to 0x7E) ends the sequence — recognized or
/// not, it is discarded — an escape byte restarts a sequence, cancel and
/// substitute abort, any other control byte acts as it would while
/// printing, and anything else is consumed without effect.
pub open spec fn step_escint_v(t: TermV, b: u8) -> TermV {
    if b == 0x1B {
        to_state(t, PState::Escape)
    } else if b == 0x18 || b == 0x1A {
        to_state(t, PState::Ground)
    } else if b < 0x20 {
        draw_char_v(t, b as char)
    } else if 0x30 <= b && b <= 0x7E {
        to_state(t, PState::Ground)
    } else {
        t
    }
}

/// One byte of a string sequence: the bell or an escape byte (the start of
/// the two-byte string terminator) ends it, cancel and substitute abort,
/// and every other byte is part of the string, consumed without effect.
pub open spec fn step_osc_v(t: TermV, b: u8) -> TermV {
    if b == 0x07 {
        to_state(t, PState::Ground)
    } else if b == 0x1B {
        to_state(t, PState::Escape)
    } else if b == 0x18 || b == 0x1A {
        to_state(t, PState::Ground)
    } else {
        t
    }
}

/// One byte while collecting control-sequence parameters: digits accumulate,
/// `;` separates, a final byte (0x40 to 0x7E) dispatches the sequence, an
/// escape byte restarts a sequence, cancel and substitute abort, any other
/// control byte acts at once as it would while printing, and every other
/// byte is consumed without effect.
pub open spec fn step_csi_v(t: TermV, b: u8) -> TermV {
    if b == 0x1B {
        to_state(t, PState::Escape)
    } else if b == 0x18 || b == 0x1A {
        to_state(t, PState::Ground)
    } else if b < 0x20 {
        draw_char_v(t, b as char)
    } else if 0x30 <= b && b <= 0x39 {
        TermV {
            p: ParserV { cur: sat10(t.p.cur, (b - 0x30) as u16), seen: true, ..t.p },
            ..t
        }
    } else if b == 0x3B {
        TermV {
            p: ParserV { params: push_param_v(t.p.params, t.p.cur), cur: 0, seen: true, ..t.p },
            ..t
        }
    } else if 0x40 <= b && b <= 0x7E {
        let ps = if t.p.seen {
            push_param_v(t.p.params, t.p.cur)
        } else {
            t.p.params
        };
        csi_dispatch_v(reset_parser_v(t), ps, b as char)
    } else {
        t
    }
}

/// One byte while reassembling a multi-byte character: a continuation byte
/// adds six bits and, when it is the last one, draws the decoded character;
/// any other byte draws the replacement character and is then handled from
/// the ground state.
pub open spec fn step_utf8_v(t: TermV, b: u8) -> TermV {
    if 0x80 <= b && b < 0xC0 {
        let code = (t.p.ucode * 64 + (b & 0x3F)) as u32;
        if t.p.uneed == 1 {
            draw_char_v(to_state(t, PState::Ground), decoded_char(code, t.p.ulen))
        } else {
            TermV {
                p: ParserV { ucode: code, uneed: (t.p.uneed - 1) as u8, ..t.p },
                ..t
            }
        }
    } else {
        step_ground_v(draw_char_v(to_state(t, PState::Ground), '\u{FFFD}'), b)
    }
}

/// One input byte, dispatched on the current parser state.
pub open spec fn step_v(t: TermV, b: u8) -> TermV {
    match t.p.state {
        PState::Ground => step_ground_v(t, b),
        PState::Escape => step_escape_v(t, b),
        PState::EscInt => step_escint_v(t, b),
        PState::Csi => step_csi_v(t, b),
        PState::Osc => step_osc_v(t, b),
        PState::Utf8 => step_utf8_v(t, b),
    }
}

/// A whole byte sequence, processed in order, one `step_v` per byte.
pub open spec fn feed_v(t: TermV, bs: Seq<u8>) -> TermV
    decreases bs.len(),
{
    if bs.len() == 0 {
        t
    } else {
        feed_v(step_v(t, bs[0]), bs.drop_first())
    }
}

/// Stepping on the last byte commutes with feeding the prefix.
pub proof fn lemma_feed_snoc(t: TermV, s: Seq<u8>, b: u8)
    ensures
        feed_v(t, s.push(b)) == step_v(feed_v(t, s), b),
    decreases s.len(),
{
    if s.len() == 0 {
        assert(s.push(b)[0] == b);
        assert(s.push(b).drop_first() =~= Seq::<u8>::empty());
        assert(feed_v(step_v(t, b), Seq::<u8>::empty()) == step_v(t, b));
        assert(feed_v(t, s.push(b)) == feed_v(step_v(t, b), s.push(b).drop_first()));
    } else {
        assert(s.push(b)[0] == s[0]);
        assert(s.push(b).drop_first() =~= s.drop_first().push(b));
        assert(feed_v(t, s.push(b)) == feed_v(step_v(t, s[0]), s.drop_first().push(b)));
        lemma_feed_snoc(step_v(t, s[0]), s.drop_first(), b);
        assert(feed_v(t, s) == feed_v(step_v(t, s[0]), s.drop_first()));
    }
}

/// Scrolling keeps the grid size, the cursor and the parser state.
pub proof fn lemma_scroll_wf(t: TermV)
    requires
        term_wf(t),
    ensures
        term_wf(scroll_v(t)),
{
}

/// A line feed keeps the state well formed.
pub proof fn lemma_line_feed_wf(t: TermV)
    requires
        term_wf(t),
    ensures
        term_wf(line_feed_v(t)),
{
    if t.cur_y + 1 >= t.rows {
        lemma_scroll_wf(TermV { cur_x: 0, ..t });
    }
}

/// Drawing any character keeps the state well formed.
pub proof fn lemma_draw_char_wf(t: TermV, c: char)
    requires
        term_wf(t),
    ensures
        term_wf(draw_char_v(t, c)),
{
    lemma_line_feed_wf(t);
    lemma_eff_width_bounds(c);
    if c != '\n' && c != '\r' && c != '\u{8}' && !is_ctrl_char(c) {
        let w = eff_width(c);
        let t1 = if t.cur_x + w > t.cols {
            line_feed_v(t)
        } else {
            t
        };
        assert(t1.cur_x < t1.cols);
        lemma_pos_in_grid(t1.cur_x, t1.cur_y, t1.cols, t1.rows);
        let t2 = TermV {
            cells: t1.cells.update(
                idx_v(t1, t1.cur_x as int, t1.cur_y as int),
                Cell { ch: c, fg: t.fg, bg: t.bg },
            ),
            cur_x: t1.cur_x + w,
            ..t1
        };
        assert(t2.cells.len() == t1.cells.len());
        if t2.cur_x >= t2.cols {
            let t2z = TermV { cur_x: 0, ..t2 };
            assert(term_wf(t2z));
            assert(line_feed_v(t2) == line_feed_v(t2z)) by {
                assert(TermV { cur_x: 0, ..t2 } =~= TermV { cur_x: 0, ..t2z });
            }
            lemma_line_feed_wf(t2z);
        }
    }
}

/// Bounds of the bit masks used while decoding leading and continuation
/// bytes.
proof fn lemma_mask_bounds(b: u8)
    by (bit_vector)
    ensures
        b & 0x1F <= 0x1F,
        b & 0x0F <= 0x0F,
        b & 0x07 <= 0x07,
        b & 0x3F <= 0x3F,
{
}

/// Well-formedness survives any single byte.
pub proof fn lemma_step_wf(t: TermV, b: u8)
    requires
        term_wf(t),
    ensures
        term_wf(step_v(t, b)),
{
    match t.p.state {
        PState::Ground => {
            lemma_ground_wf(t, b);
        },
        PState::Escape => {
            lemma_draw_char_wf(t, b as char);
        },
        PState::EscInt => {
            lemma_draw_char_wf(t, b as char);
        },
        PState::Csi => {
            lemma_draw_char_wf(t, b as char);
            if 0x40 <= b && b <= 0x7E {
                let ps = if t.p.seen {
                    push_param_v(t.p.params, t.p.cur)
                } else {
                    t.p.params
                };
                lemma_dispatch_wf(reset_parser_v(t), ps, b as char);
            }
        },
        PState::Osc => {
        },
        PState::Utf8 => {
            lemma_mask_bounds(b);
            if 0x80 <= b && b < 0xC0 {
                if t.p.uneed == 1 {
                    let code = (t.p.ucode * 64 + (b & 0x3F)) as u32;
                    lemma_draw_char_wf(to_state(t, PState::Ground), decoded_char(code, t.p.ulen));
                }
            } else {
                let t2 = draw_char_v(to_state(t, PState::Ground), '\u{FFFD}');
                lemma_draw_char_wf(to_state(t, PState::Ground), '\u{FFFD}');
                lemma_ground_wf(t2, b);
            }
        },
    }
}

/// Well-formedness survives a ground-state byte.
pub proof fn lemma_ground_wf(t: TermV, b: u8)
    requires
        term_wf(t),
    ensures
        term_wf(step_ground_v(t, b)),
{
    lemma_mask_bounds(b);
    if b != 0x1B && b < 0x80 {
        lemma_draw_char_wf(t, b as char);
    } else {
        lemma_draw_char_wf(t, '\u{FFFD}');
    }
}

/// Well-formedness survives a control-sequence dispatch.
pub proof fn lemma_dispatch_wf(t: TermV, params: Seq<u16>, action: char)
    requires
        term_wf(t),
        params.len() <= 16,
    ensures
        term_wf(csi_dispatch_v(t, params, action)),
{
}

impl Emu {
    /// Handle one completed control sequence whose final byte is `action`,
    /// with the parameters finished and stored in the parser; afterwards the
    /// parser is back at ground with no parameters.
    fn csi_dispatch(&mut self, action: u8)
        requires
            old(self).wf(),
            0x40 <= action <= 0x7E,
        ensures
            final(self)@ == csi_dispatch_v(
                reset_parser_v(old(self)@),
                old(self)@.p.params,
                action as char,
            ),
            final(self).wf(),
    {
        let ghost base = reset_parser_v(old(self)@);
        if action == 0x48 || action == 0x66 {
            // cursor position
            let row: u16 = if self.parser.params.len() >= 1 {
                self.parser.params[0]
            } else {
                1
            };
            let col: u16 = if self.parser.params.len() >= 2 {
                self.parser.params[1]
            } else {
                1
            };
            let zx: usize = if col >= 1 { (col - 1) as usize } else { 0 };
            let zy: usize = if row >= 1 { (row - 1) as usize } else { 0 };
            self.cur_x = if zx > self.cols - 1 { self.cols - 1 } else { zx };
            self.cur_y = if zy > self.rows - 1 { self.rows - 1 } else { zy };
        } else if action == 0x4A {
            // erase display
            let p: u16 = if self.parser.params.len() >= 1 {
                self.parser.params[0]
            } else {
                0
            };
            if p == 2 {
                self.clear_all();
            }
        } else if action == 0x6D {
            // select graphic rendition
            let p: u16 = if self.parser.params.len() >= 1 {
                self.parser.params[0]
            } else {
                0
            };
            if p == 0 {
                let d = Cell::default();
                self.cur_fg = d.fg;
                self.cur_bg = d.bg;
            }
        }
        self.parser.state = PState::Ground;
        self.parser.params = Vec::new();
        self.parser.cur = 0;
        self.parser.seen = false;
        proof {
            assert(self@ =~= csi_dispatch_v(base, old(self)@.p.params, action as char));
        }
    }

    /// Process one input byte, as `step_v` states.
    fn step_byte(&mut self, b: u8)
        requires
            old(self).wf(),
        ensures
            final(self)@ == step_v(old(self)@, b),
            final(self).wf(),
    {
        match self.parser.state {
            PState::Ground => self.ground_byte(b),
            PState::Escape => {
                if b == 0x1B {
                } else if b == 0x5B {
                    self.parser.state = PState::Csi;
                    self.parser.params = Vec::new();
                    self.parser.cur = 0;
                    self.parser.seen = false;
                    proof {
                        assert(self@ =~= start_csi_v(old(self)@));
                    }
                } else if b == 0x5D || b == 0x50 || b == 0x58 || b == 0x5E || b == 0x5F {
                    self.parser.state = PState::Osc;
                    proof {
                        assert(self@ =~= to_state(old(self)@, PState::Osc));
                    }
                } else if b == 0x18 || b == 0x1A {
                    self.parser.state = PState::Ground;
                    proof {
                        assert(self@ =~= to_state(old(self)@, PState::Ground));
                    }
                } else if b < 0x20 {
                    self.draw_char(b as char);
                } else if 0x20 <= b && b <= 0x2F {
                    self.parser.state = PState::EscInt;
                    proof {
                        assert(self@ =~= to_state(old(self)@, PState::EscInt));
                    }
                } else if b == 0x7F {
                } else {
                    self.parser.state = PState::Ground;
                    proof {
                        assert(self@ =~= to_state(old(self)@, PState::Ground));
                    }
                }
            },
            PState::EscInt => {
                if b == 0x1B {
                    self.parser.state = PState::Escape;
                    proof {
                        assert(self@ =~= to_state(old(self)@, PState::Escape));
                    }
                } else if b == 0x18 || b == 0x1A {
                    self.parser.state = PState::Ground;
                    proof {
                        assert(self@ =~= to_state(old(self)@, PState::Ground));
                    }
                } else if b < 0x20 {
                    self.draw_char(b as char);
                } else if b <= 0x2F {
                } else if b <= 0x7E {
                    self.parser.state = PState::Ground;
                    proof {
                        assert(self@ =~= to_state(old(self)@, PState::Ground));
                    }
                } else {
                }
            },
            PState::Osc => {
                if b == 0x07 || b == 0x18 || b == 0x1A {
                    self.parser.state = PState::Ground;
                    proof {
                        assert(self@ =~= to_state(old(self)@, PState::Ground));
                    }
                } else if b == 0x1B {
                    self.parser.state = PState::Escape;
                    proof {
                        assert(self@ =~= to_state(old(self)@, PState::Escape));
                    }
                } else {
                }
            },
            PState::Csi => {
                if b == 0x1B {
                    self.parser.state = PState::Escape;
                    proof {
                        assert(self@ =~= to_state(old(self)@, PState::Escape));
                    }
                } else if b == 0x18 || b == 0x1A {
                    self.parser.state = PState::Ground;
                    proof {
                        assert(self@ =~= to_state(old(self)@, PState::Ground));
                    }
                } else if b < 0x20 {
                    self.draw_char(b as char);
                } else if 0x30 <= b && b <= 0x39 {
                    let d: u16 = (b - 0x30) as u16;
                    let cur = self.parser.cur;
                    self.parser.cur = if cur <= (0xFFFF - d) / 10 {
                        cur * 10 + d
                    } else {
                        0xFFFF
                    };
                    self.parser.seen = true;
                    proof {
                        assert(self@ =~= step_csi_v(old(self)@, b));
                    }
                } else if b == 0x3B {
                    if self.parser.params.len() < 16 {
                        let cur = self.parser.cur;
                        self.parser.params.push(cur);
                    }
                    self.parser.cur = 0;
                    self.parser.seen = true;
                    proof {
                        assert(self@ =~= step_csi_v(old(self)@, b));
                    }
                } else if 0x40 <= b && b <= 0x7E {
                    if self.parser.seen {
                        if self.parser.params.len() < 16 {
                            let cur = self.parser.cur;
                            self.parser.params.push(cur);
                        }
                    }
                    self.csi_dispatch(b);
                } else {
                }
            },
            PState::Utf8 => {
                proof {
                    lemma_mask_bounds(b);
                }
                if 0x80 <= b && b < 0xC0 {
                    let code: u32 = self.parser.ucode * 64 + ((b & 0x3F) as u32);
                    if self.parser.uneed == 1 {
                        self.parser.state = PState::Ground;
                        let len = self.parser.ulen;
                        let c: char = if code >= (if len == 2 {
                            0x80
                        } else if len == 3 {
                            0x800
                        } else {
                            0x10000
                        }) {
                            match char_from_u32(code) {
                                Some(c) => c,
                                None => '\u{FFFD}',
                            }
                        } else {
                            '\u{FFFD}'
                        };
                        proof {
                            assert(c == decoded_char(code, len));
                            assert(self@ =~= to_state(old(self)@, PState::Ground));
                        }
                        self.draw_char(c);
                    } else {
                        self.parser.ucode = code;
                        self.parser.uneed = self.parser.uneed - 1;
                        proof {
                            assert(self@ =~= step_utf8_v(old(self)@, b));
                        }
                    }
                } else {
                    self.parser.state = PState::Ground;
                    self.draw_char('\u{FFFD}');
                    self.ground_byte(b);
                }
            },
        }
    }

    /// Process one byte from the ground state, as `step_ground_v` states.
    fn ground_byte(&mut self, b: u8)
        requires
            old(self).wf(),
            old(self)@.p.state == PState::Ground,
        ensures
            final(self)@ == step_ground_v(old(self)@, b),
            final(self).wf(),
    {
        proof {
            lemma_mask_bounds(b);
        }
        if b == 0x1B {
            self.parser.state = PState::Escape;
            proof {
                assert(self@ =~= to_state(old(self)@, PState::Escape));
            }
        } else if b < 0x80 {
            self.draw_char(b as char);
        } else if b < 0xC0 {
            self.draw_char('\u{FFFD}');
        } else if b < 0xE0 {
            self.parser.state = PState::Utf8;
            self.parser.ucode = (b & 0x1F) as u32;
            self.parser.uneed = 1;
            self.parser.ulen = 2;
            proof {
                assert(self@ =~= start_utf8_v(old(self)@, (b & 0x1F) as u32, 1, 2));
            }
        } else if b < 0xF0 {
            self.parser.state = PState::Utf8;
            self.parser.ucode = (b & 0x0F) as u32;
            self.parser.uneed = 2;
            self.parser.ulen = 3;
            proof {
                assert(self@ =~= start_utf8_v(old(self)@, (b & 0x0F) as u32, 2, 3));
            }
        } else if b < 0xF8 {
            self.parser.state = PState::Utf8;
            self.parser.ucode = (b & 0x07) as u32;
            self.parser.uneed = 3;
            self.parser.ulen = 4;
            proof {
                assert(self@ =~= start_utf8_v(old(self)@, (b & 0x07) as u32, 3, 4));
            }
        } else {
            self.draw_char('\u{FFFD}');
        }
    }

    /// Feed raw output bytes from the session into the emulator. The
    /// parser state persists across calls, so a byte sequence may be split
    /// at any boundary without changing the final state.
    pub fn on_bytes(&mut self, bytes: &[u8])
        requires
            old(self).wf(),
        ensures
            final(self)@ == feed_v(old(self)@, bytes@),
            final(self).wf(),
    {
        let n: usize = bytes.len();
        let mut i: usize = 0;
        while i < n
            invariant
                old(self).wf(),
                n == bytes@.len(),
                i <= n,
                self@ == feed_v(old(self)@, bytes@.subrange(0, i as int)),
                self.wf(),
            decreases n - i,
        {
            let b = bytes[i];
            self.step_byte(b);
            i = i + 1;
            proof {
                assert(bytes@.subrange(0, i as int) =~= bytes@.subrange(0, i as int - 1).push(b));
                lemma_feed_snoc(old(self)@, bytes@.subrange(0, i as int - 1), b);
            }
        }
        proof {
            assert(bytes@.subrange(0, n as int) =~= bytes@);
        }
    }
}

} // verus!
