//! The authoritative terminal grid of a ratatui session.
//!
//! The app owns rendering; ratatui's buffer diff means the service only ever
//! receives changed cells. They are applied to a [`Screen`], which an agent
//! reads as text and a viewer receives as a snapshot of its non-blank cells.

use crate::protocol::{AppMessage, CellOp, Color, Cursor, KeyCode, KeyEvent};
use crate::text::{chars_of, is_white_space, push_char, string_of, trim_end, white_space};
use vstd::prelude::*;

verus! {

/// One cell of the grid.
#[derive(Clone, Debug, PartialEq, Eq)]
pub struct Cell {
    pub symbol: String,
    pub fg: Color,
    pub bg: Color,
    pub mods: u16,
}

/// What a cell shows: its symbol's characters, colors and modifier bits.
pub type CellView = (Seq<char>, Color, Color, u16);

pub open spec fn cell_view(c: Cell) -> CellView {
    (c.symbol@, c.fg, c.bg, c.mods)
}

/// A blank cell: one space, default colors, no modifiers.
pub open spec fn blank_view() -> CellView {
    (seq![' '], Color::Reset, Color::Reset, 0u16)
}

/// What applying an operation writes into its cell.
pub open spec fn op_view(op: CellOp) -> CellView {
    (op.symbol@, op.fg, op.bg, op.mods)
}

impl Cell {
    /// A cell that carries no visible information.
    pub fn blank() -> (c: Cell)
        ensures
            cell_view(c) == blank_view(),
    {
        let mut symbol = String::new();
        push_char(&mut symbol, ' ');
        assert(symbol@ =~= seq![' ']);
        Cell { symbol, fg: Color::Reset, bg: Color::Reset, mods: 0 }
    }

    /// A cell that carries no visible information, so snapshots can omit it.
    pub fn is_blank(&self) -> (b: bool)
        ensures
            b == (cell_view(*self) == blank_view()),
    {
        let chars = chars_of(self.symbol.as_str());
        let space = chars.len() == 1 && chars[0] == ' ';
        proof {
            if space {
                assert(self.symbol@ =~= seq![' ']);
            }
            if self.symbol@ == seq![' '] {
                assert(chars@ == seq![' ']);
            }
        }
        space && self.fg == Color::Reset && self.bg == Color::Reset && self.mods == 0
    }
}

/// Columns, rows, the cells in row-major order, and the cursor.
pub type ScreenView = (u16, u16, Seq<CellView>, Cursor);

/// The position of cell (`x`, `y`) in row-major order.
pub open spec fn grid_index(cols: u16, x: int, y: int) -> int {
    y * cols + x
}

/// A consistent grid: both dimensions at least one, and one cell for each
/// column of each row.
pub open spec fn screen_wf(v: ScreenView) -> bool {
    &&& v.0 >= 1
    &&& v.1 >= 1
    &&& v.2.len() == v.0 as int * v.1 as int
}

/// A grid of the given size with every cell blank.
pub open spec fn all_blank(grid: Seq<CellView>) -> bool {
    forall|i: int| 0 <= i < grid.len() ==> #[trigger] grid[i] == blank_view()
}

/// The symbols of `n` cells starting at `start`, concatenated.
pub open spec fn row_chars(grid: Seq<CellView>, start: int, n: nat) -> Seq<char>
    decreases n,
{
    if n == 0 {
        Seq::empty()
    } else {
        row_chars(grid, start, (n - 1) as nat) + grid[start + n - 1].0
    }
}

/// The first `rows` rows as text: each row's symbols with trailing blanks
/// trimmed, followed by a newline.
pub open spec fn grid_text(grid: Seq<CellView>, cols: nat, rows: nat) -> Seq<char>
    decreases rows,
{
    if rows == 0 {
        Seq::empty()
    } else {
        grid_text(grid, cols, (rows - 1) as nat) + trim_end(
            row_chars(grid, (rows - 1) * cols, cols),
        ) + seq!['\n']
    }
}

/// A dimension as the grid adopts it: never zero.
pub open spec fn at_least_one(n: u16) -> u16 {
    if n == 0 {
        1
    } else {
        n
    }
}

/// The authoritative terminal grid.
#[derive(Clone, Debug)]
pub struct Screen {
    cols: u16,
    rows: u16,
    cells: Vec<Cell>,
    cursor: Cursor,
}

impl View for Screen {
    type V = ScreenView;

    closed spec fn view(&self) -> ScreenView {
        (self.cols, self.rows, self.cells@.map_values(|c: Cell| cell_view(c)), self.cursor)
    }
}

pub(crate) proof fn lemma_index_in_grid(cols: u16, rows: u16, x: int, y: int)
    requires
        0 <= x < cols,
        0 <= y < rows,
    ensures
        0 <= grid_index(cols, x, y) < cols as int * rows as int,
        y * cols + cols <= cols as int * rows as int,
{
    assert(0 <= y * cols) by (nonlinear_arith)
        requires
            0 <= y,
            0 <= cols,
    ;
    assert((y + 1) * cols <= rows * cols) by (nonlinear_arith)
        requires
            y + 1 <= rows,
            0 <= cols,
    ;
    assert(y * cols + cols == (y + 1) * cols) by (nonlinear_arith);
    assert(rows * cols == cols * rows) by (nonlinear_arith);
}

proof fn lemma_trim_blank_row(grid: Seq<CellView>, start: int, n: nat)
    requires
        0 <= start,
        start + n <= grid.len(),
        all_blank(grid),
    ensures
        trim_end(row_chars(grid, start, n)) == Seq::<char>::empty(),
    decreases n,
{
    if n > 0 {
        assert(grid[start + n - 1] == blank_view());
        let prev = row_chars(grid, start, (n - 1) as nat);
        let row = row_chars(grid, start, n);
        assert(row == prev + seq![' ']);
        assert(row.last() == ' ');
        assert(row.drop_last() =~= prev);
        assert(is_white_space(' '));
        lemma_trim_blank_row(grid, start, (n - 1) as nat);
    }
}

/// The text of a blank grid is one empty line per row.
pub proof fn lemma_blank_grid_text(grid: Seq<CellView>, cols: nat, rows: nat)
    requires
        grid.len() >= cols * rows,
        all_blank(grid),
    ensures
        grid_text(grid, cols, rows) == Seq::new(rows, |i: int| '\n'),
    decreases rows,
{
    if rows > 0 {
        assert((rows - 1) * cols + cols == cols * rows) by (nonlinear_arith);
        assert(0 <= (rows - 1) * cols) by (nonlinear_arith)
            requires
                rows >= 1,
        ;
        lemma_trim_blank_row(grid, (rows - 1) * cols, cols);
        assert(cols * ((rows - 1) as nat) == (rows - 1) * cols) by (nonlinear_arith)
            requires
                rows >= 1,
        ;
        lemma_blank_grid_text(grid, cols, (rows - 1) as nat);
        assert(grid_text(grid, cols, rows) =~= Seq::new(rows, |i: int| '\n'));
    }
}

/// A vector of `n` blank cells.
fn blank_cells(n: usize) -> (cells: Vec<Cell>)
    ensures
        cells.len() == n,
        all_blank(cells@.map_values(|c: Cell| cell_view(c))),
{
    let mut cells: Vec<Cell> = Vec::new();
    let mut i: usize = 0;
    while i < n
        invariant
            i <= n,
            cells.len() == i,
            forall|k: int| 0 <= k < i ==> cell_view(#[trigger] cells@[k]) == blank_view(),
        decreases n - i,
    {
        cells.push(Cell::blank());
        i = i + 1;
    }
    cells
}

/// The characters with their trailing whitespace removed.
fn trim_end_chars(line: &Vec<char>) -> (res: Vec<char>)
    ensures
        res@ == trim_end(line@),
{
    let mut n = line.len();
    assert(line@.take(n as int) =~= line@);
    while n > 0 && white_space(line[n - 1])
        invariant
            n <= line.len(),
            trim_end(line@.take(n as int)) == trim_end(line@),
        decreases n,
    {
        proof {
            assert(line@.take(n as int).drop_last() =~= line@.take(n - 1));
        }
        n = n - 1;
    }
    let mut out: Vec<char> = Vec::new();
    let mut i: usize = 0;
    while i < n
        invariant
            i <= n <= line.len(),
            out@ == line@.take(i as int),
        decreases n - i,
    {
        out.push(line[i]);
        i = i + 1;
        assert(out@ =~= line@.take(i as int));
    }
    out
}

impl Screen {
    /// A blank grid of the given size; a zero dimension becomes one.
    pub fn new(cols: u16, rows: u16) -> (s: Self)
        ensures
            screen_wf(s@),
            s@.0 == at_least_one(cols),
            s@.1 == at_least_one(rows),
            all_blank(s@.2),
            s@.3 == (Cursor { x: 0, y: 0, visible: false }),
    {
        let cols = if cols == 0 { 1 } else { cols };
        let rows = if rows == 0 { 1 } else { rows };
        assert(cols as int * rows as int <= 0xffff * 0xffff) by (nonlinear_arith)
            requires
                cols <= 0xffff,
                rows <= 0xffff,
        ;
        let cells = blank_cells(cols as usize * rows as usize);
        Screen { cols, rows, cells, cursor: Cursor { x: 0, y: 0, visible: false } }
    }

    pub fn cols(&self) -> (c: u16)
        ensures
            c == self@.0,
    {
        self.cols
    }

    pub fn rows(&self) -> (r: u16)
        ensures
            r == self@.1,
    {
        self.rows
    }

    pub fn cursor(&self) -> (c: Cursor)
        ensures
            c == self@.3,
    {
        self.cursor
    }

    /// Apply one changed cell. Out-of-bounds cells are ignored so a
    /// misbehaving app cannot grow the grid behind the service's back.
    pub fn apply(&mut self, op: &CellOp)
        requires
            screen_wf(old(self)@),
        ensures
            keeps_size(old(self)@, final(self)@),
            screen_wf(final(self)@),
            final(self)@.0 == old(self)@.0,
            final(self)@.1 == old(self)@.1,
            final(self)@.3 == old(self)@.3,
            final(self)@.2 == (if op.x < old(self)@.0 && op.y < old(self)@.1 {
                old(self)@.2.update(grid_index(old(self)@.0, op.x as int, op.y as int), op_view(*op))
            } else {
                old(self)@.2
            }),
    {
        if op.x >= self.cols || op.y >= self.rows {
            return;
        }
        proof {
            lemma_index_in_grid(self.cols, self.rows, op.x as int, op.y as int);
            assert(self.cells.len() == self.cols as int * self.rows as int);
        }
        let index = op.y as usize * self.cols as usize + op.x as usize;
        let cell = Cell { symbol: op.symbol.clone(), fg: op.fg, bg: op.bg, mods: op.mods };
        let ghost before = self.cells@;
        self.cells.set(index, cell);
        assert(self.cells@.map_values(|c: Cell| cell_view(c)) =~= before.map_values(
            |c: Cell| cell_view(c),
        ).update(index as int, op_view(*op)));
    }

    pub fn set_cursor(&mut self, cursor: Cursor)
        requires
            screen_wf(old(self)@),
        ensures
            keeps_size(old(self)@, final(self)@),
            screen_wf(final(self)@),
            final(self)@ == (old(self)@.0, old(self)@.1, old(self)@.2, cursor),
    {
        self.cursor = cursor;
    }

    /// Reset every cell and the cursor.
    pub fn clear(&mut self)
        requires
            screen_wf(old(self)@),
        ensures
            keeps_size(old(self)@, final(self)@),
            screen_wf(final(self)@),
            final(self)@.0 == old(self)@.0,
            final(self)@.1 == old(self)@.1,
            all_blank(final(self)@.2),
            final(self)@.3 == (Cursor { x: 0, y: 0, visible: false }),
    {
        let n = self.cells.len();
        let mut i: usize = 0;
        while i < n
            invariant
                i <= n,
                self.cells.len() == n,
                n == self.cols as int * self.rows as int,
                self.cols == old(self).cols,
                self.rows == old(self).rows,
                forall|k: int| 0 <= k < i ==> cell_view(#[trigger] self.cells@[k]) == blank_view(),
            decreases n - i,
        {
            self.cells.set(i, Cell::blank());
            i = i + 1;
        }
        self.cursor = Cursor { x: 0, y: 0, visible: false };
    }

    /// Resize to a new grid, clearing it: neither side has meaningful content
    /// to reflow, and the app redraws in full after a resize.
    pub fn resize(&mut self, cols: u16, rows: u16)
        ensures
            screen_wf(final(self)@),
            final(self)@.0 == at_least_one(cols),
            final(self)@.1 == at_least_one(rows),
            all_blank(final(self)@.2),
            final(self)@.3 == (Cursor { x: 0, y: 0, visible: false }),
    {
        *self = Self::new(cols, rows);
    }

    /// The non-blank cells, in row-major order, with their positions: the
    /// content of a snapshot. Together with the dimensions and the cursor a
    /// snapshot is idempotent, which is what lets a viewer recover from a
    /// dropped frame by simply receiving the next one.
    pub fn snapshot_cells(&self) -> (res: Vec<CellOp>)
        requires
            screen_wf(self@),
        ensures
            res@.map_values(|op: CellOp| snapshot_view(op)) == snapshot_rows(
                self@.2,
                self@.0,
                self@.1 as nat,
            ),
    {
        let ghost grid = self@.2;
        let mut out: Vec<CellOp> = Vec::new();
        let mut y: u16 = 0;
        while y < self.rows
            invariant
                y <= self.rows,
                screen_wf(self@),
                grid == self@.2,
                self.cells.len() == grid.len(),
                out@.map_values(|op: CellOp| snapshot_view(op)) == snapshot_rows(
                    grid,
                    self.cols,
                    y as nat,
                ),
            decreases self.rows - y,
        {
            let ghost row_start = out@.map_values(|op: CellOp| snapshot_view(op));
            let mut x: u16 = 0;
            while x < self.cols
                invariant
                    x <= self.cols,
                    y < self.rows,
                    screen_wf(self@),
                    grid == self@.2,
                    self.cells.len() == grid.len(),
                    out@.map_values(|op: CellOp| snapshot_view(op)) == row_start + snapshot_row(
                        grid,
                        self.cols,
                        y,
                        x as nat,
                    ),
                decreases self.cols - x,
            {
                proof {
                    lemma_index_in_grid(self.cols, self.rows, x as int, y as int);
                }
                let index = y as usize * self.cols as usize + x as usize;
                let cell = &self.cells[index];
                let ghost before = out@;
                proof {
                    assert(grid[index as int] == cell_view(self.cells@[index as int]));
                }
                if !cell.is_blank() {
                    out.push(
                        CellOp {
                            x,
                            y,
                            symbol: cell.symbol.clone(),
                            fg: cell.fg,
                            bg: cell.bg,
                            mods: cell.mods,
                        },
                    );
                    assert(out@.map_values(|op: CellOp| snapshot_view(op)) =~= before.map_values(
                        |op: CellOp| snapshot_view(op),
                    ).push((x, y, grid[index as int])));
                } else {
                    assert(out@ == before);
                }
                x = x + 1;
                proof {
                    let prev = snapshot_row(grid, self.cols, y, (x - 1) as nat);
                    assert(snapshot_row(grid, self.cols, y, x as nat) == prev + if grid[index as int]
                        == blank_view() {
                        Seq::<SnapshotCell>::empty()
                    } else {
                        seq![((x - 1) as u16, y, grid[index as int])]
                    });
                    assert(out@.map_values(|op: CellOp| snapshot_view(op)) =~= row_start
                        + snapshot_row(grid, self.cols, y, x as nat));
                }
            }
            y = y + 1;
            proof {
                assert(snapshot_rows(grid, self.cols, y as nat) == snapshot_rows(
                    grid,
                    self.cols,
                    (y - 1) as nat,
                ) + snapshot_row(grid, self.cols, (y - 1) as u16, self.cols as nat));
            }
        }
        out
    }

    /// The visible grid as plain text, one line per row with trailing blanks
    /// trimmed, so an agent can read the screen without a terminal emulator.
    pub fn text(&self) -> (res: String)
        requires
            screen_wf(self@),
        ensures
            res@ == grid_text(self@.2, self@.0 as nat, self@.1 as nat),
    {
        let ghost grid = self@.2;
        let cols = self.cols as usize;
        let rows = self.rows as usize;
        let mut out: Vec<char> = Vec::new();
        let mut row: usize = 0;
        while row < rows
            invariant
                row <= rows,
                screen_wf(self@),
                self.cells.len() == grid.len(),
                cols == self.cols,
                rows == self.rows,
                grid == self@.2,
                grid.len() == cols * rows,
                out@ == grid_text(grid, cols as nat, row as nat),
            decreases rows - row,
        {
            proof {
                lemma_index_in_grid(self.cols, self.rows, 0, row as int);
            }
            let start = row * cols;
            let mut line: Vec<char> = Vec::new();
            let mut col: usize = 0;
            while col < cols
                invariant
                    col <= cols,
                    start + cols <= grid.len(),
                    start == row * cols,
                    grid == self@.2,
                    grid.len() == self.cells.len(),
                    line@ == row_chars(grid, start as int, col as nat),
                decreases cols - col,
            {
                let symbol = chars_of(self.cells[start + col].symbol.as_str());
                let ghost before = line@;
                let mut k: usize = 0;
                while k < symbol.len()
                    invariant
                        k <= symbol.len(),
                        line@ == before + symbol@.take(k as int),
                    decreases symbol.len() - k,
                {
                    line.push(symbol[k]);
                    k = k + 1;
                    assert(line@ =~= before + symbol@.take(k as int));
                }
                proof {
                    assert(symbol@.take(symbol.len() as int) =~= symbol@);
                    assert(grid[start + col] == cell_view(self.cells@[start + col]));
                }
                col = col + 1;
            }
            let trimmed = trim_end_chars(&line);
            let ghost before = out@;
            let mut k: usize = 0;
            while k < trimmed.len()
                invariant
                    k <= trimmed.len(),
                    out@ == before + trimmed@.take(k as int),
                decreases trimmed.len() - k,
            {
                out.push(trimmed[k]);
                k = k + 1;
                assert(out@ =~= before + trimmed@.take(k as int));
            }
            out.push('\n');
            proof {
                assert(trimmed@.take(trimmed.len() as int) =~= trimmed@);
                assert(out@ =~= grid_text(grid, cols as nat, (row + 1) as nat));
            }
            row = row + 1;
        }
        string_of(out.as_slice())
    }
}

/// A listed cell of a snapshot: its position and what it shows.
pub type SnapshotCell = (u16, u16, CellView);

/// The non-blank cells among the first `n` cells of row `y`, left to right.
pub open spec fn snapshot_row(grid: Seq<CellView>, cols: u16, y: u16, n: nat) -> Seq<SnapshotCell>
    decreases n,
{
    if n == 0 {
        Seq::empty()
    } else {
        let x = (n - 1) as int;
        let cell = grid[grid_index(cols, x, y as int)];
        snapshot_row(grid, cols, y, (n - 1) as nat) + if cell == blank_view() {
            Seq::empty()
        } else {
            seq![(x as u16, y, cell)]
        }
    }
}

/// The non-blank cells of the first `rows` rows, in row-major order.
pub open spec fn snapshot_rows(grid: Seq<CellView>, cols: u16, rows: nat) -> Seq<SnapshotCell>
    decreases rows,
{
    if rows == 0 {
        Seq::empty()
    } else {
        snapshot_rows(grid, cols, (rows - 1) as nat) + snapshot_row(
            grid,
            cols,
            (rows - 1) as u16,
            cols as nat,
        )
    }
}

pub open spec fn snapshot_view(op: CellOp) -> SnapshotCell {
    (op.x, op.y, op_view(op))
}

proof fn lemma_snapshot_row_in_range(grid: Seq<CellView>, cols: u16, y: u16, n: nat)
    requires
        n <= cols,
    ensures
        forall|k: int|
            0 <= k < snapshot_row(grid, cols, y, n).len() ==> #[trigger] snapshot_row(grid, cols, y, n)[k].0
                < n && snapshot_row(grid, cols, y, n)[k].1 == y,
    decreases n,
{
    if n > 0 {
        let m = (n - 1) as nat;
        lemma_snapshot_row_in_range(grid, cols, y, m);
        let x = (n - 1) as int;
        assert((x as u16) as int == x);
        let a = snapshot_row(grid, cols, y, m);
        assert forall|k: int| 0 <= k < snapshot_row(grid, cols, y, n).len() implies #[trigger] snapshot_row(grid, cols, y, n)[k].0
            < n && snapshot_row(grid, cols, y, n)[k].1 == y by {
            if k < a.len() {
                assert(snapshot_row(grid, cols, y, n)[k] == a[k]);
            }
        }
    }
}

/// Every cell a snapshot lists lies inside the grid.
pub proof fn lemma_snapshot_in_range(grid: Seq<CellView>, cols: u16, rows: nat)
    requires
        rows <= 0xffff,
    ensures
        forall|k: int|
            0 <= k < snapshot_rows(grid, cols, rows).len() ==> #[trigger] snapshot_rows(grid, cols, rows)[k].0
                < cols && snapshot_rows(grid, cols, rows)[k].1 < rows,
    decreases rows,
{
    if rows > 0 {
        let r = (rows - 1) as nat;
        lemma_snapshot_in_range(grid, cols, r);
        lemma_snapshot_row_in_range(grid, cols, r as u16, cols as nat);
        let a = snapshot_rows(grid, cols, r);
        let b = snapshot_row(grid, cols, r as u16, cols as nat);
        assert forall|k: int| 0 <= k < snapshot_rows(grid, cols, rows).len() implies #[trigger] snapshot_rows(grid, cols, rows)[k].0
            < cols && snapshot_rows(grid, cols, rows)[k].1 < rows by {
            if k < a.len() {
                assert(snapshot_rows(grid, cols, rows)[k] == a[k]);
            } else {
                assert(snapshot_rows(grid, cols, rows)[k] == b[k - a.len()]);
            }
        }
    }
}

/// A grid of `cols` by `rows` as `new` or `resize` makes it.
pub open spec fn sized(v: ScreenView, cols: u16, rows: u16) -> bool {
    screen_wf(v) && v.0 == at_least_one(cols) && v.1 == at_least_one(rows)
}

/// One call that keeps the grid's size and consistency: `apply`,
/// `set_cursor`, `clear`, `apply_frame`, and a `handle` of anything but a
/// resize each state it; `text` and `snapshot_cells` change nothing.
pub open spec fn keeps_size(before: ScreenView, after: ScreenView) -> bool {
    screen_wf(after) && after.0 == before.0 && after.1 == before.1
}

/// The size a grid is made or resized to holds through any sequence of calls
/// that follows, is never zero, and every snapshot along the way lists only
/// cells inside it.
pub proof fn lemma_size_is_kept(trace: Seq<ScreenView>, cols: u16, rows: u16)
    requires
        trace.len() > 0,
        sized(trace[0], cols, rows),
        forall|i: int| 0 < i < trace.len() ==> keeps_size(trace[i - 1], #[trigger] trace[i]),
    ensures
        forall|i: int|
            0 <= i < trace.len() ==> {
                &&& sized(#[trigger] trace[i], cols, rows)
                &&& trace[i].0 >= 1
                &&& trace[i].1 >= 1
                &&& forall|k: int|
                    0 <= k < snapshot_rows(trace[i].2, trace[i].0, trace[i].1 as nat).len() ==> {
                        let c = #[trigger] snapshot_rows(trace[i].2, trace[i].0, trace[i].1 as nat)[k];
                        c.0 < trace[i].0 && c.1 < trace[i].1
                    }
            },
    decreases trace.len(),
{
    if trace.len() > 1 {
        lemma_size_is_kept(trace.drop_last(), cols, rows);
        let n = trace.len() - 1;
        assert(trace.drop_last()[n - 1] == trace[n - 1]);
        assert(keeps_size(trace[n - 1], trace[n]));
    }
    assert forall|i: int| 0 <= i < trace.len() implies {
        &&& sized(#[trigger] trace[i], cols, rows)
        &&& trace[i].0 >= 1
        &&& trace[i].1 >= 1
        &&& forall|k: int|
            0 <= k < snapshot_rows(trace[i].2, trace[i].0, trace[i].1 as nat).len() ==> {
                let c = #[trigger] snapshot_rows(trace[i].2, trace[i].0, trace[i].1 as nat)[k];
                c.0 < trace[i].0 && c.1 < trace[i].1
            }
    } by {
        if i < trace.len() - 1 {
            assert(trace.drop_last()[i] == trace[i]);
        }
        lemma_snapshot_in_range(trace[i].2, trace[i].0, trace[i].1 as nat);
    }
}

/// Map a typed character to the key the app receives.
pub fn key_code_for(ch: char) -> (code: KeyCode)
    ensures
        code == (if ch == '\n' || ch == '\r' {
            KeyCode::Enter
        } else if ch == '\t' {
            KeyCode::Tab
        } else {
            KeyCode::Char(ch)
        }),
{
    if ch == '\n' || ch == '\r' {
        KeyCode::Enter
    } else if ch == '\t' {
        KeyCode::Tab
    } else {
        KeyCode::Char(ch)
    }
}


/// The grid after one changed cell: written where it falls inside the grid,
/// ignored elsewhere.
pub open spec fn apply_op(v: ScreenView, op: CellOp) -> ScreenView {
    if op.x < v.0 && op.y < v.1 {
        (v.0, v.1, v.2.update(grid_index(v.0, op.x as int, op.y as int), op_view(op)), v.3)
    } else {
        v
    }
}

/// The grid after a frame's changed cells, in order.
pub open spec fn apply_ops(v: ScreenView, ops: Seq<CellOp>) -> ScreenView
    decreases ops.len(),
{
    if ops.len() == 0 {
        v
    } else {
        apply_op(apply_ops(v, ops.drop_last()), ops.last())
    }
}

/// Writing the same cell twice leaves the grid as writing it once, so a
/// frame re-sent after a lost acknowledgement does no harm.
pub proof fn lemma_apply_is_idempotent(v: ScreenView, op: CellOp)
    requires
        screen_wf(v),
    ensures
        apply_op(apply_op(v, op), op) == apply_op(v, op),
{
    if op.x < v.0 && op.y < v.1 {
        lemma_index_in_grid(v.0, v.1, op.x as int, op.y as int);
        let i = grid_index(v.0, op.x as int, op.y as int);
        assert(v.2.update(i, op_view(op)).update(i, op_view(op)) =~= v.2.update(i, op_view(op)));
    }
}

/// Cells outside the grid never change it: a misbehaving app cannot grow or
/// corrupt the grid.
pub proof fn lemma_out_of_bounds_is_ignored(v: ScreenView, op: CellOp)
    requires
        op.x >= v.0 || op.y >= v.1,
    ensures
        apply_op(v, op) == v,
{
}

/// Whether a message from the app changes the grid.
pub open spec fn changes_grid(message: AppMessage) -> bool {
    message is Frame || message is Clear || message is Resize
}

/// What one message from the app does to the grid: a frame applies its
/// cells and then its cursor, a clear blanks the grid, a resize blanks it at
/// the new size; those change the grid, and nothing else touches it.
pub open spec fn handled(before: ScreenView, message: AppMessage, after: ScreenView, changed: bool) -> bool {
    match message {
        AppMessage::Frame { cells, cursor } => changed && after == ({
            let v = apply_ops(before, cells@);
            (v.0, v.1, v.2, cursor)
        }),
        AppMessage::Clear => changed && after.0 == before.0 && after.1 == before.1 && all_blank(after.2)
            && after.3 == (Cursor { x: 0, y: 0, visible: false }),
        AppMessage::Resize { cols, rows } => changed && after.0 == at_least_one(cols) && after.1
            == at_least_one(rows) && all_blank(after.2) && after.3 == (Cursor { x: 0, y: 0, visible: false }),
        _ => !changed && after == before,
    }
}

impl Screen {
    /// Apply one frame: its changed cells in order, then its cursor.
    pub fn apply_frame(&mut self, cells: &Vec<CellOp>, cursor: Cursor)
        requires
            screen_wf(old(self)@),
        ensures
            keeps_size(old(self)@, final(self)@),
            screen_wf(final(self)@),
            final(self)@ == ({
                let v = apply_ops(old(self)@, cells@);
                (v.0, v.1, v.2, cursor)
            }),
    {
        let mut i: usize = 0;
        while i < cells.len()
            invariant
                i <= cells.len(),
                screen_wf(self@),
                self@ == apply_ops(old(self)@, cells@.take(i as int)),
                self@.0 == old(self)@.0,
                self@.1 == old(self)@.1,
            decreases cells.len() - i,
        {
            self.apply(&cells[i]);
            proof {
                assert(cells@.take(i + 1).drop_last() =~= cells@.take(i as int));
            }
            i = i + 1;
        }
        assert(cells@.take(cells.len() as int) =~= cells@);
        self.set_cursor(cursor);
    }

    /// Apply one message from the app to the grid. Returns whether the grid
    /// changed, so viewers get a fresh snapshot.
    pub fn handle(&mut self, message: &AppMessage) -> (changed: bool)
        requires
            screen_wf(old(self)@),
        ensures
            screen_wf(final(self)@),
            handled(old(self)@, *message, final(self)@, changed),
    {
        match message {
            AppMessage::Frame { cells, cursor } => {
                self.apply_frame(cells, *cursor);
                true
            },
            AppMessage::Clear => {
                self.clear();
                true
            },
            AppMessage::Resize { cols, rows } => {
                self.resize(*cols, *rows);
                true
            },
            _ => false,
        }
    }
}

/// A session's grid as its viewers see it: what the app drew, and whether
/// anyone is watching. A changed grid is published only while streaming.
pub struct Mirror {
    screen: Screen,
    streaming: bool,
}

impl View for Mirror {
    type V = (ScreenView, bool);

    closed spec fn view(&self) -> (ScreenView, bool) {
        (self.screen@, self.streaming)
    }
}

impl Mirror {
    pub closed spec fn wf(&self) -> bool {
        screen_wf(self.screen@)
    }

    /// A mirror of `screen`, with nobody watching yet.
    pub fn new(screen: Screen) -> (m: Self)
        requires
            screen_wf(screen@),
        ensures
            m.wf(),
            m@ == (screen@, false),
    {
        Mirror { screen, streaming: false }
    }

    pub fn screen(&self) -> (s: &Screen)
        ensures
            s@ == self@.0,
    {
        &self.screen
    }

    pub fn streaming(&self) -> (b: bool)
        ensures
            b == self@.1,
    {
        self.streaming
    }

    /// Turn streaming on or off. Turning it on publishes the grid at once, so
    /// a viewer of a screen that no longer changes still sees it. Returns
    /// whether the grid is published.
    pub fn set_streaming(&mut self, on: bool) -> (publish: bool)
        requires
            old(self).wf(),
        ensures
            final(self).wf(),
            final(self)@ == (old(self)@.0, on),
            publish == on,
    {
        self.streaming = on;
        on
    }

    /// Apply one message from the app. Returns whether the changed grid is
    /// published: only while streaming, and only when the grid changed.
    pub fn apply(&mut self, message: &AppMessage) -> (publish: bool)
        requires
            old(self).wf(),
        ensures
            final(self).wf(),
            final(self)@.1 == old(self)@.1,
            handled(old(self)@.0, *message, final(self)@.0, changes_grid(*message)),
            publish == (changes_grid(*message) && old(self)@.1),
    {
        let changed = self.screen.handle(message);
        changed && self.streaming
    }
}

/// The messages that type `text` into a ratatui app: one key press per
/// character, line breaks as Enter and tabs as Tab.
pub fn text_keys(text: &str) -> (keys: Vec<KeyEvent>)
    ensures
        keys.len() == text@.len(),
        forall|i: int|
            0 <= i < keys.len() ==> #[trigger] keys@[i] == (KeyEvent {
                code: if text@[i] == '\n' || text@[i] == '\r' {
                    KeyCode::Enter
                } else if text@[i] == '\t' {
                    KeyCode::Tab
                } else {
                    KeyCode::Char(text@[i])
                },
                mods: 0,
            }),
{
    let chars = chars_of(text);
    let mut keys: Vec<KeyEvent> = Vec::new();
    let mut i: usize = 0;
    while i < chars.len()
        invariant
            i <= chars.len(),
            chars@ == text@,
            keys.len() == i,
            forall|j: int|
                0 <= j < i ==> #[trigger] keys@[j] == (KeyEvent {
                    code: if text@[j] == '\n' || text@[j] == '\r' {
                        KeyCode::Enter
                    } else if text@[j] == '\t' {
                        KeyCode::Tab
                    } else {
                        KeyCode::Char(text@[j])
                    },
                    mods: 0,
                }),
        decreases chars.len() - i,
    {
        keys.push(KeyEvent { code: key_code_for(chars[i]), mods: 0 });
        i = i + 1;
    }
    keys
}


/// A grid dimension with zero raised to one.
pub fn at_least_one_cell(n: u16) -> (r: u16)
    ensures
        r == at_least_one(n),
{
    if n == 0 {
        1
    } else {
        n
    }
}

} // verus!
