use vstd::prelude::*;
use crate::terminal::cell::{Cell, blank_cell};

verus! {

/// Cursor position (0-based) and visibility.
#[derive(Clone, Copy, PartialEq, Eq, Structural, Debug)]
pub struct Cursor {
    pub row: usize,
    pub col: usize,
    pub visible: bool,
}

/// The home cursor: row 0, column 0, visible.
pub open spec fn home_cursor() -> Cursor {
    Cursor { row: 0, col: 0, visible: true }
}

impl Default for Cursor {
    fn default() -> (c: Self)
        ensures
            c == home_cursor(),
    {
        Cursor { row: 0, col: 0, visible: true }
    }
}

/// The main screen as it was when the alternate screen was entered.
pub struct SavedScreen {
    pub cells: Vec<Vec<Cell>>,
    pub cursor: Cursor,
    pub saved_cursor: Option<Cursor>,
    pub scrollback: Vec<Vec<Cell>>,
}

/// The character grid: the visible screen, the scrollback above it, the
/// cursor, the scroll region and the alternate screen.
pub struct Grid {
    pub cells: Vec<Vec<Cell>>,
    pub rows: usize,
    pub cols: usize,
    pub cursor: Cursor,
    pub saved_cursor: Option<Cursor>,
    pub scrollback: Vec<Vec<Cell>>,
    pub scrollback_limit: usize,
    pub scroll_offset: usize,
    /// Scroll region (DECSTBM), 0-based, bottom exclusive.
    pub scroll_top: usize,
    pub scroll_bottom: usize,
    pub saved_main: Option<SavedScreen>,
    pub is_alt_screen: bool,
}

/// The rows of a vector of rows, as sequences.
pub open spec fn lines_of(v: Seq<Vec<Cell>>) -> Seq<Seq<Cell>> {
    v.map_values(|r: Vec<Cell>| r@)
}

/// A row of `cols` blank cells.
pub open spec fn blank_line(cols: nat) -> Seq<Cell> {
    Seq::new(cols, |i: int| blank_cell())
}

/// A screen of `rows` blank rows of `cols` cells.
pub open spec fn blank_screen(rows: nat, cols: nat) -> Seq<Seq<Cell>> {
    Seq::new(rows, |i: int| blank_line(cols))
}

/// Rows `top..bottom` move up by one; row `bottom - 1` becomes blank.
pub open spec fn shift_up(s: Seq<Seq<Cell>>, top: int, bottom: int, cols: nat) -> Seq<Seq<Cell>> {
    s.take(top) + s.subrange(top + 1, bottom) + seq![blank_line(cols)] + s.skip(bottom)
}

/// Rows `top..bottom` move down by one; row `top` becomes blank.
pub open spec fn shift_down(s: Seq<Seq<Cell>>, top: int, bottom: int, cols: nat) -> Seq<Seq<Cell>> {
    s.take(top) + seq![blank_line(cols)] + s.subrange(top, bottom - 1) + s.skip(bottom)
}

/// The scrollback after `line` scrolled off the top: the oldest line is
/// dropped when the limit is exceeded.
pub open spec fn push_history(h: Seq<Seq<Cell>>, line: Seq<Cell>, limit: nat) -> Seq<Seq<Cell>> {
    if h.len() + 1 > limit {
        h.push(line).drop_first()
    } else {
        h.push(line)
    }
}

/// The row that `resize` keeps of `old`: the first `cols` cells of it,
/// padded with blanks.
pub open spec fn resized_line(old: Seq<Cell>, cols: nat) -> Seq<Cell> {
    Seq::new(cols, |c: int| if c < old.len() { old[c] } else { blank_cell() })
}

/// The screen that `resize` keeps of `old`.
pub open spec fn resized_screen(old: Seq<Seq<Cell>>, rows: nat, cols: nat) -> Seq<Seq<Cell>> {
    Seq::new(
        rows,
        |r: int| if r < old.len() { resized_line(old[r], cols) } else { blank_line(cols) },
    )
}

/// The main screen kept aside while the alternate screen is shown.
#[verifier::ext_equal]
pub struct SavedModel {
    pub screen: Seq<Seq<Cell>>,
    pub cursor: Cursor,
    pub saved_cursor: Option<Cursor>,
    pub history: Seq<Seq<Cell>>,
}

/// A grid as plain values: the screen and scrollback as sequences of lines.
#[verifier::ext_equal]
pub struct GridModel {
    pub screen: Seq<Seq<Cell>>,
    pub history: Seq<Seq<Cell>>,
    pub rows: usize,
    pub cols: usize,
    pub cursor: Cursor,
    pub saved_cursor: Option<Cursor>,
    pub scrollback_limit: usize,
    pub scroll_offset: usize,
    pub scroll_top: usize,
    pub scroll_bottom: usize,
    pub saved_main: Option<SavedModel>,
    pub is_alt_screen: bool,
}

impl View for SavedScreen {
    type V = SavedModel;

    open spec fn view(&self) -> SavedModel {
        SavedModel {
            screen: lines_of(self.cells@),
            cursor: self.cursor,
            saved_cursor: self.saved_cursor,
            history: lines_of(self.scrollback@),
        }
    }
}

pub open spec fn saved_view(s: Option<SavedScreen>) -> Option<SavedModel> {
    match s {
        Some(x) => Some(x@),
        None => None,
    }
}

impl View for Grid {
    type V = GridModel;

    open spec fn view(&self) -> GridModel {
        GridModel {
            screen: lines_of(self.cells@),
            history: lines_of(self.scrollback@),
            rows: self.rows,
            cols: self.cols,
            cursor: self.cursor,
            saved_cursor: self.saved_cursor,
            scrollback_limit: self.scrollback_limit,
            scroll_offset: self.scroll_offset,
            scroll_top: self.scroll_top,
            scroll_bottom: self.scroll_bottom,
            saved_main: saved_view(self.saved_main),
            is_alt_screen: self.is_alt_screen,
        }
    }
}

/// The screen has `rows` rows of `cols` cells and the scroll region lies
/// inside it.
pub open spec fn grid_wf(g: GridModel) -> bool {
    &&& g.screen.len() == g.rows
    &&& forall|r: int| 0 <= r < g.rows ==> (#[trigger] g.screen[r]).len() == g.cols
    &&& g.scroll_bottom <= g.rows
    &&& (g.scroll_top < g.scroll_bottom || (g.scroll_top == 0 && g.scroll_bottom == 0 && g.rows == 0))
}

/// A fresh `rows` x `cols` grid.
pub open spec fn spec_new_grid(cols: usize, rows: usize) -> GridModel {
    GridModel {
        screen: blank_screen(rows as nat, cols as nat),
        history: Seq::empty(),
        rows,
        cols,
        cursor: home_cursor(),
        saved_cursor: None,
        scrollback_limit: 10000,
        scroll_offset: 0,
        scroll_top: 0,
        scroll_bottom: rows,
        saved_main: None,
        is_alt_screen: false,
    }
}

/// `g` with cell (`row`, `col`) replaced.
pub open spec fn spec_set_cell(g: GridModel, row: int, col: int, cell: Cell) -> GridModel {
    GridModel { screen: g.screen.update(row, g.screen[row].update(col, cell)), ..g }
}

/// `g` with screen row `row` replaced.
pub open spec fn spec_set_line(g: GridModel, row: int, line: Seq<Cell>) -> GridModel {
    GridModel { screen: g.screen.update(row, line), ..g }
}

/// Scrolling rows `top..bottom` up by one; a whole-main-screen scroll
/// sends the top line to the scrollback.
pub open spec fn spec_scroll_up_in_region(g: GridModel, top: int, bottom: int) -> GridModel {
    if top >= bottom || bottom > g.rows {
        g
    } else if top == 0 && bottom == g.rows && !g.is_alt_screen {
        GridModel {
            screen: shift_up(g.screen, top, bottom, g.cols as nat),
            history: push_history(g.history, g.screen[0], g.scrollback_limit as nat),
            ..g
        }
    } else {
        GridModel { screen: shift_up(g.screen, top, bottom, g.cols as nat), ..g }
    }
}

/// Scrolling rows `top..bottom` down by one.
pub open spec fn spec_scroll_down_in_region(g: GridModel, top: int, bottom: int) -> GridModel {
    if top >= bottom || bottom > g.rows {
        g
    } else {
        GridModel { screen: shift_down(g.screen, top, bottom, g.cols as nat), ..g }
    }
}

pub open spec fn spec_scroll_up(g: GridModel) -> GridModel {
    spec_scroll_up_in_region(g, g.scroll_top as int, g.scroll_bottom as int)
}

pub open spec fn spec_scroll_down(g: GridModel) -> GridModel {
    spec_scroll_down_in_region(g, g.scroll_top as int, g.scroll_bottom as int)
}

/// Row `row` blanked (nothing past the last row).
pub open spec fn spec_clear_row(g: GridModel, row: int) -> GridModel {
    if 0 <= row < g.rows {
        GridModel { screen: g.screen.update(row, blank_line(g.cols as nat)), ..g }
    } else {
        g
    }
}

pub open spec fn spec_save_cursor(g: GridModel) -> GridModel {
    GridModel { saved_cursor: Some(g.cursor), ..g }
}

pub open spec fn spec_restore_cursor(g: GridModel) -> GridModel {
    match g.saved_cursor {
        Some(c) => GridModel { cursor: c, saved_cursor: None, ..g },
        None => g,
    }
}

pub open spec fn spec_set_scroll_region(g: GridModel, top: int, bottom: int) -> GridModel {
    if top < bottom && bottom <= g.rows {
        GridModel { scroll_top: top as usize, scroll_bottom: bottom as usize, ..g }
    } else {
        g
    }
}

pub open spec fn spec_reset_scroll_region(g: GridModel) -> GridModel {
    GridModel { scroll_top: 0, scroll_bottom: g.rows, ..g }
}

/// Switching to a blank alternate screen; the main screen, its scrollback
/// and cursors are kept aside.
pub open spec fn spec_enter_alt(g: GridModel) -> GridModel {
    if g.is_alt_screen {
        g
    } else {
        GridModel {
            screen: blank_screen(g.rows as nat, g.cols as nat),
            history: Seq::empty(),
            cursor: home_cursor(),
            saved_cursor: None,
            scroll_offset: 0,
            saved_main: Some(SavedModel {
                screen: g.screen,
                cursor: g.cursor,
                saved_cursor: g.saved_cursor,
                history: g.history,
            }),
            is_alt_screen: true,
            ..g
        }
    }
}

/// Leaving the alternate screen; what was kept aside comes back.
pub open spec fn spec_exit_alt(g: GridModel) -> GridModel {
    if !g.is_alt_screen {
        g
    } else {
        match g.saved_main {
            Some(s) => GridModel {
                screen: s.screen,
                cursor: s.cursor,
                saved_cursor: s.saved_cursor,
                history: s.history,
                saved_main: None,
                is_alt_screen: false,
                scroll_offset: 0,
                ..g
            },
            None => GridModel { is_alt_screen: false, scroll_offset: 0, ..g },
        }
    }
}

/// `x` clamped to `n - 1` (0 when `n` is 0).
pub open spec fn clamp_below(x: usize, n: usize) -> usize {
    if x < n { x } else if n == 0 { 0 } else { (n - 1) as usize }
}

pub open spec fn spec_resize(g: GridModel, cols: usize, rows: usize) -> GridModel {
    GridModel {
        screen: resized_screen(g.screen, rows as nat, cols as nat),
        rows,
        cols,
        cursor: Cursor { row: clamp_below(g.cursor.row, rows), col: clamp_below(g.cursor.col, cols), ..g.cursor },
        scroll_bottom: rows,
        scroll_top: if g.scroll_top >= rows { 0 } else { g.scroll_top },
        ..g
    }
}

pub open spec fn spec_scroll_viewport_up(g: GridModel, lines: int) -> GridModel {
    GridModel {
        scroll_offset: if g.scroll_offset + lines < g.history.len() {
            (g.scroll_offset + lines) as usize
        } else {
            g.history.len() as usize
        },
        ..g
    }
}

pub open spec fn spec_scroll_viewport_down(g: GridModel, lines: int) -> GridModel {
    GridModel {
        scroll_offset: if g.scroll_offset >= lines { (g.scroll_offset - lines) as usize } else { 0 },
        ..g
    }
}

pub open spec fn spec_scroll_viewport_to_bottom(g: GridModel) -> GridModel {
    GridModel { scroll_offset: 0, ..g }
}

/// The line at absolute index `abs_row`: scrollback lines first
/// (0 = oldest), then the screen rows; empty past the last row.
pub open spec fn spec_absolute_line(g: GridModel, abs_row: int) -> Seq<Cell> {
    let sb = g.history.len() as int;
    if 0 <= abs_row < sb {
        g.history[abs_row]
    } else if sb <= abs_row && abs_row - sb < g.rows {
        g.screen[abs_row - sb]
    } else {
        Seq::empty()
    }
}

/// The absolute line index shown at viewport row `viewport_row` (may be
/// negative).
pub open spec fn spec_viewport_abs(g: GridModel, viewport_row: int) -> int {
    g.history.len() - g.scroll_offset + viewport_row
}

/// A row of `cols` blank cells.
pub fn blank_row(cols: usize) -> (v: Vec<Cell>)
    ensures
        v@ == blank_line(cols as nat),
{
    let mut v: Vec<Cell> = Vec::new();
    let mut i: usize = 0;
    while i < cols
        invariant
            i <= cols,
            v@ == blank_line(i as nat),
        decreases cols - i,
    {
        v.push(Cell::blank());
        i = i + 1;
        assert(v@ =~= blank_line(i as nat));
    }
    v
}

/// `rows` rows of `cols` blank cells.
pub fn blank_rows(cols: usize, rows: usize) -> (v: Vec<Vec<Cell>>)
    ensures
        lines_of(v@) == blank_screen(rows as nat, cols as nat),
{
    let mut v: Vec<Vec<Cell>> = Vec::new();
    let mut i: usize = 0;
    while i < rows
        invariant
            i <= rows,
            v@.len() == i,
            lines_of(v@) == blank_screen(i as nat, cols as nat),
        decreases rows - i,
    {
        let r = blank_row(cols);
        let ghost prev = v@;
        v.push(r);
        i = i + 1;
        assert forall|j: int| 0 <= j < i implies #[trigger] lines_of(v@)[j] == blank_line(cols as nat) by {
            if j < i - 1 {
                assert(v@[j] == prev[j]);
                assert(lines_of(prev)[j] == blank_screen((i - 1) as nat, cols as nat)[j]);
            }
        }
        assert(lines_of(v@) =~= blank_screen(i as nat, cols as nat));
    }
    v
}

fn resized_row(old: &Vec<Cell>, new_cols: usize) -> (v: Vec<Cell>)
    ensures
        v@ == resized_line(old@, new_cols as nat),
{
    let mut v: Vec<Cell> = Vec::new();
    let mut c: usize = 0;
    while c < new_cols
        invariant
            c <= new_cols,
            v@ =~= resized_line(old@, new_cols as nat).take(c as int),
        decreases new_cols - c,
    {
        if c < old.len() {
            v.push(old[c]);
        } else {
            v.push(Cell::blank());
        }
        c = c + 1;
    }
    assert(resized_line(old@, new_cols as nat).take(new_cols as int) =~= resized_line(old@, new_cols as nat));
    v
}

impl Grid {
    /// The grid's invariant (see `grid_wf`).
    pub open spec fn wf(&self) -> bool {
        grid_wf(self@)
    }

    /// A blank `rows` x `cols` grid, cursor home, no scrollback, scroll
    /// region the whole screen, scrollback limit 10000.
    pub fn new(cols: usize, rows: usize) -> (g: Self)
        ensures
            g.wf(),
            g@ == spec_new_grid(cols, rows),
    {
        let g = Grid {
            cells: blank_rows(cols, rows),
            rows,
            cols,
            cursor: Cursor::default(),
            saved_cursor: None,
            scrollback: Vec::new(),
            scrollback_limit: 10000,
            scroll_offset: 0,
            scroll_top: 0,
            scroll_bottom: rows,
            saved_main: None,
            is_alt_screen: false,
        };
        assert(g@ =~= spec_new_grid(cols, rows));
        g
    }

    /// The cell at (`row`, `col`) of the screen.
    pub fn cell(&self, row: usize, col: usize) -> (c: &Cell)
        requires
            row < self@.screen.len(),
            col < self@.screen[row as int].len(),
        ensures
            *c == self@.screen[row as int][col as int],
    {
        &self.cells[row][col]
    }

    /// The cell at (`row`, `col`) of the screen, to change in place.
    pub fn cell_mut(&mut self, row: usize, col: usize) -> (c: &mut Cell)
        requires
            row < old(self)@.screen.len(),
            col < old(self)@.screen[row as int].len(),
        ensures
            *c == old(self)@.screen[row as int][col as int],
            final(self)@ == spec_set_cell(old(self)@, row as int, col as int, *final(c)),
    {
        &mut self.cells[row][col]
    }

    /// Overwrite the cell at (`row`, `col`) of the screen.
    pub fn set_cell(&mut self, row: usize, col: usize, cell: Cell)
        requires
            row < old(self)@.screen.len(),
            col < old(self)@.screen[row as int].len(),
        ensures
            final(self)@ == spec_set_cell(old(self)@, row as int, col as int, cell),
            old(self).wf() ==> final(self).wf(),
    {
        let mut line: Vec<Cell> = Vec::new();
        self.cells.set_and_swap(row, &mut line);
        line.set(col, cell);
        self.cells.set(row, line);
        assert(self@ =~= spec_set_cell(old(self)@, row as int, col as int, cell));
    }

    /// Replace screen row `row` by `line`.
    pub fn set_line(&mut self, row: usize, line: Vec<Cell>)
        requires
            row < old(self)@.screen.len(),
        ensures
            final(self)@ == spec_set_line(old(self)@, row as int, line@),
            old(self).wf() && line@.len() == old(self).cols ==> final(self).wf(),
    {
        self.cells.set(row, line);
        assert(self@ =~= spec_set_line(old(self)@, row as int, line@));
    }

    /// Number of lines in the scrollback.
    pub fn scrollback_len(&self) -> (n: usize)
        ensures
            n == self@.history.len(),
    {
        self.scrollback.len()
    }

    /// Get a line by absolute index (0 = first scrollback line).
    pub fn absolute_line(&self, abs_row: usize) -> (line: &[Cell])
        requires
            self@.history.len() <= abs_row < self@.history.len() + self.rows
                ==> abs_row - self@.history.len() < self@.screen.len(),
        ensures
            line@ == spec_absolute_line(self@, abs_row as int),
    {
        let sb_len = self.scrollback.len();
        if abs_row < sb_len {
            self.scrollback[abs_row].as_slice()
        } else {
            let grid_row = abs_row - sb_len;
            if grid_row < self.rows {
                self.cells[grid_row].as_slice()
            } else {
                &[]
            }
        }
    }

    /// Get a line for the current viewport (accounting for `scroll_offset`).
    pub fn viewport_line(&self, viewport_row: usize) -> (line: &[Cell])
        requires
            self.scroll_offset <= isize::MAX,
            viewport_row <= isize::MAX,
            self@.history.len() <= isize::MAX,
            spec_viewport_abs(self@, viewport_row as int) <= isize::MAX,
            self.rows <= self@.screen.len(),
        ensures
            line@ == (if spec_viewport_abs(self@, viewport_row as int) < 0 {
                Seq::empty()
            } else {
                spec_absolute_line(self@, spec_viewport_abs(self@, viewport_row as int))
            }),
    {
        let sb_len = self.scrollback.len();
        if self.scroll_offset > sb_len {
            let back = self.scroll_offset - sb_len;
            if viewport_row < back {
                &[]
            } else {
                self.absolute_line(viewport_row - back)
            }
        } else {
            self.absolute_line(sb_len - self.scroll_offset + viewport_row)
        }
    }

    /// Convert a viewport row to an absolute row (0 where it would be
    /// negative).
    pub fn viewport_to_absolute(&self, viewport_row: usize) -> (abs: usize)
        requires
            self.scroll_offset <= isize::MAX,
            viewport_row <= isize::MAX,
            self@.history.len() <= isize::MAX,
            spec_viewport_abs(self@, viewport_row as int) <= isize::MAX,
        ensures
            abs == (if spec_viewport_abs(self@, viewport_row as int) < 0 {
                0
            } else {
                spec_viewport_abs(self@, viewport_row as int)
            }),
    {
        let sb_len = self.scrollback.len();
        if self.scroll_offset > sb_len {
            let back = self.scroll_offset - sb_len;
            if viewport_row < back {
                0
            } else {
                viewport_row - back
            }
        } else {
            sb_len - self.scroll_offset + viewport_row
        }
    }

    /// Scroll the scroll region up by one line.
    pub fn scroll_up(&mut self)
        requires
            old(self).wf(),
        ensures
            final(self).wf(),
            final(self)@ == spec_scroll_up(old(self)@),
    {
        let top = self.scroll_top;
        let bottom = self.scroll_bottom;
        self.scroll_up_in_region(top, bottom);
    }

    /// Scroll rows `top..bottom` up by one line. When that is the whole
    /// main screen, the top line goes to the scrollback.
    pub fn scroll_up_in_region(&mut self, top: usize, bottom: usize)
        requires
            old(self).wf(),
        ensures
            final(self).wf(),
            final(self)@ == spec_scroll_up_in_region(old(self)@, top as int, bottom as int),
    {
        if top >= bottom || bottom > self.rows {
            return;
        }
        let ghost g = self@;
        if top == 0 && bottom == self.rows && !self.is_alt_screen {
            let row = self.cells.remove(0);
            let ghost h0 = lines_of(self.scrollback@);
            self.scrollback.push(row);
            assert(lines_of(self.scrollback@) =~= h0.push(g.screen[0]));
            if self.scrollback.len() > self.scrollback_limit {
                let ghost h1 = lines_of(self.scrollback@);
                let _ = self.scrollback.remove(0);
                assert(lines_of(self.scrollback@) =~= h1.drop_first());
            }
            let fresh = blank_row(self.cols);
            self.cells.push(fresh);
        } else {
            let _ = self.cells.remove(top);
            let fresh = blank_row(self.cols);
            self.cells.insert(bottom - 1, fresh);
        }
        assert(lines_of(self.cells@) =~= shift_up(g.screen, top as int, bottom as int, self.cols as nat));
        assert(self@ =~= spec_scroll_up_in_region(g, top as int, bottom as int));
    }

    /// Scroll the scroll region down by one line.
    pub fn scroll_down(&mut self)
        requires
            old(self).wf(),
        ensures
            final(self).wf(),
            final(self)@ == spec_scroll_down(old(self)@),
    {
        let top = self.scroll_top;
        let bottom = self.scroll_bottom;
        self.scroll_down_in_region(top, bottom);
    }

    /// Scroll rows `top..bottom` down by one line; row `top` becomes blank.
    pub fn scroll_down_in_region(&mut self, top: usize, bottom: usize)
        requires
            old(self).wf(),
        ensures
            final(self).wf(),
            final(self)@ == spec_scroll_down_in_region(old(self)@, top as int, bottom as int),
    {
        if top >= bottom || bottom > self.rows {
            return;
        }
        let ghost g = self@;
        let _ = self.cells.remove(bottom - 1);
        let fresh = blank_row(self.cols);
        self.cells.insert(top, fresh);
        assert(lines_of(self.cells@) =~= shift_down(g.screen, top as int, bottom as int, self.cols as nat));
        assert(self@ =~= spec_scroll_down_in_region(g, top as int, bottom as int));
    }

    /// Blank row `row` (nothing happens past the last row).
    pub fn clear_row(&mut self, row: usize)
        requires
            old(self).wf(),
        ensures
            final(self).wf(),
            final(self)@ == spec_clear_row(old(self)@, row as int),
    {
        if row < self.rows {
            let ghost g = self@;
            let fresh = blank_row(self.cols);
            self.cells.set(row, fresh);
            assert(self@ =~= spec_clear_row(g, row as int));
        }
    }

    pub fn save_cursor(&mut self)
        ensures
            final(self)@ == spec_save_cursor(old(self)@),
    {
        self.saved_cursor = Some(self.cursor);
        assert(self@ =~= spec_save_cursor(old(self)@));
    }

    /// Restore the saved cursor, if any, and forget it.
    pub fn restore_cursor(&mut self)
        ensures
            final(self)@ == spec_restore_cursor(old(self)@),
    {
        if let Some(saved) = self.saved_cursor.take() {
            self.cursor = saved;
        }
        assert(self@ =~= spec_restore_cursor(old(self)@));
    }

    /// Set the scroll region to rows `top..bottom` when that is a non-empty
    /// range inside the screen; otherwise nothing changes.
    pub fn set_scroll_region(&mut self, top: usize, bottom: usize)
        requires
            old(self).wf(),
        ensures
            final(self).wf(),
            final(self)@ == spec_set_scroll_region(old(self)@, top as int, bottom as int),
    {
        if top < bottom && bottom <= self.rows {
            self.scroll_top = top;
            self.scroll_bottom = bottom;
        }
        assert(self@ =~= spec_set_scroll_region(old(self)@, top as int, bottom as int));
    }

    /// The scroll region becomes the whole screen.
    pub fn reset_scroll_region(&mut self)
        requires
            old(self).wf(),
        ensures
            final(self).wf(),
            final(self)@ == spec_reset_scroll_region(old(self)@),
    {
        self.scroll_top = 0;
        self.scroll_bottom = self.rows;
        assert(self@ =~= spec_reset_scroll_region(old(self)@));
    }

    /// Switch to a blank alternate screen, keeping the main screen, its
    /// scrollback and cursors aside. Nothing happens when already there.
    pub fn enter_alt_screen(&mut self)
        requires
            old(self).wf(),
        ensures
            final(self).wf(),
            final(self)@ == spec_enter_alt(old(self)@),
    {
        if self.is_alt_screen {
            return;
        }
        let ghost g = self@;
        let mut main_cells = blank_rows(self.cols, self.rows);
        std::mem::swap(&mut main_cells, &mut self.cells);
        let mut main_scrollback: Vec<Vec<Cell>> = Vec::new();
        std::mem::swap(&mut main_scrollback, &mut self.scrollback);
        self.saved_main = Some(SavedScreen {
            cells: main_cells,
            cursor: self.cursor,
            saved_cursor: self.saved_cursor,
            scrollback: main_scrollback,
        });
        self.cursor = Cursor::default();
        self.saved_cursor = None;
        self.scroll_offset = 0;
        self.is_alt_screen = true;
        assert(lines_of(self.scrollback@) =~= Seq::<Seq<Cell>>::empty());
        assert(self@ =~= spec_enter_alt(g));
    }

    /// Leave the alternate screen, bringing back the main screen, its
    /// scrollback and cursors. Nothing happens when not on it.
    pub fn exit_alt_screen(&mut self)
        ensures
            final(self)@ == spec_exit_alt(old(self)@),
    {
        if !self.is_alt_screen {
            return;
        }
        let ghost g = self@;
        if let Some(saved) = self.saved_main.take() {
            self.cells = saved.cells;
            self.cursor = saved.cursor;
            self.saved_cursor = saved.saved_cursor;
            self.scrollback = saved.scrollback;
        }
        self.is_alt_screen = false;
        self.scroll_offset = 0;
        assert(self@ =~= spec_exit_alt(g));
    }

    /// Resize to `new_cols` x `new_rows`, keeping the top-left part of the
    /// screen, clamping the cursor and resetting the scroll region bottom.
    pub fn resize(&mut self, new_cols: usize, new_rows: usize)
        requires
            old(self).wf(),
        ensures
            final(self).wf(),
            final(self)@ == spec_resize(old(self)@, new_cols, new_rows),
    {
        let ghost g = self@;
        let mut new_cells: Vec<Vec<Cell>> = Vec::new();
        let mut r: usize = 0;
        while r < new_rows
            invariant
                r <= new_rows,
                self.wf(),
                self@ == g,
                new_cells@.len() == r,
                forall|i: int| 0 <= i < r ==> #[trigger] lines_of(new_cells@)[i]
                    == resized_screen(g.screen, new_rows as nat, new_cols as nat)[i],
            decreases new_rows - r,
        {
            let line = if r < self.rows {
                resized_row(&self.cells[r], new_cols)
            } else {
                blank_row(new_cols)
            };
            let ghost prev = new_cells@;
            new_cells.push(line);
            assert forall|i: int| 0 <= i < r + 1 implies #[trigger] lines_of(new_cells@)[i]
                == resized_screen(g.screen, new_rows as nat, new_cols as nat)[i] by {
                if i < r {
                    assert(new_cells@[i] == prev[i]);
                    assert(lines_of(prev)[i] == resized_screen(g.screen, new_rows as nat, new_cols as nat)[i]);
                } else {
                    assert(new_cells@[i] == line);
                    if r < self.rows {
                        assert(g.screen[r as int] == self.cells@[r as int]@);
                    }
                }
            }
            r = r + 1;
        }
        self.cells = new_cells;
        assert(lines_of(self.cells@) =~= resized_screen(g.screen, new_rows as nat, new_cols as nat));
        self.rows = new_rows;
        self.cols = new_cols;
        self.cursor.row = if self.cursor.row < new_rows { self.cursor.row } else { new_rows.saturating_sub(1) };
        self.cursor.col = if self.cursor.col < new_cols { self.cursor.col } else { new_cols.saturating_sub(1) };
        self.scroll_bottom = new_rows;
        if self.scroll_top >= new_rows {
            self.scroll_top = 0;
        }
        assert(self@ =~= spec_resize(g, new_cols, new_rows));
    }

    /// Scroll the viewport up (towards older lines), at most to the top of
    /// the scrollback.
    pub fn scroll_viewport_up(&mut self, lines: usize)
        requires
            old(self).scroll_offset + lines <= usize::MAX,
        ensures
            final(self)@ == spec_scroll_viewport_up(old(self)@, lines as int),
    {
        let max = self.scrollback.len();
        let wanted = self.scroll_offset + lines;
        self.scroll_offset = if wanted < max { wanted } else { max };
        assert(self@ =~= spec_scroll_viewport_up(old(self)@, lines as int));
    }

    /// Scroll the viewport down (towards live output), at most to the bottom.
    pub fn scroll_viewport_down(&mut self, lines: usize)
        ensures
            final(self)@ == spec_scroll_viewport_down(old(self)@, lines as int),
    {
        self.scroll_offset = self.scroll_offset.saturating_sub(lines);
        assert(self@ =~= spec_scroll_viewport_down(old(self)@, lines as int));
    }

    /// Show the live screen again.
    pub fn scroll_viewport_to_bottom(&mut self)
        ensures
            final(self)@ == spec_scroll_viewport_to_bottom(old(self)@),
    {
        self.scroll_offset = 0;
        assert(self@ =~= spec_scroll_viewport_to_bottom(old(self)@));
    }
}

/// Leaving the alternate screen gives back the main screen, scrollback,
/// cursor and saved cursor exactly as they were on entering it, whatever
/// was drawn on the alternate screen meanwhile (`alt` is any alternate
/// screen state that kept what entering saved).
pub proof fn lemma_alt_screen_restores(g: GridModel, alt: GridModel)
    requires
        !g.is_alt_screen,
        alt.is_alt_screen,
        alt.saved_main == spec_enter_alt(g).saved_main,
    ensures
        spec_exit_alt(alt).screen == g.screen,
        spec_exit_alt(alt).history == g.history,
        spec_exit_alt(alt).cursor == g.cursor,
        spec_exit_alt(alt).saved_cursor == g.saved_cursor,
        !spec_exit_alt(alt).is_alt_screen,
        spec_exit_alt(alt).scroll_offset == 0,
{
}

/// Entering and at once leaving the alternate screen changes nothing but
/// the view, which returns to the live screen.
pub proof fn lemma_alt_screen_round_trip(g: GridModel)
    requires
        !g.is_alt_screen,
        g.saved_main is None,
    ensures
        spec_exit_alt(spec_enter_alt(g)) == (GridModel { scroll_offset: 0, ..g }),
{
    assert(spec_exit_alt(spec_enter_alt(g)) =~= GridModel { scroll_offset: 0, ..g });
}

/// The scrollback never grows past its limit: a line pushed onto a
/// scrollback within the limit leaves it within the limit.
pub proof fn lemma_push_history_bounded(h: Seq<Seq<Cell>>, line: Seq<Cell>, limit: nat)
    requires
        h.len() <= limit,
    ensures
        push_history(h, line, limit).len() <= limit,
        limit > 0 ==> push_history(h, line, limit).last() == line,
{
}

/// Scrolling keeps the scrollback within its limit.
pub proof fn lemma_scroll_up_bounded(g: GridModel, top: int, bottom: int)
    requires
        g.history.len() <= g.scrollback_limit,
    ensures
        spec_scroll_up_in_region(g, top, bottom).history.len() <= g.scrollback_limit,
{
}

/// Scrolling the view back by `n` lines and forward again by `n` returns
/// to where it was, when the scrollback holds those lines.
pub proof fn lemma_viewport_up_down(g: GridModel, n: int)
    requires
        n >= 0,
        g.scroll_offset + n <= g.history.len(),
        g.history.len() <= usize::MAX,
    ensures
        spec_scroll_viewport_down(spec_scroll_viewport_up(g, n), n) == g,
{
    let g1 = spec_scroll_viewport_up(g, n);
    assert(g1.scroll_offset == g.scroll_offset + n);
    assert(spec_scroll_viewport_down(g1, n) =~= g);
}

/// Resizing keeps the cells of the top-left part that both sizes share,
/// fills the rest with blank cells (a space in the default colours),
/// moves the cursor to the last row or column where it would fall
/// outside, makes the scroll region end at the new last row, and leaves
/// the scrollback alone.
pub proof fn lemma_resize_keeps(g: GridModel, cols: usize, rows: usize)
    requires
        grid_wf(g),
        rows >= 1,
        cols >= 1,
    ensures
        ({
            let h = spec_resize(g, cols, rows);
            &&& h.rows == rows && h.cols == cols
            &&& h.screen.len() == rows
            &&& (forall|r: int| 0 <= r < rows ==> (#[trigger] h.screen[r]).len() == cols)
            &&& (forall|r: int, c: int| 0 <= r < rows && 0 <= c < cols ==> {
                #[trigger] h.screen[r][c] == if r < g.rows && c < g.cols {
                    g.screen[r][c]
                } else {
                    Cell {
                        ch: ' ',
                        fg: crate::terminal::cell::Color::Default,
                        bg: crate::terminal::cell::Color::Default,
                        attrs: crate::terminal::cell::plain_attrs(),
                        width: 1,
                    }
                }
            })
            &&& h.cursor.row == (if g.cursor.row < rows { g.cursor.row } else { (rows - 1) as usize })
            &&& h.cursor.col == (if g.cursor.col < cols { g.cursor.col } else { (cols - 1) as usize })
            &&& h.scroll_bottom == rows
            &&& h.history == g.history
        }),
{
    let h = spec_resize(g, cols, rows);
    assert forall|r: int, c: int| 0 <= r < rows && 0 <= c < cols implies {
        #[trigger] h.screen[r][c] == if r < g.rows && c < g.cols {
            g.screen[r][c]
        } else {
            Cell {
                ch: ' ',
                fg: crate::terminal::cell::Color::Default,
                bg: crate::terminal::cell::Color::Default,
                attrs: crate::terminal::cell::plain_attrs(),
                width: 1,
            }
        }
    } by {
        if r < g.rows {
            assert(g.screen[r].len() == g.cols);
        }
    }
}

} // verus!
