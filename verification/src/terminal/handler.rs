use vstd::prelude::*;
use crate::terminal::cell::{Cell, Color, blank_cell};
use crate::terminal::grid::{
    Grid, GridModel, Cursor, grid_wf, blank_line, blank_screen, lines_of, shift_up, shift_down,
    spec_scroll_up, spec_scroll_down, spec_scroll_down_in_region, spec_set_scroll_region,
    spec_save_cursor, spec_restore_cursor, spec_enter_alt, spec_exit_alt,
    spec_scroll_viewport_to_bottom, blank_row, blank_rows,
};
use crate::terminal::parser::{Action, SpecAction, params_nonneg};
use vstd::string::{StrSliceExecFns, StringExecFns};
use crate::terminal::{
    Terminal, TermModel, Pen, Modes, MouseMode, MouseEncoding, default_pen, term_wf, cursor_fits,
    spec_new_terminal, responses_view, is_reset,
};

verus! {

// ---------------------------------------------------------------------
// Character width
// ---------------------------------------------------------------------

/// The display width `unicode-width` gives a character: `None` for a
/// control character, otherwise the number of columns.
pub uninterp spec fn char_width(c: char) -> Option<usize>;

/// `UnicodeWidthChar::width` from `unicode-width`: the character's width in
/// columns, `None` for control characters. As its source shows: `None`
/// exactly for U+0000..U+001F and U+007F..U+009F, `Some(1)` for printable
/// ASCII, and never more than 3 columns.
#[verifier::external_body]
fn unicode_char_width(c: char) -> (w: Option<usize>)
    ensures
        w == char_width(c),
        w.is_none() <==> (c as u32) < 0x20 || (0x7F <= (c as u32) && (c as u32) < 0xA0),
        (0x20 <= (c as u32) && (c as u32) < 0x7F) ==> w == Some(1usize),
        w matches Some(n) ==> n <= 3,
{
    unicode_width::UnicodeWidthChar::width(c)
}

/// The number of columns a printed character takes: its display width,
/// and at least one.
pub open spec fn print_width(c: char) -> int {
    match char_width(c) {
        Some(w) => if w >= 1 { w as int } else { 1 },
        None => 1,
    }
}

/// `String::from_utf8_lossy` from std: the bytes decoded as UTF-8 with
/// each invalid sequence replaced by U+FFFD.
pub uninterp spec fn utf8_lossy(bytes: Seq<u8>) -> Seq<char>;

/// `String::from_utf8_lossy` from std, as an owned `String`. Its
/// documentation gives the result for valid UTF-8: the decoded text.
#[verifier::external_body]
fn string_from_utf8_lossy(bytes: &[u8]) -> (s: String)
    ensures
        s@ == utf8_lossy(bytes@),
        vstd::utf8::valid_utf8(bytes@) ==> s@ == vstd::utf8::decode_utf8(bytes@),
{
    String::from_utf8_lossy(bytes).into_owned()
}

/// An action `handle` accepts on a terminal `cols` wide: CSI parameters
/// are non-negative and a printed character fits on a line.
pub open spec fn action_ok(a: SpecAction, cols: usize) -> bool {
    &&& params_nonneg(a)
    &&& (a matches SpecAction::Print(c) ==> print_width(c) <= cols)
}

// ---------------------------------------------------------------------
// What each action does
// ---------------------------------------------------------------------

pub open spec fn with_grid(t: TermModel, g: GridModel) -> TermModel {
    TermModel { grid: g, ..t }
}

pub open spec fn at(g: GridModel, row: int, col: int) -> GridModel {
    GridModel { cursor: Cursor { row: row as usize, col: col as usize, ..g.cursor }, ..g }
}

pub open spec fn spec_linefeed(g: GridModel) -> GridModel {
    if g.cursor.row + 1 >= g.scroll_bottom {
        spec_scroll_up(g)
    } else {
        at(g, g.cursor.row + 1, g.cursor.col as int)
    }
}

pub open spec fn spec_reverse_linefeed(g: GridModel) -> GridModel {
    if g.cursor.row <= g.scroll_top {
        spec_scroll_down(g)
    } else {
        at(g, g.cursor.row - 1, g.cursor.col as int)
    }
}

pub open spec fn pen_cell(pen: Pen, ch: char, width: int) -> Cell {
    Cell { ch, fg: pen.fg, bg: pen.bg, attrs: pen.attrs, width: width as u8 }
}

/// The grid after the cursor moved to where a character `w` columns wide
/// goes: to the next line when it does not fit and auto-wrap is on, back
/// to the last place it fits when auto-wrap is off.
pub open spec fn spec_print_wrap(t: TermModel, w: int) -> GridModel {
    let g = t.grid;
    if g.cursor.col + w > g.cols {
        if t.modes.auto_wrap {
            spec_linefeed(at(g, g.cursor.row as int, 0))
        } else {
            at(g, g.cursor.row as int, g.cols - w)
        }
    } else {
        g
    }
}

/// Printing `ch`: wrap (or clamp without auto-wrap) when it does not fit,
/// write it with the pen, fill the continuation cell of a wide character,
/// and advance the cursor by its width.
pub open spec fn spec_print(t: TermModel, ch: char) -> TermModel {
    let w = print_width(ch);
    let g1 = spec_print_wrap(t, w);
    let row = g1.cursor.row as int;
    let col = g1.cursor.col as int;
    let line1 = g1.screen[row].update(col, pen_cell(t.pen, ch, w));
    let line2 = if w == 2 && col + 1 < g1.cols {
        line1.update(col + 1, pen_cell(t.pen, ' ', 0))
    } else {
        line1
    };
    with_grid(t, at(GridModel { screen: g1.screen.update(row, line2), ..g1 }, row, col + w))
}

/// The C0 controls: BS, HT (to the next multiple of 8, at most the last
/// column), LF/VT/FF, CR; others are ignored.
pub open spec fn spec_c0(t: TermModel, b: u8) -> TermModel {
    let g = t.grid;
    if b == 0x08 {
        if g.cursor.col > 0 { with_grid(t, at(g, g.cursor.row as int, g.cursor.col - 1)) } else { t }
    } else if b == 0x09 {
        let next = (g.cursor.col / 8 + 1) * 8;
        with_grid(t, at(g, g.cursor.row as int, if next < g.cols - 1 { next } else { g.cols - 1 }))
    } else if b == 0x0A || b == 0x0B || b == 0x0C {
        with_grid(t, spec_linefeed(g))
    } else if b == 0x0D {
        with_grid(t, at(g, g.cursor.row as int, 0))
    } else {
        t
    }
}

/// Parameter `idx`, with `default` where it is missing or 0.
pub open spec fn spec_param(params: Seq<i32>, idx: int, default: i32) -> i32 {
    if 0 <= idx < params.len() {
        if params[idx] == 0 { default } else { params[idx] }
    } else {
        default
    }
}

pub open spec fn min_int(a: int, b: int) -> int {
    if a < b { a } else { b }
}

pub open spec fn max_int(a: int, b: int) -> int {
    if a > b { a } else { b }
}

/// `line` with cells `lo..hi` blanked.
pub open spec fn erase_range(line: Seq<Cell>, lo: int, hi: int) -> Seq<Cell> {
    Seq::new(line.len(), |c: int| if lo <= c < hi { blank_cell() } else { line[c] })
}

/// `line` with `n` cells deleted at `col`; blanks come in from the right.
pub open spec fn delete_cells(line: Seq<Cell>, col: int, n: int) -> Seq<Cell> {
    Seq::new(
        line.len(),
        |c: int| if c < col { line[c] } else if c + n < line.len() { line[c + n] } else { blank_cell() },
    )
}

/// `line` with `n` blanks inserted at `col`; cells pushed past the end are
/// lost.
pub open spec fn insert_blanks(line: Seq<Cell>, col: int, n: int) -> Seq<Cell> {
    Seq::new(
        line.len(),
        |c: int| if c < col { line[c] } else if c < col + n { blank_cell() } else { line[c - n] },
    )
}

/// Row `r` after ED with mode 0, 1, 2 or 3.
pub open spec fn erase_display_row(g: GridModel, mode: i32, r: int) -> Seq<Cell> {
    let row = g.cursor.row as int;
    let col = g.cursor.col as int;
    if mode == 0 {
        if r < row { g.screen[r] }
        else if r == row { erase_range(g.screen[r], col, g.cols as int) }
        else { blank_line(g.cols as nat) }
    } else if mode == 1 {
        if r < row { blank_line(g.cols as nat) }
        else if r == row { erase_range(g.screen[r], 0, col + 1) }
        else { g.screen[r] }
    } else {
        blank_line(g.cols as nat)
    }
}

/// ED (`CSI Ps J`): 0 erases from the cursor to the end of the screen, 1
/// from the start to the cursor, 2 and 3 the whole screen.
pub open spec fn spec_erase_display(g: GridModel, mode: i32) -> GridModel {
    if 0 <= mode <= 3 {
        GridModel { screen: Seq::new(g.rows as nat, |r: int| erase_display_row(g, mode, r)), ..g }
    } else {
        g
    }
}

/// EL (`CSI Ps K`): 0 erases from the cursor to the end of the line, 1
/// from its start to the cursor, 2 the whole line.
pub open spec fn spec_erase_line(g: GridModel, mode: i32) -> GridModel {
    let row = g.cursor.row as int;
    let col = g.cursor.col as int;
    if mode == 0 {
        GridModel { screen: g.screen.update(row, erase_range(g.screen[row], col, g.cols as int)), ..g }
    } else if mode == 1 {
        GridModel { screen: g.screen.update(row, erase_range(g.screen[row], 0, col + 1)), ..g }
    } else if mode == 2 {
        GridModel { screen: g.screen.update(row, blank_line(g.cols as nat)), ..g }
    } else {
        g
    }
}

/// Rows `row..bottom` move up by one without touching the scrollback.
pub open spec fn spec_delete_line(g: GridModel, row: int, bottom: int) -> GridModel {
    if row < bottom {
        GridModel { screen: shift_up(g.screen, row, bottom, g.cols as nat), ..g }
    } else {
        g
    }
}

/// `f` applied `n` times: insert lines.
pub open spec fn iter_insert_lines(g: GridModel, row: int, bottom: int, n: nat) -> GridModel
    decreases n,
{
    if n == 0 { g } else { spec_scroll_down_in_region(iter_insert_lines(g, row, bottom, (n - 1) as nat), row, bottom) }
}

pub open spec fn iter_delete_lines(g: GridModel, row: int, bottom: int, n: nat) -> GridModel
    decreases n,
{
    if n == 0 { g } else { spec_delete_line(iter_delete_lines(g, row, bottom, (n - 1) as nat), row, bottom) }
}

pub open spec fn iter_scroll_up(g: GridModel, n: nat) -> GridModel
    decreases n,
{
    if n == 0 { g } else { spec_scroll_up(iter_scroll_up(g, (n - 1) as nat)) }
}

pub open spec fn iter_scroll_down(g: GridModel, n: nat) -> GridModel
    decreases n,
{
    if n == 0 { g } else { spec_scroll_down(iter_scroll_down(g, (n - 1) as nat)) }
}

/// The decimal digits of `v`, most significant first.
pub open spec fn decimal(v: nat) -> Seq<u8>
    decreases v,
{
    if v < 10 { seq![(48 + v) as u8] } else { decimal(v / 10).push((48 + v % 10) as u8) }
}

/// The cursor position report `ESC [ row ; col R` (1-based).
pub open spec fn dsr_reply(row: nat, col: nat) -> Seq<u8> {
    seq![0x1Bu8, 0x5Bu8] + decimal(row) + seq![0x3Bu8] + decimal(col) + seq![0x52u8]
}

/// The device attributes reply `ESC [ ? 6 2 ; 2 2 c`.
pub open spec fn da_reply() -> Seq<u8> {
    seq![0x1Bu8, 0x5Bu8, 0x3Fu8, 0x36u8, 0x32u8, 0x3Bu8, 0x32u8, 0x32u8, 0x63u8]
}

/// An SGR parameter other than 38 and 48 applied to the pen.
pub open spec fn sgr_simple_pen(pen: Pen, p: i32) -> Pen {
    if p == 0 { default_pen() }
    else if p == 1 { Pen { attrs: crate::terminal::cell::CellAttrs { bold: true, ..pen.attrs }, ..pen } }
    else if p == 2 { Pen { attrs: crate::terminal::cell::CellAttrs { dim: true, ..pen.attrs }, ..pen } }
    else if p == 3 { Pen { attrs: crate::terminal::cell::CellAttrs { italic: true, ..pen.attrs }, ..pen } }
    else if p == 4 || p == 21 { Pen { attrs: crate::terminal::cell::CellAttrs { underline: true, ..pen.attrs }, ..pen } }
    else if p == 7 { Pen { attrs: crate::terminal::cell::CellAttrs { inverse: true, ..pen.attrs }, ..pen } }
    else if p == 8 { Pen { attrs: crate::terminal::cell::CellAttrs { hidden: true, ..pen.attrs }, ..pen } }
    else if p == 9 { Pen { attrs: crate::terminal::cell::CellAttrs { strikethrough: true, ..pen.attrs }, ..pen } }
    else if p == 22 { Pen { attrs: crate::terminal::cell::CellAttrs { bold: false, dim: false, ..pen.attrs }, ..pen } }
    else if p == 23 { Pen { attrs: crate::terminal::cell::CellAttrs { italic: false, ..pen.attrs }, ..pen } }
    else if p == 24 { Pen { attrs: crate::terminal::cell::CellAttrs { underline: false, ..pen.attrs }, ..pen } }
    else if p == 27 { Pen { attrs: crate::terminal::cell::CellAttrs { inverse: false, ..pen.attrs }, ..pen } }
    else if p == 28 { Pen { attrs: crate::terminal::cell::CellAttrs { hidden: false, ..pen.attrs }, ..pen } }
    else if p == 29 { Pen { attrs: crate::terminal::cell::CellAttrs { strikethrough: false, ..pen.attrs }, ..pen } }
    else if 30 <= p <= 37 { Pen { fg: Color::Indexed((p - 30) as u8), ..pen } }
    else if p == 39 { Pen { fg: Color::Default, ..pen } }
    else if 40 <= p <= 47 { Pen { bg: Color::Indexed((p - 40) as u8), ..pen } }
    else if p == 49 { Pen { bg: Color::Default, ..pen } }
    else if 90 <= p <= 97 { Pen { fg: Color::Indexed((p - 90 + 8) as u8), ..pen } }
    else if 100 <= p <= 107 { Pen { bg: Color::Indexed((p - 100 + 8) as u8), ..pen } }
    else { pen }
}

/// One SGR parameter at index `i`: the new pen and the index of the next
/// parameter.
pub open spec fn sgr_one(pen: Pen, params: Seq<i32>, i: int) -> (Pen, int) {
    let p = params[i];
    if p == 38 { sgr_extended(pen, params, i, true) }
    else if p == 48 { sgr_extended(pen, params, i, false) }
    else { (sgr_simple_pen(pen, p), i + 1) }
}

pub open spec fn set_pen_color(pen: Pen, fg: bool, c: Color) -> Pen {
    if fg { Pen { fg: c, ..pen } } else { Pen { bg: c, ..pen } }
}

/// `38;5;n` / `38;2;r;g;b` (and the same with 48 for the background).
pub open spec fn sgr_extended(pen: Pen, params: Seq<i32>, i: int, fg: bool) -> (Pen, int) {
    let j = i + 1;
    if j < params.len() {
        if params[j] == 5 {
            let k = j + 1;
            if k < params.len() {
                (set_pen_color(pen, fg, Color::Indexed(params[k] as u8)), k + 1)
            } else {
                (pen, k + 1)
            }
        } else if params[j] == 2 {
            if j + 3 < params.len() {
                (set_pen_color(pen, fg, Color::Rgb(params[j + 1] as u8, params[j + 2] as u8, params[j + 3] as u8)), j + 4)
            } else {
                (pen, j + 1)
            }
        } else {
            (pen, j + 1)
        }
    } else {
        (pen, j + 1)
    }
}

/// The pen after the SGR parameters from index `i` on.
pub open spec fn spec_sgr_from(pen: Pen, params: Seq<i32>, i: int) -> Pen
    decreases params.len() - i,
{
    if i < 0 || i >= params.len() {
        pen
    } else {
        let (p2, next) = sgr_one(pen, params, i);
        if next <= i { pen } else if next >= params.len() { p2 } else { spec_sgr_from(p2, params, next) }
    }
}

/// SGR (`CSI Pm m`); no parameter resets the pen.
pub open spec fn spec_sgr(pen: Pen, params: Seq<i32>) -> Pen {
    if params.len() == 0 { default_pen() } else { spec_sgr_from(pen, params, 0) }
}

/// One private mode (`CSI ? p h` when `set`, `CSI ? p l` otherwise).
pub open spec fn spec_set_mode_one(t: TermModel, p: i32, set: bool) -> TermModel {
    let m = t.modes;
    let g = t.grid;
    if p == 1 {
        TermModel { modes: Modes { cursor_keys_application: set, ..m }, ..t }
    } else if p == 6 {
        TermModel {
            modes: Modes { origin_mode: set, ..m },
            grid: at(g, if set { g.scroll_top as int } else { 0 }, 0),
            ..t
        }
    } else if p == 7 {
        TermModel { modes: Modes { auto_wrap: set, ..m }, ..t }
    } else if p == 25 {
        with_grid(t, GridModel { cursor: Cursor { visible: set, ..g.cursor }, ..g })
    } else if p == 47 || p == 1047 {
        with_grid(t, if set { spec_enter_alt(g) } else { spec_exit_alt(g) })
    } else if p == 1000 {
        TermModel { modes: Modes { mouse_mode: if set { MouseMode::Press } else { MouseMode::Off }, ..m }, ..t }
    } else if p == 1002 {
        TermModel { modes: Modes { mouse_mode: if set { MouseMode::ButtonMotion } else { MouseMode::Off }, ..m }, ..t }
    } else if p == 1003 {
        TermModel { modes: Modes { mouse_mode: if set { MouseMode::AnyMotion } else { MouseMode::Off }, ..m }, ..t }
    } else if p == 1004 {
        TermModel { modes: Modes { focus_events: set, ..m }, ..t }
    } else if p == 1006 {
        TermModel { modes: Modes { mouse_encoding: if set { MouseEncoding::Sgr } else { MouseEncoding::Normal }, ..m }, ..t }
    } else if p == 1049 {
        with_grid(t, if set { spec_enter_alt(spec_save_cursor(g)) } else { spec_restore_cursor(spec_exit_alt(g)) })
    } else if p == 2004 {
        TermModel { modes: Modes { bracketed_paste: set, ..m }, ..t }
    } else {
        t
    }
}

pub open spec fn spec_set_modes(t: TermModel, params: Seq<i32>, set: bool) -> TermModel
    decreases params.len(),
{
    if params.len() == 0 {
        t
    } else {
        spec_set_modes(spec_set_mode_one(t, params[0], set), params.drop_first(), set)
    }
}

/// SM/RM: only private (`?`) modes are acted on.
pub open spec fn spec_set_mode(t: TermModel, params: Seq<i32>, private: Option<u8>, set: bool) -> TermModel {
    if private == Some(0x3Fu8) { spec_set_modes(t, params, set) } else { t }
}

/// One CSI sequence with final byte `fb`.
pub open spec fn spec_csi(t: TermModel, params: Seq<i32>, private: Option<u8>, fb: u8) -> TermModel {
    let g = t.grid;
    let row = g.cursor.row as int;
    let col = g.cursor.col as int;
    let rows = g.rows as int;
    let cols = g.cols as int;
    let n = spec_param(params, 0, 1) as int;
    if fb == 0x41 {
        with_grid(t, at(g, max_int(row - n, 0), col))
    } else if fb == 0x42 || fb == 0x65 {
        with_grid(t, at(g, min_int(row + n, rows - 1), col))
    } else if fb == 0x43 || fb == 0x61 {
        with_grid(t, at(g, row, min_int(col + n, cols - 1)))
    } else if fb == 0x44 {
        with_grid(t, at(g, row, max_int(col - n, 0)))
    } else if fb == 0x45 {
        with_grid(t, at(g, min_int(row + n, rows - 1), 0))
    } else if fb == 0x46 {
        with_grid(t, at(g, max_int(row - n, 0), 0))
    } else if fb == 0x47 || fb == 0x60 {
        with_grid(t, at(g, row, min_int(n - 1, cols - 1)))
    } else if fb == 0x48 || fb == 0x66 {
        let r = spec_param(params, 0, 1) - 1;
        let c = spec_param(params, 1, 1) - 1;
        let new_row = if t.modes.origin_mode {
            min_int(g.scroll_top + r, g.scroll_bottom - 1)
        } else {
            min_int(r, rows - 1)
        };
        with_grid(t, at(g, new_row, min_int(c, cols - 1)))
    } else if fb == 0x4A {
        with_grid(t, spec_erase_display(g, spec_param(params, 0, 0)))
    } else if fb == 0x4B {
        with_grid(t, spec_erase_line(g, spec_param(params, 0, 0)))
    } else if fb == 0x4C {
        with_grid(t, iter_insert_lines(g, row, g.scroll_bottom as int, n as nat))
    } else if fb == 0x4D {
        with_grid(t, iter_delete_lines(g, row, g.scroll_bottom as int, n as nat))
    } else if fb == 0x50 {
        with_grid(t, GridModel { screen: g.screen.update(row, delete_cells(g.screen[row], col, n)), ..g })
    } else if fb == 0x53 {
        with_grid(t, iter_scroll_up(g, n as nat))
    } else if fb == 0x54 {
        with_grid(t, iter_scroll_down(g, n as nat))
    } else if fb == 0x58 {
        with_grid(t, GridModel { screen: g.screen.update(row, erase_range(g.screen[row], col, col + n)), ..g })
    } else if fb == 0x40 {
        with_grid(t, GridModel { screen: g.screen.update(row, insert_blanks(g.screen[row], col, n)), ..g })
    } else if fb == 0x64 {
        with_grid(t, at(g, min_int(n - 1, rows - 1), col))
    } else if fb == 0x6D {
        TermModel { pen: spec_sgr(t.pen, params), ..t }
    } else if fb == 0x68 {
        spec_set_mode(t, params, private, true)
    } else if fb == 0x6C {
        spec_set_mode(t, params, private, false)
    } else if fb == 0x6E {
        if private.is_none() && spec_param(params, 0, 0) == 6 {
            TermModel { responses: t.responses.push(dsr_reply((row + 1) as nat, (col + 1) as nat)), ..t }
        } else {
            t
        }
    } else if fb == 0x72 {
        if private.is_none() {
            let g1 = spec_set_scroll_region(g, spec_param(params, 0, 1) - 1, spec_param(params, 1, rows as i32) as int);
            with_grid(t, at(g1, if t.modes.origin_mode { g1.scroll_top as int } else { 0 }, 0))
        } else {
            t
        }
    } else if fb == 0x73 {
        with_grid(t, spec_save_cursor(g))
    } else if fb == 0x75 {
        with_grid(t, spec_restore_cursor(g))
    } else if fb == 0x63 {
        if private.is_none() || private == Some(0x3Eu8) {
            TermModel { responses: t.responses.push(da_reply()), ..t }
        } else {
            t
        }
    } else {
        t
    }
}

/// One ESC sequence with final byte `fb`.
pub open spec fn spec_esc(t: TermModel, fb: u8) -> TermModel {
    let g = t.grid;
    if fb == 0x37 {
        with_grid(t, spec_save_cursor(g))
    } else if fb == 0x38 {
        with_grid(t, spec_restore_cursor(g))
    } else if fb == 0x44 {
        with_grid(t, spec_linefeed(g))
    } else if fb == 0x45 {
        with_grid(t, spec_linefeed(at(g, g.cursor.row as int, 0)))
    } else if fb == 0x4D {
        with_grid(t, spec_reverse_linefeed(g))
    } else if fb == 0x63 {
        spec_new_terminal(g.cols, g.rows)
    } else {
        t
    }
}

/// The text `String::from_utf8_lossy` makes of `bytes`: for valid UTF-8
/// the decoded characters, as its documentation states.
pub open spec fn lossy_text(bytes: Seq<u8>) -> Seq<char> {
    if vstd::utf8::valid_utf8(bytes) { vstd::utf8::decode_utf8(bytes) } else { utf8_lossy(bytes) }
}

/// OSC 0 and OSC 2 set the title; other OSC strings are ignored.
pub open spec fn spec_osc(t: TermModel, data: Seq<u8>) -> TermModel {
    let s = lossy_text(data);
    if s.len() >= 2 && (s[0] == '0' || s[0] == '2') && s[1] == ';' {
        TermModel { title: s.skip(2), ..t }
    } else {
        t
    }
}

/// Handling one action; any output first brings the viewport back to the
/// live screen.
#[verifier::opaque]
pub open spec fn spec_handle(t: TermModel, a: SpecAction) -> TermModel {
    let t0 = with_grid(t, spec_scroll_viewport_to_bottom(t.grid));
    match a {
        SpecAction::Print(ch) => spec_print(t0, ch),
        SpecAction::C0Control(b) => spec_c0(t0, b),
        SpecAction::CsiDispatch { params, private_marker, final_byte, .. } =>
            spec_csi(t0, params, private_marker, final_byte),
        SpecAction::EscDispatch { final_byte, .. } => spec_esc(t0, final_byte),
        SpecAction::OscDispatch(data) => spec_osc(t0, data),
        SpecAction::DcsDispatch(_) => t0,
    }
}

/// Handling actions in order.
pub open spec fn spec_handle_all(t: TermModel, actions: Seq<SpecAction>) -> TermModel
    decreases actions.len(),
{
    if actions.len() == 0 {
        t
    } else {
        spec_handle(spec_handle_all(t, actions.drop_last()), actions.last())
    }
}


// ---------------------------------------------------------------------
// Handling
// ---------------------------------------------------------------------

/// Apply one parsed action to the terminal.
pub fn handle(term: &mut Terminal, action: Action)
    requires
        term_wf(old(term)@),
        action_ok(action@, old(term)@.grid.cols),
    ensures
        term_wf(final(term)@),
        final(term)@ == spec_handle(old(term)@, action@),
        final(term)@.grid.cols == old(term)@.grid.cols,
{
    proof {
        reveal(spec_handle);
    }
    // Any output resets the viewport to the live screen.
    term.grid.scroll_viewport_to_bottom();
    match action {
        Action::Print(ch) => print_char(term, ch),
        Action::C0Control(byte) => c0_control(term, byte),
        Action::CsiDispatch { params, private_marker, final_byte, .. } =>
            csi_dispatch(term, params.as_slice(), private_marker, final_byte),
        Action::EscDispatch { intermediates, final_byte } =>
            esc_dispatch(term, intermediates.as_slice(), final_byte),
        Action::OscDispatch(data) => osc_dispatch(term, data.as_slice()),
        Action::DcsDispatch(_) => {},
    }
}

pub(crate) fn print_width_of(ch: char) -> (w: usize)
    ensures
        w == print_width(ch),
        1 <= w <= 3,
{
    match unicode_char_width(ch) {
        Some(x) => if x >= 1 { x } else { 1 },
        None => 1,
    }
}

fn print_wrap(term: &mut Terminal, width: usize)
    requires
        term_wf(old(term)@),
        1 <= width <= old(term)@.grid.cols,
    ensures
        term_wf(final(term)@),
        final(term)@ == with_grid(old(term)@, spec_print_wrap(old(term)@, width as int)),
        final(term)@.grid.cursor.col + width <= final(term)@.grid.cols,
{
    let ghost t = term@;
    if term.grid.cursor.col + width > term.grid.cols {
        if term.modes.auto_wrap {
            term.grid.cursor.col = 0;
            linefeed(term);
        } else {
            term.grid.cursor.col = term.grid.cols - width;
        }
    }
    assert(term@ =~= with_grid(t, spec_print_wrap(t, width as int)));
}

fn print_char(term: &mut Terminal, ch: char)
    requires
        term_wf(old(term)@),
        print_width(ch) <= old(term)@.grid.cols,
    ensures
        term_wf(final(term)@),
        final(term)@ == spec_print(old(term)@, ch),
{
    let ghost t = term@;
    let width = print_width_of(ch);
    print_wrap(term, width);
    let ghost t1 = term@;
    let row = term.grid.cursor.row;
    let col = term.grid.cursor.col;
    let cell = Cell { ch, fg: term.pen.fg, bg: term.pen.bg, attrs: term.pen.attrs, width: width as u8 };
    term.grid.set_cell(row, col, cell);
    if width == 2 && col + 1 < term.grid.cols {
        let cont = Cell { ch: ' ', fg: term.pen.fg, bg: term.pen.bg, attrs: term.pen.attrs, width: 0 };
        term.grid.set_cell(row, col + 1, cont);
    }
    term.grid.cursor.col = col + width;
    assert(term@.grid =~= at(GridModel { screen: term@.grid.screen, ..t1.grid }, row as int, (col + width) as int));
    assert(term@ =~= spec_print(t, ch));
}

fn linefeed(term: &mut Terminal)
    requires
        term_wf(old(term)@),
    ensures
        term_wf(final(term)@),
        final(term)@ == with_grid(old(term)@, spec_linefeed(old(term)@.grid)),
{
    let ghost t = term@;
    if term.grid.cursor.row + 1 >= term.grid.scroll_bottom {
        term.grid.scroll_up();
    } else {
        term.grid.cursor.row = term.grid.cursor.row + 1;
    }
    assert(term@ =~= with_grid(t, spec_linefeed(t.grid)));
}

fn reverse_linefeed(term: &mut Terminal)
    requires
        term_wf(old(term)@),
    ensures
        term_wf(final(term)@),
        final(term)@ == with_grid(old(term)@, spec_reverse_linefeed(old(term)@.grid)),
{
    let ghost t = term@;
    if term.grid.cursor.row <= term.grid.scroll_top {
        term.grid.scroll_down();
    } else {
        term.grid.cursor.row = term.grid.cursor.row - 1;
    }
    assert(term@ =~= with_grid(t, spec_reverse_linefeed(t.grid)));
}

fn c0_control(term: &mut Terminal, byte: u8)
    requires
        term_wf(old(term)@),
    ensures
        term_wf(final(term)@),
        final(term)@ == spec_c0(old(term)@, byte),
{
    let ghost t = term@;
    if byte == 0x08 {
        if term.grid.cursor.col > 0 {
            term.grid.cursor.col = term.grid.cursor.col - 1;
        }
    } else if byte == 0x09 {
        let next_tab = (term.grid.cursor.col / 8 + 1) * 8;
        let last = term.grid.cols - 1;
        term.grid.cursor.col = if next_tab < last { next_tab } else { last };
    } else if byte == 0x0A || byte == 0x0B || byte == 0x0C {
        linefeed(term);
    } else if byte == 0x0D {
        term.grid.cursor.col = 0;
    }
    assert(term@ =~= spec_c0(t, byte));
}

fn param(params: &[i32], idx: usize, default: i32) -> (p: i32)
    ensures
        p == spec_param(params@, idx as int, default),
{
    if idx < params.len() {
        let v = params[idx];
        if v == 0 { default } else { v }
    } else {
        default
    }
}

/// `line` with cells `lo..hi` blanked.
fn erased(line: &Vec<Cell>, lo: usize, hi: usize) -> (v: Vec<Cell>)
    ensures
        v@ == erase_range(line@, lo as int, hi as int),
{
    let mut v: Vec<Cell> = Vec::new();
    let mut c: usize = 0;
    while c < line.len()
        invariant
            c <= line@.len(),
            v@ =~= erase_range(line@, lo as int, hi as int).take(c as int),
        decreases line@.len() - c,
    {
        if lo <= c && c < hi {
            v.push(Cell::blank());
        } else {
            v.push(line[c]);
        }
        c = c + 1;
    }
    assert(erase_range(line@, lo as int, hi as int).take(c as int) =~= erase_range(line@, lo as int, hi as int));
    v
}

/// `line` with `n` cells deleted at `col`.
fn deleted(line: &Vec<Cell>, col: usize, n: usize) -> (v: Vec<Cell>)
    ensures
        v@ == delete_cells(line@, col as int, n as int),
{
    let mut v: Vec<Cell> = Vec::new();
    let mut c: usize = 0;
    let len = line.len();
    while c < len
        invariant
            c <= len,
            len == line@.len(),
            v@ =~= delete_cells(line@, col as int, n as int).take(c as int),
        decreases len - c,
    {
        if c < col {
            v.push(line[c]);
        } else if n < len - c {
            v.push(line[c + n]);
        } else {
            v.push(Cell::blank());
        }
        c = c + 1;
    }
    assert(delete_cells(line@, col as int, n as int).take(c as int) =~= delete_cells(line@, col as int, n as int));
    v
}

/// `line` with `n` blanks inserted at `col`.
fn inserted(line: &Vec<Cell>, col: usize, n: usize) -> (v: Vec<Cell>)
    ensures
        v@ == insert_blanks(line@, col as int, n as int),
{
    let mut v: Vec<Cell> = Vec::new();
    let mut c: usize = 0;
    let len = line.len();
    while c < len
        invariant
            c <= len,
            len == line@.len(),
            v@ =~= insert_blanks(line@, col as int, n as int).take(c as int),
        decreases len - c,
    {
        if c < col {
            v.push(line[c]);
        } else if c - col < n {
            v.push(Cell::blank());
        } else {
            v.push(line[c - n]);
        }
        c = c + 1;
    }
    assert(insert_blanks(line@, col as int, n as int).take(c as int) =~= insert_blanks(line@, col as int, n as int));
    v
}

/// Swap rows `a` and `b` of the screen, cell by cell.
fn swap_rows(grid: &mut Grid, a: usize, b: usize)
    requires
        old(grid).wf(),
    ensures
        final(grid).wf(),
        final(grid)@ == (if a != b && a < old(grid).rows && b < old(grid).rows {
            GridModel {
                screen: old(grid)@.screen.update(a as int, old(grid)@.screen[b as int]).update(b as int, old(grid)@.screen[a as int]),
                ..old(grid)@
            }
        } else {
            old(grid)@
        }),
{
    if a != b && a < grid.rows && b < grid.rows {
        let ghost g = grid@;
        let mut c: usize = 0;
        while c < grid.cols
            invariant
                grid.wf(),
                a != b,
                a < grid.rows,
                b < grid.rows,
                c <= grid.cols,
                grid.cols == g.cols,
                grid.rows == g.rows,
                grid_wf(g),
                g.screen[a as int].len() == g.cols,
                g.screen[b as int].len() == g.cols,
                grid@ == (GridModel { screen: grid@.screen, ..g }),
                grid@.screen.len() == g.screen.len(),
                forall|r: int| 0 <= r < g.rows && r != a && r != b ==> #[trigger] grid@.screen[r] == g.screen[r],
                grid@.screen[a as int] =~= g.screen[b as int].take(c as int) + g.screen[a as int].skip(c as int),
                grid@.screen[b as int] =~= g.screen[a as int].take(c as int) + g.screen[b as int].skip(c as int),
            decreases grid.cols - c,
        {
            let ghost cur = grid@.screen;
            let ca = *grid.cell(a, c);
            let cb = *grid.cell(b, c);
            assert(ca == g.screen[a as int][c as int]);
            assert(cb == g.screen[b as int][c as int]);
            grid.set_cell(a, c, cb);
            grid.set_cell(b, c, ca);
            assert(grid@.screen[a as int] == cur[a as int].update(c as int, cb));
            assert(grid@.screen[b as int] == cur[b as int].update(c as int, ca));
            assert(cur[a as int].update(c as int, cb) =~= g.screen[b as int].take(c + 1) + g.screen[a as int].skip(c + 1));
            assert(cur[b as int].update(c as int, ca) =~= g.screen[a as int].take(c + 1) + g.screen[b as int].skip(c + 1));
            c = c + 1;
        }
        assert(g.screen[b as int].take(c as int) + g.screen[a as int].skip(c as int) =~= g.screen[b as int]);
        assert(g.screen[a as int].take(c as int) + g.screen[b as int].skip(c as int) =~= g.screen[a as int]);
        assert(grid@.screen =~= g.screen.update(a as int, g.screen[b as int]).update(b as int, g.screen[a as int]));
        assert(grid@ =~= GridModel {
            screen: g.screen.update(a as int, g.screen[b as int]).update(b as int, g.screen[a as int]),
            ..g
        });
    }
}

/// IL once: rows `row..bottom` move down by one, `row` becomes blank.
fn insert_line(grid: &mut Grid, row: usize, bottom: usize)
    requires
        old(grid).wf(),
        row < bottom <= old(grid).rows,
    ensures
        final(grid).wf(),
        final(grid)@ == spec_scroll_down_in_region(old(grid)@, row as int, bottom as int),
{
    let ghost g = grid@;
    let mut r: usize = bottom - 1;
    while r > row
        invariant
            grid.wf(),
            row <= r < bottom <= g.rows,
            grid_wf(g),
            grid@ == (GridModel { screen: grid@.screen, ..g }),
            grid@.screen =~= g.screen.take(r as int) + seq![g.screen[bottom - 1]]
                + g.screen.subrange(r as int, bottom - 1) + g.screen.skip(bottom as int),
        decreases r,
    {
        let ghost cur = grid@.screen;
        assert(cur[r as int] == g.screen[bottom - 1]);
        assert(cur[r - 1] == g.screen[r - 1]);
        swap_rows(grid, r, r - 1);
        assert(grid@.screen == cur.update(r as int, cur[r - 1]).update(r - 1, cur[r as int]));
        assert(cur.update(r as int, cur[r - 1]).update(r - 1, cur[r as int]) =~= g.screen.take(r - 1) + seq![g.screen[bottom - 1]]
            + g.screen.subrange(r - 1, bottom - 1) + g.screen.skip(bottom as int));
        r = r - 1;
    }
    grid.clear_row(row);
    assert(grid@ =~= spec_scroll_down_in_region(g, row as int, bottom as int));
}

/// DL once: rows `row..bottom` move up by one, `bottom - 1` becomes blank.
fn delete_line(grid: &mut Grid, row: usize, bottom: usize)
    requires
        old(grid).wf(),
        row < bottom <= old(grid).rows,
    ensures
        final(grid).wf(),
        final(grid)@ == spec_delete_line(old(grid)@, row as int, bottom as int),
{
    let ghost g = grid@;
    let mut r: usize = row;
    while r < bottom - 1
        invariant
            grid.wf(),
            row <= r < bottom <= g.rows,
            grid_wf(g),
            grid@ == (GridModel { screen: grid@.screen, ..g }),
            grid@.screen =~= g.screen.take(row as int) + g.screen.subrange(row + 1, r + 1)
                + seq![g.screen[row as int]] + g.screen.skip(r + 1),
        decreases bottom - r,
    {
        let ghost cur = grid@.screen;
        assert(cur[r as int] == g.screen[row as int]);
        assert(cur[r + 1] == g.screen[r + 1]);
        swap_rows(grid, r, r + 1);
        assert(grid@.screen == cur.update(r as int, cur[r + 1]).update(r + 1, cur[r as int]));
        assert(cur.update(r as int, cur[r + 1]).update(r + 1, cur[r as int]) =~= g.screen.take(row as int)
            + g.screen.subrange(row + 1, r + 2) + seq![g.screen[row as int]] + g.screen.skip(r + 2));
        r = r + 1;
    }
    grid.clear_row(bottom - 1);
    assert(grid@ =~= spec_delete_line(g, row as int, bottom as int));
}


pub(crate) fn push_decimal(out: &mut Vec<u8>, v: usize)
    ensures
        final(out)@ == old(out)@ + decimal(v as nat),
    decreases v,
{
    if v >= 10 {
        push_decimal(out, v / 10);
    }
    let d = (v % 10) as u8;
    out.push(48 + d);
    proof {
        if v >= 10 {
            assert(decimal(v as nat) == decimal((v / 10) as nat).push((48 + v % 10) as u8));
        }
    }
    assert(out@ =~= old(out)@ + decimal(v as nat));
}

fn push_response(term: &mut Terminal, r: Vec<u8>)
    ensures
        final(term)@ == (TermModel { responses: old(term)@.responses.push(r@), ..old(term)@ }),
{
    term.responses.push(r);
    assert(responses_view(term.responses@) =~= responses_view(old(term).responses@).push(r@));
    assert(term@ =~= TermModel { responses: old(term)@.responses.push(r@), ..old(term)@ });
}

/// The final bytes of the cursor-movement sequences.
pub open spec fn is_cursor_move(fb: u8) -> bool {
    fb == 0x41 || fb == 0x42 || fb == 0x65 || fb == 0x43 || fb == 0x61 || fb == 0x44 || fb == 0x45
        || fb == 0x46 || fb == 0x47 || fb == 0x60 || fb == 0x48 || fb == 0x66 || fb == 0x64
}

/// The final bytes of the sequences that edit the current line.
pub open spec fn is_line_edit(fb: u8) -> bool {
    fb == 0x4B || fb == 0x50 || fb == 0x58 || fb == 0x40
}

/// The final bytes of the sequences that move whole lines.
pub open spec fn is_line_move(fb: u8) -> bool {
    fb == 0x4C || fb == 0x4D || fb == 0x53 || fb == 0x54
}

fn csi_dispatch(term: &mut Terminal, params: &[i32], private: Option<u8>, final_byte: u8)
    requires
        term_wf(old(term)@),
        forall|i: int| 0 <= i < params@.len() ==> #[trigger] params@[i] >= 0,
    ensures
        term_wf(final(term)@),
        final(term)@ == spec_csi(old(term)@, params@, private, final_byte),
        final(term)@.grid.cols == old(term)@.grid.cols,
{
    let ghost t = term@;
    if final_byte == 0x41 || final_byte == 0x42 || final_byte == 0x65 || final_byte == 0x43
        || final_byte == 0x61 || final_byte == 0x44 || final_byte == 0x45 || final_byte == 0x46
        || final_byte == 0x47 || final_byte == 0x60 || final_byte == 0x48 || final_byte == 0x66
        || final_byte == 0x64 {
        csi_cursor_move(term, params, private, final_byte);
    } else if final_byte == 0x4A {
        erase_display(term, param(params, 0, 0));
    } else if final_byte == 0x4B || final_byte == 0x50 || final_byte == 0x58 || final_byte == 0x40 {
        csi_line_edit(term, params, private, final_byte);
    } else if final_byte == 0x4C || final_byte == 0x4D || final_byte == 0x53 || final_byte == 0x54 {
        csi_line_move(term, params, private, final_byte);
    } else if final_byte == 0x6D {
        handle_sgr(term, params);
    } else if final_byte == 0x68 {
        set_mode(term, params, private, true);
    } else if final_byte == 0x6C {
        set_mode(term, params, private, false);
    } else {
        csi_report_or_region(term, params, private, final_byte);
    }
}

#[verifier::rlimit(80)]
fn csi_cursor_move(term: &mut Terminal, params: &[i32], private: Option<u8>, final_byte: u8)
    requires
        term_wf(old(term)@),
        forall|i: int| 0 <= i < params@.len() ==> #[trigger] params@[i] >= 0,
        is_cursor_move(final_byte),
    ensures
        term_wf(final(term)@),
        final(term)@ == spec_csi(old(term)@, params@, private, final_byte),
        final(term)@.grid.cols == old(term)@.grid.cols,
{
    let ghost t = term@;
    let rows = term.grid.rows;
    let cols = term.grid.cols;
    let row = term.grid.cursor.row;
    let col = term.grid.cursor.col;
    let n = param(params, 0, 1) as usize;
    if final_byte == 0x41 {
        term.grid.cursor.row = row.saturating_sub(n);
    } else if final_byte == 0x42 || final_byte == 0x65 {
        term.grid.cursor.row = if n >= rows - 1 - row { rows - 1 } else { row + n };
    } else if final_byte == 0x43 || final_byte == 0x61 {
        term.grid.cursor.col = if col >= cols - 1 || n >= cols - 1 - col { cols - 1 } else { col + n };
    } else if final_byte == 0x44 {
        term.grid.cursor.col = col.saturating_sub(n);
    } else if final_byte == 0x45 {
        term.grid.cursor.row = if n >= rows - 1 - row { rows - 1 } else { row + n };
        term.grid.cursor.col = 0;
    } else if final_byte == 0x46 {
        term.grid.cursor.row = row.saturating_sub(n);
        term.grid.cursor.col = 0;
    } else if final_byte == 0x47 || final_byte == 0x60 {
        let c = n - 1;
        term.grid.cursor.col = if c < cols - 1 { c } else { cols - 1 };
    } else if final_byte == 0x48 || final_byte == 0x66 {
        let r = (param(params, 0, 1) - 1) as usize;
        let c = (param(params, 1, 1) - 1) as usize;
        if term.modes.origin_mode {
            let top = term.grid.scroll_top;
            let last = term.grid.scroll_bottom - 1;
            term.grid.cursor.row = if r >= last - top { last } else { top + r };
        } else {
            term.grid.cursor.row = if r < rows - 1 { r } else { rows - 1 };
        }
        term.grid.cursor.col = if c < cols - 1 { c } else { cols - 1 };
    } else {
        let r = n - 1;
        term.grid.cursor.row = if r < rows - 1 { r } else { rows - 1 };
    }
    assert(term@ =~= spec_csi(t, params@, private, final_byte));
}

fn csi_line_edit(term: &mut Terminal, params: &[i32], private: Option<u8>, final_byte: u8)
    requires
        term_wf(old(term)@),
        forall|i: int| 0 <= i < params@.len() ==> #[trigger] params@[i] >= 0,
        is_line_edit(final_byte),
    ensures
        term_wf(final(term)@),
        final(term)@ == spec_csi(old(term)@, params@, private, final_byte),
        final(term)@.grid.cols == old(term)@.grid.cols,
{
    let ghost t = term@;
    let ghost g = t.grid;
    let cols = term.grid.cols;
    let row = term.grid.cursor.row;
    let col = term.grid.cursor.col;
    let n = param(params, 0, 1) as usize;
    assert(term.grid.cells@[row as int]@ == g.screen[row as int]);
    if final_byte == 0x4B {
        let mode = param(params, 0, 0);
        if mode == 0 {
            let line = erased(&term.grid.cells[row], col, cols);
            term.grid.set_line(row, line);
        } else if mode == 1 {
            let line = erased(&term.grid.cells[row], 0, col + 1);
            term.grid.set_line(row, line);
        } else if mode == 2 {
            term.grid.clear_row(row);
        }
    } else if final_byte == 0x50 {
        let line = deleted(&term.grid.cells[row], col, n);
        term.grid.set_line(row, line);
    } else if final_byte == 0x58 {
        let line = erased(&term.grid.cells[row], col, col + n);
        term.grid.set_line(row, line);
    } else {
        let line = inserted(&term.grid.cells[row], col, n);
        term.grid.set_line(row, line);
    }
    assert(term@ =~= spec_csi(t, params@, private, final_byte));
}

fn csi_line_move(term: &mut Terminal, params: &[i32], private: Option<u8>, final_byte: u8)
    requires
        term_wf(old(term)@),
        forall|i: int| 0 <= i < params@.len() ==> #[trigger] params@[i] >= 0,
        is_line_move(final_byte),
    ensures
        term_wf(final(term)@),
        final(term)@ == spec_csi(old(term)@, params@, private, final_byte),
        final(term)@.grid.cols == old(term)@.grid.cols,
{
    let ghost t = term@;
    let ghost g = t.grid;
    let rows = term.grid.rows;
    let cols = term.grid.cols;
    let row = term.grid.cursor.row;
    let n = param(params, 0, 1) as usize;
    if final_byte == 0x4C {
        let bottom = term.grid.scroll_bottom;
        let mut k: usize = 0;
        while k < n
            invariant
                k <= n,
                term_wf(term@),
                term@ == with_grid(t, iter_insert_lines(g, row as int, bottom as int, k as nat)),
                term@.grid.rows == rows,
                term@.grid.cols == cols,
                term@.grid.scroll_bottom == bottom,
                term@.grid.cursor == g.cursor,
            decreases n - k,
        {
            if row < bottom {
                insert_line(&mut term.grid, row, bottom);
            }
            k = k + 1;
        }
    } else if final_byte == 0x4D {
        let bottom = term.grid.scroll_bottom;
        let mut k: usize = 0;
        while k < n
            invariant
                k <= n,
                term_wf(term@),
                term@ == with_grid(t, iter_delete_lines(g, row as int, bottom as int, k as nat)),
                term@.grid.rows == rows,
                term@.grid.cols == cols,
                term@.grid.scroll_bottom == bottom,
                term@.grid.cursor == g.cursor,
            decreases n - k,
        {
            if row < bottom {
                delete_line(&mut term.grid, row, bottom);
            }
            k = k + 1;
        }
    } else if final_byte == 0x53 {
        let mut k: usize = 0;
        while k < n
            invariant
                k <= n,
                term_wf(term@),
                term@ == with_grid(t, iter_scroll_up(g, k as nat)),
                term@.grid.cols == cols,
            decreases n - k,
        {
            term.grid.scroll_up();
            k = k + 1;
        }
    } else {
        let mut k: usize = 0;
        while k < n
            invariant
                k <= n,
                term_wf(term@),
                term@ == with_grid(t, iter_scroll_down(g, k as nat)),
                term@.grid.cols == cols,
            decreases n - k,
        {
            term.grid.scroll_down();
            k = k + 1;
        }
    }
}

#[verifier::rlimit(80)]
fn csi_report_or_region(term: &mut Terminal, params: &[i32], private: Option<u8>, final_byte: u8)
    requires
        term_wf(old(term)@),
        forall|i: int| 0 <= i < params@.len() ==> #[trigger] params@[i] >= 0,
        !is_cursor_move(final_byte),
        !is_line_edit(final_byte),
        !is_line_move(final_byte),
        final_byte != 0x4A,
        final_byte != 0x6D,
        final_byte != 0x68,
        final_byte != 0x6C,
    ensures
        term_wf(final(term)@),
        final(term)@ == spec_csi(old(term)@, params@, private, final_byte),
        final(term)@.grid.cols == old(term)@.grid.cols,
{
    let ghost t = term@;
    let rows = term.grid.rows;
    let row = term.grid.cursor.row;
    let col = term.grid.cursor.col;
    if final_byte == 0x6E {
        if private.is_none() && param(params, 0, 0) == 6 {
            let mut reply: Vec<u8> = Vec::new();
            reply.push(0x1B);
            reply.push(0x5B);
            push_decimal(&mut reply, row + 1);
            reply.push(0x3B);
            push_decimal(&mut reply, col + 1);
            reply.push(0x52);
            assert(reply@ =~= dsr_reply((row + 1) as nat, (col + 1) as nat));
            push_response(term, reply);
        }
    } else if final_byte == 0x72 {
        if private.is_none() {
            let top = (param(params, 0, 1) - 1) as usize;
            let bottom = param(params, 1, rows as i32) as usize;
            term.grid.set_scroll_region(top, bottom);
            term.grid.cursor.row = if term.modes.origin_mode { term.grid.scroll_top } else { 0 };
            term.grid.cursor.col = 0;
        }
    } else if final_byte == 0x73 {
        term.grid.save_cursor();
    } else if final_byte == 0x75 {
        term.grid.restore_cursor();
    } else if final_byte == 0x63 {
        if private.is_none() || private == Some(0x3Eu8) {
            let reply: Vec<u8> = vec![0x1B, 0x5B, 0x3F, 0x36, 0x32, 0x3B, 0x32, 0x32, 0x63];
            assert(reply@ =~= da_reply());
            push_response(term, reply);
        }
    }
    assert(term@ =~= spec_csi(t, params@, private, final_byte));
}

fn erase_display(term: &mut Terminal, mode: i32)
    requires
        term_wf(old(term)@),
    ensures
        term_wf(final(term)@),
        final(term)@ == with_grid(old(term)@, spec_erase_display(old(term)@.grid, mode)),
{
    let ghost t = term@;
    let ghost g = t.grid;
    let ghost target = spec_erase_display(g, mode);
    if !(0 <= mode && mode <= 3) {
        assert(term@ =~= with_grid(t, target));
        return;
    }
    let rows = term.grid.rows;
    let cols = term.grid.cols;
    let row = term.grid.cursor.row;
    let col = term.grid.cursor.col;
    let mut r: usize = 0;
    while r < rows
        invariant
            r <= rows,
            rows == g.rows,
            cols == g.cols,
            row == g.cursor.row,
            col == g.cursor.col,
            0 <= mode <= 3,
            target.screen.len() == rows,
            forall|x: int| 0 <= x < rows ==> #[trigger] target.screen[x] == erase_display_row(g, mode, x),
            term_wf(term@),
            term@ == with_grid(t, GridModel { screen: term@.grid.screen, ..g }),
            term@.grid.screen.len() == rows,
            forall|x: int| 0 <= x < r ==> #[trigger] term@.grid.screen[x] == target.screen[x],
            forall|x: int| r <= x < rows ==> #[trigger] term@.grid.screen[x] == g.screen[x],
        decreases rows - r,
    {
        let ghost before = term@.grid.screen;
        assert(term.grid.cells@[r as int]@ == before[r as int]);
        assert(before[r as int] == g.screen[r as int]);
        if mode == 0 {
            if r == row {
                let line = erased(&term.grid.cells[r], col, cols);
                term.grid.set_line(r, line);
                
            } else if r > row {
                term.grid.clear_row(r);
                
            } else {
                
            }
        } else if mode == 1 {
            if r < row {
                term.grid.clear_row(r);
                
            } else if r == row {
                let line = erased(&term.grid.cells[r], 0, col + 1);
                term.grid.set_line(r, line);
                
            } else {
                
            }
        } else {
            term.grid.clear_row(r);
            
        }
        assert(term@.grid.screen[r as int] == erase_display_row(g, mode, r as int));
        assert(term@.grid.screen =~= before.update(r as int, target.screen[r as int]));
        assert forall|x: int| 0 <= x < r + 1 implies #[trigger] term@.grid.screen[x] == target.screen[x] by {
            if x < r {
                assert(term@.grid.screen[x] == before[x]);
            }
        }
        assert forall|x: int| r + 1 <= x < rows implies #[trigger] term@.grid.screen[x] == g.screen[x] by {
            assert(term@.grid.screen[x] == before[x]);
        }
        r = r + 1;
    }
    assert(term@.grid.screen =~= target.screen);
    assert(term@ =~= with_grid(t, target));
}

fn handle_sgr(term: &mut Terminal, params: &[i32])
    requires
        term_wf(old(term)@),
    ensures
        term_wf(final(term)@),
        final(term)@ == (TermModel { pen: spec_sgr(old(term)@.pen, params@), ..old(term)@ }),
{
    let ghost t = term@;
    if params.len() == 0 {
        term.pen = Pen::default();
        assert(term@ =~= TermModel { pen: spec_sgr(t.pen, params@), ..t });
        return;
    }
    let len = params.len();
    let mut i: usize = 0;
    while i < len
        invariant
            len == params@.len(),
            i <= len,
            term@ == (TermModel { pen: term.pen, ..t }),
            term_wf(term@),
            spec_sgr_from(t.pen, params@, 0) == spec_sgr_from(term.pen, params@, i as int),
        decreases len + 1 - i,
    {
        let ghost pen0 = term.pen;
        let ghost (p2, next) = sgr_one(pen0, params@, i as int);
        let next_i = sgr_step(term, params, i);
        i = if next_i < len { next_i } else { len };
    }
    assert(term@ =~= TermModel { pen: spec_sgr(t.pen, params@), ..t });
}

fn sgr_step(term: &mut Terminal, params: &[i32], start: usize) -> (next: usize)
    requires
        term_wf(old(term)@),
        start < params@.len(),
    ensures
        final(term)@ == (TermModel { pen: sgr_one(old(term)@.pen, params@, start as int).0, ..old(term)@ }),
        next == min_int(sgr_one(old(term)@.pen, params@, start as int).1, params@.len() as int),
        term_wf(final(term)@),
{
    let p = params[start];
    if p == 38 || p == 48 {
        sgr_extended_step(term, params, start, p == 38)
    } else {
        sgr_simple(&mut term.pen, p);
        start + 1
    }
}

fn sgr_extended_step(term: &mut Terminal, params: &[i32], start: usize, fg: bool) -> (next: usize)
    requires
        term_wf(old(term)@),
        start < params@.len(),
    ensures
        final(term)@ == (TermModel { pen: sgr_extended(old(term)@.pen, params@, start as int, fg).0, ..old(term)@ }),
        next == min_int(sgr_extended(old(term)@.pen, params@, start as int, fg).1, params@.len() as int),
        term_wf(final(term)@),
{
    let ghost t = term@;
    let len = params.len();
    let j = start + 1;
    let mut next = if j < len { j + 1 } else { len };
    if j < len {
        if params[j] == 5 {
            let k = j + 1;
            next = len;
            if k < len {
                let c = Color::Indexed(params[k] as u8);
                if fg { term.pen.fg = c; } else { term.pen.bg = c; }
                next = k + 1;
            }
        } else if params[j] == 2 {
            if len > 3 && j < len - 3 {
                let c = Color::Rgb(params[j + 1] as u8, params[j + 2] as u8, params[j + 3] as u8);
                if fg { term.pen.fg = c; } else { term.pen.bg = c; }
                next = j + 4;
            }
        }
    }
    assert(term@ =~= TermModel { pen: sgr_extended(t.pen, params@, start as int, fg).0, ..t });
    next
}

fn sgr_simple(pen: &mut Pen, p: i32)
    ensures
        *final(pen) == sgr_simple_pen(*old(pen), p),
{
    if p == 0 {
        *pen = Pen::default();
    } else if p == 1 {
        pen.attrs.bold = true;
    } else if p == 2 {
        pen.attrs.dim = true;
    } else if p == 3 {
        pen.attrs.italic = true;
    } else if p == 4 || p == 21 {
        pen.attrs.underline = true;
    } else if p == 7 {
        pen.attrs.inverse = true;
    } else if p == 8 {
        pen.attrs.hidden = true;
    } else if p == 9 {
        pen.attrs.strikethrough = true;
    } else if p == 22 {
        pen.attrs.bold = false;
        pen.attrs.dim = false;
    } else if p == 23 {
        pen.attrs.italic = false;
    } else if p == 24 {
        pen.attrs.underline = false;
    } else if p == 27 {
        pen.attrs.inverse = false;
    } else if p == 28 {
        pen.attrs.hidden = false;
    } else if p == 29 {
        pen.attrs.strikethrough = false;
    } else if 30 <= p && p <= 37 {
        pen.fg = Color::Indexed((p - 30) as u8);
    } else if p == 39 {
        pen.fg = Color::Default;
    } else if 40 <= p && p <= 47 {
        pen.bg = Color::Indexed((p - 40) as u8);
    } else if p == 49 {
        pen.bg = Color::Default;
    } else if 90 <= p && p <= 97 {
        pen.fg = Color::Indexed((p - 90 + 8) as u8);
    } else if 100 <= p && p <= 107 {
        pen.bg = Color::Indexed((p - 100 + 8) as u8);
    }
}

fn set_mode(term: &mut Terminal, params: &[i32], private: Option<u8>, set: bool)
    requires
        term_wf(old(term)@),
    ensures
        term_wf(final(term)@),
        final(term)@ == spec_set_mode(old(term)@, params@, private, set),
        final(term)@.grid.cols == old(term)@.grid.cols,
{
    let ghost t = term@;
    if private == Some(0x3Fu8) {
        let mut i: usize = 0;
        assert(params@.skip(0) =~= params@);
        while i < params.len()
            invariant
                i <= params@.len(),
                term_wf(term@),
                term@.grid.cols == t.grid.cols,
                spec_set_modes(t, params@, set) == spec_set_modes(term@, params@.skip(i as int), set),
            decreases params@.len() - i,
        {
            let ghost before = term@;
            assert(params@.skip(i as int).drop_first() =~= params@.skip(i + 1));
            assert(params@.skip(i as int)[0] == params@[i as int]);
            set_mode_one(term, params[i], set);
            i = i + 1;
        }
        assert(params@.skip(i as int) =~= Seq::<i32>::empty());
    }
}

fn set_mode_one(term: &mut Terminal, p: i32, set: bool)
    requires
        term_wf(old(term)@),
    ensures
        term_wf(final(term)@),
        final(term)@ == spec_set_mode_one(old(term)@, p, set),
        final(term)@.grid.cols == old(term)@.grid.cols,
{
    if p == 47 || p == 1047 || p == 1049 {
        set_screen_mode(term, p, set);
    } else if p == 6 || p == 25 {
        set_cursor_mode(term, p, set);
    } else {
        set_flag_mode(term, p, set);
    }
}

/// Modes 47, 1047 and 1049: the alternate screen.
#[verifier::rlimit(40)]
fn set_screen_mode(term: &mut Terminal, p: i32, set: bool)
    requires
        term_wf(old(term)@),
        p == 47 || p == 1047 || p == 1049,
    ensures
        term_wf(final(term)@),
        final(term)@ == spec_set_mode_one(old(term)@, p, set),
        final(term)@.grid.cols == old(term)@.grid.cols,
{
    let ghost t = term@;
    if p == 1049 {
        if set {
            term.grid.save_cursor();
            term.grid.enter_alt_screen();
        } else {
            term.grid.exit_alt_screen();
            term.grid.restore_cursor();
        }
    } else if set {
        term.grid.enter_alt_screen();
    } else {
        term.grid.exit_alt_screen();
    }
    assert(term@ =~= spec_set_mode_one(t, p, set));
}

/// Modes 6 (origin) and 25 (cursor visible).
#[verifier::rlimit(40)]
fn set_cursor_mode(term: &mut Terminal, p: i32, set: bool)
    requires
        term_wf(old(term)@),
        p == 6 || p == 25,
    ensures
        term_wf(final(term)@),
        final(term)@ == spec_set_mode_one(old(term)@, p, set),
        final(term)@.grid.cols == old(term)@.grid.cols,
{
    let ghost t = term@;
    if p == 6 {
        term.modes.origin_mode = set;
        term.grid.cursor.row = if set { term.grid.scroll_top } else { 0 };
        term.grid.cursor.col = 0;
    } else {
        term.grid.cursor.visible = set;
    }
    assert(term@ =~= spec_set_mode_one(t, p, set));
}

/// The modes that only switch a flag (and the unknown ones, which change
/// nothing).
#[verifier::rlimit(40)]
fn set_flag_mode(term: &mut Terminal, p: i32, set: bool)
    requires
        term_wf(old(term)@),
        !(p == 47 || p == 1047 || p == 1049 || p == 6 || p == 25),
    ensures
        term_wf(final(term)@),
        final(term)@ == spec_set_mode_one(old(term)@, p, set),
        final(term)@.grid.cols == old(term)@.grid.cols,
{
    let ghost t = term@;
    if p == 1 {
        term.modes.cursor_keys_application = set;
    } else if p == 7 {
        term.modes.auto_wrap = set;
    } else if p == 1000 {
        term.modes.mouse_mode = if set { MouseMode::Press } else { MouseMode::Off };
    } else if p == 1002 {
        term.modes.mouse_mode = if set { MouseMode::ButtonMotion } else { MouseMode::Off };
    } else if p == 1003 {
        term.modes.mouse_mode = if set { MouseMode::AnyMotion } else { MouseMode::Off };
    } else if p == 1004 {
        term.modes.focus_events = set;
    } else if p == 1006 {
        term.modes.mouse_encoding = if set { MouseEncoding::Sgr } else { MouseEncoding::Normal };
    } else if p == 2004 {
        term.modes.bracketed_paste = set;
    }
    assert(term@ =~= spec_set_mode_one(t, p, set));
}

fn esc_dispatch(term: &mut Terminal, _intermediates: &[u8], final_byte: u8)
    requires
        term_wf(old(term)@),
    ensures
        term_wf(final(term)@),
        final(term)@ == spec_esc(old(term)@, final_byte),
        final(term)@.grid.cols == old(term)@.grid.cols,
{
    let ghost t = term@;
    if final_byte == 0x37 {
        term.grid.save_cursor();
    } else if final_byte == 0x38 {
        term.grid.restore_cursor();
    } else if final_byte == 0x44 {
        linefeed(term);
    } else if final_byte == 0x45 {
        term.grid.cursor.col = 0;
        linefeed(term);
    } else if final_byte == 0x4D {
        reverse_linefeed(term);
    } else if final_byte == 0x63 {
        let cols = term.grid.cols;
        let rows = term.grid.rows;
        *term = Terminal::new(cols, rows);
    }
    assert(term@ =~= spec_esc(t, final_byte));
}

fn osc_dispatch(term: &mut Terminal, data: &[u8])
    requires
        term_wf(old(term)@),
    ensures
        term_wf(final(term)@),
        final(term)@ == spec_osc(old(term)@, data@),
{
    let ghost t = term@;
    let s = string_from_utf8_lossy(data);
    let st = s.as_str();
    let len = st.unicode_len();
    if len >= 2 {
        let c0 = st.get_char(0);
        let c1 = st.get_char(1);
        if (c0 == '0' || c0 == '2') && c1 == ';' {
            let rest = st.substring_char(2, len);
            term.title = String::from_str(rest);
            assert(rest@ =~= s@.skip(2));
        }
    }
    assert(term@ =~= spec_osc(t, data@));
}

/// SGR with no parameter, or with the single parameter 0, resets the pen
/// to the default colours and no attributes, whatever it was.
pub proof fn lemma_sgr_reset(pen: Pen)
    ensures
        spec_sgr(pen, Seq::empty()) == default_pen(),
        spec_sgr(pen, seq![0i32]) == default_pen(),
{
    reveal_with_fuel(spec_sgr_from, 2);
}

/// `h` keeps `g`'s view offset, screen size and alternate-screen state.
pub open spec fn same_frame(g: GridModel, h: GridModel) -> bool {
    &&& h.scroll_offset == g.scroll_offset
    &&& h.saved_main == g.saved_main
    &&& h.is_alt_screen == g.is_alt_screen
    &&& h.rows == g.rows
    &&& h.cols == g.cols
}

proof fn lemma_iter_frames(g: GridModel, row: int, bottom: int, n: nat)
    ensures
        same_frame(g, iter_insert_lines(g, row, bottom, n)),
        same_frame(g, iter_delete_lines(g, row, bottom, n)),
        same_frame(g, iter_scroll_up(g, n)),
        same_frame(g, iter_scroll_down(g, n)),
    decreases n,
{
    if n > 0 {
        lemma_iter_frames(g, row, bottom, (n - 1) as nat);
    }
}

/// An SM/RM private mode that switches between the main and the
/// alternate screen.
pub open spec fn is_screen_mode(p: i32) -> bool {
    p == 47 || p == 1047 || p == 1049
}

/// An action that replaces the screen wholesale: a full reset, or
/// setting or resetting a mode that switches screens.
pub open spec fn switches_screen(a: SpecAction) -> bool {
    ||| is_reset(a)
    ||| (a matches SpecAction::CsiDispatch { params, private_marker, final_byte, .. }
        && (final_byte == 0x68 || final_byte == 0x6C) && private_marker == Some(0x3Fu8)
        && exists|i: int| 0 <= i < params.len() && is_screen_mode(#[trigger] params[i]))
}

proof fn lemma_set_modes_frame(t: TermModel, params: Seq<i32>, set: bool)
    requires
        t.grid.scroll_offset == 0,
    ensures
        spec_set_modes(t, params, set).grid.scroll_offset == 0,
        (forall|i: int| 0 <= i < params.len() ==> !is_screen_mode(#[trigger] params[i]))
            ==> same_frame(t.grid, spec_set_modes(t, params, set).grid),
    decreases params.len(),
{
    if params.len() > 0 {
        let t1 = spec_set_mode_one(t, params[0], set);
        lemma_set_modes_frame(t1, params.drop_first(), set);
        if forall|i: int| 0 <= i < params.len() ==> !is_screen_mode(#[trigger] params[i]) {
            assert(!is_screen_mode(params[0]));
            assert forall|i: int| 0 <= i < params.drop_first().len() implies !is_screen_mode(#[trigger] params.drop_first()[i]) by {
                assert(params.drop_first()[i] == params[i + 1]);
            }
        }
    }
}

proof fn lemma_csi_frame(t: TermModel, params: Seq<i32>, private: Option<u8>, fb: u8)
    requires
        t.grid.scroll_offset == 0,
    ensures
        spec_csi(t, params, private, fb).grid.scroll_offset == 0,
        !((fb == 0x68 || fb == 0x6C) && private == Some(0x3Fu8)
            && exists|i: int| 0 <= i < params.len() && is_screen_mode(#[trigger] params[i]))
            ==> same_frame(t.grid, spec_csi(t, params, private, fb).grid),
{
    let g = t.grid;
    let row = g.cursor.row as int;
    let n = spec_param(params, 0, 1) as int;
    lemma_iter_frames(g, row, g.scroll_bottom as int, n as nat);
    lemma_set_modes_frame(t, params, true);
    lemma_set_modes_frame(t, params, false);
}

/// Any action brings the view back to the live screen.
pub proof fn lemma_handle_resets_view(t: TermModel, a: SpecAction)
    ensures
        spec_handle(t, a).grid.scroll_offset == 0,
{
    reveal(spec_handle);
    let t0 = with_grid(t, spec_scroll_viewport_to_bottom(t.grid));
    match a {
        SpecAction::CsiDispatch { params, private_marker, final_byte, .. } => {
            lemma_csi_frame(t0, params, private_marker, final_byte);
        },
        _ => {},
    }
}

/// An action that does not switch screens keeps what the alternate screen
/// saved of the main one, and which screen is shown.
pub proof fn lemma_handle_keeps_saved_main(t: TermModel, a: SpecAction)
    requires
        !switches_screen(a),
    ensures
        spec_handle(t, a).grid.saved_main == t.grid.saved_main,
        spec_handle(t, a).grid.is_alt_screen == t.grid.is_alt_screen,
{
    reveal(spec_handle);
    let t0 = with_grid(t, spec_scroll_viewport_to_bottom(t.grid));
    match a {
        SpecAction::CsiDispatch { params, private_marker, final_byte, .. } => {
            lemma_csi_frame(t0, params, private_marker, final_byte);
        },
        _ => {},
    }
}

proof fn lemma_handle_all_keeps_saved_main(t: TermModel, acts: Seq<SpecAction>)
    requires
        forall|i: int| 0 <= i < acts.len() ==> !switches_screen(#[trigger] acts[i]),
    ensures
        spec_handle_all(t, acts).grid.saved_main == t.grid.saved_main,
        spec_handle_all(t, acts).grid.is_alt_screen == t.grid.is_alt_screen,
    decreases acts.len(),
{
    if acts.len() > 0 {
        lemma_handle_all_keeps_saved_main(t, acts.drop_last());
        assert(!switches_screen(acts[acts.len() - 1]));
        lemma_handle_keeps_saved_main(spec_handle_all(t, acts.drop_last()), acts.last());
    }
}

/// `CSI ? 1049 h` (`set`) or `CSI ? 1049 l`: switch to the alternate
/// screen saving the cursor, or back to the main screen restoring it.
pub open spec fn alt_screen_action(set: bool) -> SpecAction {
    SpecAction::CsiDispatch {
        params: seq![1049i32],
        private_marker: Some(0x3Fu8),
        intermediates: Seq::empty(),
        final_byte: if set { 0x68u8 } else { 0x6Cu8 },
    }
}

proof fn lemma_handle_1049(t: TermModel, set: bool)
    ensures
        spec_handle(t, alt_screen_action(set)).grid == if set {
            spec_enter_alt(spec_save_cursor(spec_scroll_viewport_to_bottom(t.grid)))
        } else {
            spec_restore_cursor(spec_exit_alt(spec_scroll_viewport_to_bottom(t.grid)))
        },
{
    reveal(spec_handle);
    reveal_with_fuel(spec_set_modes, 2);
    assert(seq![1049i32].drop_first() =~= Seq::<i32>::empty());
    assert(seq![1049i32][0] == 1049);
    let t0 = with_grid(t, spec_scroll_viewport_to_bottom(t.grid));
    assert(spec_set_modes(t0, seq![1049i32], set) == spec_set_mode_one(t0, 1049, set));
}

/// Switching to the alternate screen with mode 1049, handling any actions
/// that do not switch screens (full resets and modes 47, 1047 and 1049
/// do), and switching back gives the main screen, its scrollback and the
/// cursor back as they were, showing the live screen: all that was drawn
/// on the alternate screen is gone.
pub proof fn lemma_alt_screen_1049(t: TermModel, acts: Seq<SpecAction>)
    requires
        !t.grid.is_alt_screen,
        forall|i: int| 0 <= i < acts.len() ==> !switches_screen(#[trigger] acts[i]),
    ensures
        ({
            let t3 = spec_handle(spec_handle_all(spec_handle(t, alt_screen_action(true)), acts), alt_screen_action(false));
            &&& t3.grid.screen == t.grid.screen
            &&& t3.grid.history == t.grid.history
            &&& t3.grid.cursor == t.grid.cursor
            &&& !t3.grid.is_alt_screen
            &&& t3.grid.scroll_offset == 0
        }),
{
    let t1 = spec_handle(t, alt_screen_action(true));
    lemma_handle_1049(t, true);
    lemma_handle_all_keeps_saved_main(t1, acts);
    let t2 = spec_handle_all(t1, acts);
    lemma_handle_1049(t2, false);
}

/// The control sequence `CSI <params> <fb>` with no private marker and no
/// intermediate bytes.
pub open spec fn plain_csi(params: Seq<i32>, fb: u8) -> SpecAction {
    SpecAction::CsiDispatch { params, private_marker: None, intermediates: Seq::empty(), final_byte: fb }
}

proof fn lemma_handle_plain_csi(t: TermModel, params: Seq<i32>, fb: u8)
    ensures
        spec_handle(t, plain_csi(params, fb))
            == spec_csi(with_grid(t, spec_scroll_viewport_to_bottom(t.grid)), params, None, fb),
{
    reveal(spec_handle);
}

/// SGR touches only the pen: the standard colours 30-37 / 40-47 and the
/// bright ones 90-97 / 100-107 set the foreground / background to palette
/// entries 0-7 and 8-15; `1;0;4` leaves only underline on, in the default
/// colours.
pub proof fn lemma_sgr_colors(t: TermModel, p: i32)
    ensures
        ({
            let t2 = spec_handle(t, plain_csi(seq![p], 0x6D));
            &&& t2 == TermModel { pen: t2.pen, grid: spec_scroll_viewport_to_bottom(t.grid), ..t }
            &&& (30 <= p <= 37 ==> t2.pen == Pen { fg: Color::Indexed((p - 30) as u8), ..t.pen })
            &&& (40 <= p <= 47 ==> t2.pen == Pen { bg: Color::Indexed((p - 40) as u8), ..t.pen })
            &&& (90 <= p <= 97 ==> t2.pen == Pen { fg: Color::Indexed((p - 82) as u8), ..t.pen })
            &&& (100 <= p <= 107 ==> t2.pen == Pen { bg: Color::Indexed((p - 92) as u8), ..t.pen })
        }),
        spec_sgr(t.pen, seq![1i32, 0i32, 4i32]) == (Pen {
            attrs: crate::terminal::cell::CellAttrs { underline: true, ..crate::terminal::cell::plain_attrs() },
            ..default_pen()
        }),
{
    lemma_handle_plain_csi(t, seq![p], 0x6D);
    reveal_with_fuel(spec_sgr_from, 4);
    assert(seq![p][0] == p);
    let q = seq![1i32, 0i32, 4i32];
    assert(q[0] == 1 && q[1] == 0 && q[2] == 4);
}

/// CUU / CUD move the cursor up / down by the count (1 when missing or
/// 0), stopping at the first / last row, and keep its column; the cursor
/// stays on the screen.
pub proof fn lemma_cursor_up_down(t: TermModel, params: Seq<i32>)
    requires
        term_wf(t),
        forall|i: int| 0 <= i < params.len() ==> params[i] >= 0,
    ensures
        ({
            let n = spec_param(params, 0, 1) as int;
            let row = t.grid.cursor.row as int;
            let up = spec_handle(t, plain_csi(params, 0x41)).grid.cursor;
            let down = spec_handle(t, plain_csi(params, 0x42)).grid.cursor;
            &&& up.row == max_int(row - n, 0) && up.col == t.grid.cursor.col
            &&& down.row == min_int(row + n, t.grid.rows - 1) && down.col == t.grid.cursor.col
            &&& up.row < t.grid.rows && down.row < t.grid.rows
        }),
{
    lemma_handle_plain_csi(t, params, 0x41);
    lemma_handle_plain_csi(t, params, 0x42);
}

/// After CUP moves the cursor to row `r`, column `c` (1-based, on the
/// screen, origin mode off), a cursor position request (DSR 6) answers
/// `ESC [ r ; c R` and leaves the cursor there.
pub proof fn lemma_cursor_report_after_move(t: TermModel, r: i32, c: i32)
    requires
        term_wf(t),
        !t.modes.origin_mode,
        1 <= r <= t.grid.rows,
        1 <= c <= t.grid.cols,
    ensures
        ({
            let t1 = spec_handle(t, plain_csi(seq![r, c], 0x48));
            let t2 = spec_handle(t1, plain_csi(seq![6i32], 0x6E));
            &&& t1.grid.cursor.row == r - 1 && t1.grid.cursor.col == c - 1
            &&& t2.responses == t1.responses.push(dsr_reply(r as nat, c as nat))
            &&& t2.grid.cursor == t1.grid.cursor
        }),
{
    let t1 = spec_handle(t, plain_csi(seq![r, c], 0x48));
    lemma_handle_plain_csi(t, seq![r, c], 0x48);
    lemma_handle_plain_csi(t1, seq![6i32], 0x6E);
    assert(seq![r, c][0] == r && seq![r, c][1] == c);
    assert(seq![6i32][0] == 6);
}

/// OSC 0 and OSC 2 with a UTF-8 text set the title to that text, and
/// change nothing else but bring the view back to the live screen; OSC 1
/// (the icon name) leaves the title as it was.
pub proof fn lemma_osc_title(t: TermModel, title: Seq<char>, kind: char)
    ensures
        ({
            let data = vstd::utf8::encode_utf8(seq![kind, ';'] + title);
            let t2 = spec_handle(t, SpecAction::OscDispatch(data));
            &&& (kind == '0' || kind == '2') ==> t2 == TermModel {
                title,
                grid: spec_scroll_viewport_to_bottom(t.grid),
                ..t
            }
            &&& kind == '1' ==> t2.title == t.title
        }),
{
    reveal(spec_handle);
    let cs = seq![kind, ';'] + title;
    vstd::utf8::encode_utf8_valid_utf8(cs);
    vstd::utf8::encode_utf8_decode_utf8(cs);
    assert(cs[0] == kind && cs[1] == ';');
    assert(cs.skip(2) =~= title);
}

/// The cursor after a cursor-movement sequence `CSI <params> <fb>` (no
/// private marker, origin mode off), with `n` the first parameter (1 when
/// it is missing or 0) and rows and columns counted from 0:
/// CUU `A` and CPL `F` go up `n` rows, stopping at the top; CUD `B`, VPR
/// `e` and CNL `E` go down `n` rows, stopping at the bottom; CUF `C` and
/// HPR `a` go right `n` columns, stopping at the last; CUB `D` goes left,
/// stopping at the first; CHA `G` / HPA `` ` `` go to column `n`, VPA `d`
/// to row `n` (1-based, at most the last); CUP `H` / HVP `f` go to row
/// and column given by the first two parameters (each 1 when missing or
/// 0). CNL and CPL also go to column 0; the other moves keep the column
/// (or the row) they do not move along.
pub proof fn lemma_cursor_moves(t: TermModel, params: Seq<i32>, fb: u8)
    requires
        term_wf(t),
        !t.modes.origin_mode,
        forall|i: int| 0 <= i < params.len() ==> params[i] >= 0,
    ensures
        ({
            let n: int = if params.len() > 0 && params[0] != 0 { params[0] as int } else { 1 };
            let m: int = if params.len() > 1 && params[1] != 0 { params[1] as int } else { 1 };
            let row = t.grid.cursor.row as int;
            let col = t.grid.cursor.col as int;
            let last_row = t.grid.rows - 1;
            let last_col = t.grid.cols - 1;
            let up: int = if row - n > 0 { row - n } else { 0 };
            let down: int = if row + n < last_row { row + n } else { last_row };
            let right: int = if col + n < last_col { col + n } else { last_col };
            let left: int = if col - n > 0 { col - n } else { 0 };
            let c = spec_handle(t, plain_csi(params, fb)).grid.cursor;
            &&& fb == 0x41 ==> c.row == up && c.col == col
            &&& (fb == 0x42 || fb == 0x65) ==> c.row == down && c.col == col
            &&& (fb == 0x43 || fb == 0x61) ==> c.row == row && c.col == right
            &&& fb == 0x44 ==> c.row == row && c.col == left
            &&& fb == 0x45 ==> c.row == down && c.col == 0
            &&& fb == 0x46 ==> c.row == up && c.col == 0
            &&& (fb == 0x47 || fb == 0x60) ==> c.row == row && c.col == (if n - 1 < last_col { n - 1 } else { last_col })
            &&& fb == 0x64 ==> c.row == (if n - 1 < last_row { n - 1 } else { last_row }) && c.col == col
            &&& (fb == 0x48 || fb == 0x66) ==> c.row == (if n - 1 < last_row { n - 1 } else { last_row })
                && c.col == (if m - 1 < last_col { m - 1 } else { last_col })
        }),
{
    lemma_handle_plain_csi(t, params, fb);
}

/// The blank cell spelled out: a space in the default colours, no
/// rendition, one column wide.
pub open spec fn is_blank_cell(c: Cell) -> bool {
    c == Cell {
        ch: ' ',
        fg: Color::Default,
        bg: Color::Default,
        attrs: crate::terminal::cell::CellAttrs {
            bold: false,
            dim: false,
            italic: false,
            underline: false,
            inverse: false,
            hidden: false,
            strikethrough: false,
        },
        width: 1,
    }
}

/// Backspace moves the cursor one column left (not past the first), CR to
/// the first column, HT to the next multiple of 8 (at most the last
/// column); all keep the row and leave the cells alone.
pub proof fn lemma_c0_moves(t: TermModel)
    requires
        term_wf(t),
    ensures
        ({
            let row = t.grid.cursor.row;
            let col = t.grid.cursor.col as int;
            let bs = spec_handle(t, SpecAction::C0Control(0x08)).grid;
            let cr = spec_handle(t, SpecAction::C0Control(0x0D)).grid;
            let ht = spec_handle(t, SpecAction::C0Control(0x09)).grid;
            let stop: int = (col / 8 + 1) * 8;
            &&& bs.cursor.row == row && bs.cursor.col == (if col > 0 { col - 1 } else { 0 }) && bs.screen == t.grid.screen
            &&& cr.cursor.row == row && cr.cursor.col == 0 && cr.screen == t.grid.screen
            &&& ht.cursor.row == row && ht.cursor.col == (if stop < t.grid.cols - 1 { stop } else { t.grid.cols - 1 })
            &&& ht.screen == t.grid.screen
        }),
{
    reveal(spec_handle);
}

/// A line feed above the bottom of the scroll region moves the cursor one
/// row down; at the bottom of a scroll region that is the whole main
/// screen it scrolls instead: every row moves up one, the new last row is
/// blank, the old top row becomes the newest scrollback line (the
/// scrollback growing by one up to its limit), and the cursor stays.
pub proof fn lemma_linefeed(t: TermModel)
    requires
        term_wf(t),
        t.grid.history.len() <= t.grid.scrollback_limit,
    ensures
        ({
            let g = t.grid;
            let row = g.cursor.row as int;
            let lf = spec_handle(t, SpecAction::C0Control(0x0A)).grid;
            &&& row + 1 < g.scroll_bottom ==> lf.cursor.row == row + 1 && lf.cursor.col == g.cursor.col
                && lf.screen == g.screen && lf.history == g.history
            &&& (row + 1 == g.scroll_bottom && g.scroll_top == 0 && g.scroll_bottom == g.rows && !g.is_alt_screen) ==> {
                &&& lf.cursor == g.cursor
                &&& lf.screen.len() == g.rows
                &&& (forall|i: int| 0 <= i < g.rows - 1 ==> #[trigger] lf.screen[i] == g.screen[i + 1])
                &&& (forall|c: int| 0 <= c < g.cols ==> is_blank_cell(#[trigger] lf.screen[g.rows - 1][c]))
                &&& lf.screen[g.rows - 1].len() == g.cols
                &&& (g.scrollback_limit > 0 ==> lf.history.last() == g.screen[0])
                &&& lf.history.len() == (if g.history.len() < g.scrollback_limit { g.history.len() + 1 } else { g.scrollback_limit as nat })
            }
        }),
{
    reveal(spec_handle);
    let g = t.grid;
    let row = g.cursor.row as int;
    if row + 1 == g.scroll_bottom && g.scroll_top == 0 && g.scroll_bottom == g.rows && !g.is_alt_screen {
        let lf = spec_handle(t, SpecAction::C0Control(0x0A)).grid;
        let s = g.screen;
        let sh = shift_up(s, 0, g.rows as int, g.cols as nat);
        assert(lf.screen == sh);
        assert forall|i: int| 0 <= i < g.rows - 1 implies #[trigger] lf.screen[i] == g.screen[i + 1] by {
            assert(sh[i] == s.subrange(1, g.rows as int)[i]);
        }
        assert(sh[g.rows - 1] == blank_line(g.cols as nat));
    }
}

/// Erase in line (`CSI Ps K`): mode 0 blanks the cursor's row from the
/// cursor to its end, 1 from its start through the cursor, 2 all of it;
/// every other cell and row stays, and the cursor does not move.
pub proof fn lemma_erase_line(t: TermModel, mode: i32)
    requires
        term_wf(t),
        0 <= mode <= 2,
    ensures
        ({
            let g = t.grid;
            let row = g.cursor.row as int;
            let col = g.cursor.col as int;
            let params = if mode == 0 { Seq::<i32>::empty() } else { seq![mode] };
            let e = spec_handle(t, plain_csi(params, 0x4B)).grid;
            &&& e.cursor == g.cursor
            &&& e.screen.len() == g.rows
            &&& (forall|r: int| 0 <= r < g.rows && r != row ==> #[trigger] e.screen[r] == g.screen[r])
            &&& e.screen[row].len() == g.cols
            &&& (forall|c: int| 0 <= c < g.cols ==> {
                let erased = if mode == 0 { c >= col } else if mode == 1 { c <= col } else { true };
                if erased { is_blank_cell(#[trigger] e.screen[row][c]) } else { e.screen[row][c] == g.screen[row][c] }
            })
        }),
{
    let params = if mode == 0 { Seq::<i32>::empty() } else { seq![mode] };
    lemma_handle_plain_csi(t, params, 0x4B);
    if mode != 0 {
        assert(params[0] == mode);
    }
}

/// Erase in display (`CSI Ps J`): mode 0 blanks from the cursor to the end
/// of the screen, 1 from the start of the screen through the cursor, 2
/// the whole screen; other cells stay and the cursor does not move.
pub proof fn lemma_erase_display(t: TermModel, mode: i32)
    requires
        term_wf(t),
        0 <= mode <= 2,
    ensures
        ({
            let g = t.grid;
            let row = g.cursor.row as int;
            let col = g.cursor.col as int;
            let params = if mode == 0 { Seq::<i32>::empty() } else { seq![mode] };
            let e = spec_handle(t, plain_csi(params, 0x4A)).grid;
            &&& e.cursor == g.cursor
            &&& e.screen.len() == g.rows
            &&& (forall|r: int, c: int| 0 <= r < g.rows && 0 <= c < g.cols ==> {
                let erased = if mode == 0 {
                    r > row || (r == row && c >= col)
                } else if mode == 1 {
                    r < row || (r == row && c <= col)
                } else {
                    true
                };
                &&& e.screen[r].len() == g.cols
                &&& if erased { is_blank_cell(#[trigger] e.screen[r][c]) } else { e.screen[r][c] == g.screen[r][c] }
            })
        }),
{
    let params = if mode == 0 { Seq::<i32>::empty() } else { seq![mode] };
    lemma_handle_plain_csi(t, params, 0x4A);
    if mode != 0 {
        assert(params[0] == mode);
    }
}

/// Printing a one-column character where it fits writes it, in the pen's
/// colours and rendition, into the cell under the cursor and moves the
/// cursor one column right; no other cell changes.
pub proof fn lemma_print_narrow(t: TermModel, ch: char)
    requires
        term_wf(t),
        print_width(ch) == 1,
        t.grid.cursor.col < t.grid.cols,
    ensures
        ({
            let g = t.grid;
            let row = g.cursor.row as int;
            let col = g.cursor.col as int;
            let p = spec_handle(t, SpecAction::Print(ch)).grid;
            &&& p.cursor.row == row && p.cursor.col == col + 1
            &&& p.screen.len() == g.rows
            &&& (forall|r: int| 0 <= r < g.rows && r != row ==> #[trigger] p.screen[r] == g.screen[r])
            &&& p.screen[row].len() == g.cols
            &&& p.screen[row][col] == (Cell { ch, fg: t.pen.fg, bg: t.pen.bg, attrs: t.pen.attrs, width: 1 })
            &&& (forall|c: int| 0 <= c < g.cols && c != col ==> #[trigger] p.screen[row][c] == g.screen[row][c])
        }),
{
    reveal(spec_handle);
}

/// Deleting (`CSI n P`), inserting (`CSI n @`) and erasing (`CSI n X`)
/// characters act on the cursor's row only, with `n` the count (1 when
/// missing or 0): DCH pulls the cells `n` to the right of the cursor onto
/// it, blanks coming in at the end; ICH pushes the cells from the cursor
/// `n` to the right (those pushed past the end are lost), blanks filling
/// the gap; ECH blanks `n` cells from the cursor. The cursor stays.
pub proof fn lemma_char_edits(t: TermModel, params: Seq<i32>, fb: u8)
    requires
        term_wf(t),
        forall|i: int| 0 <= i < params.len() ==> params[i] >= 0,
        t.grid.cursor.col < t.grid.cols,
        fb == 0x50 || fb == 0x40 || fb == 0x58,
    ensures
        ({
            let g = t.grid;
            let n: int = if params.len() > 0 && params[0] != 0 { params[0] as int } else { 1 };
            let row = g.cursor.row as int;
            let col = g.cursor.col as int;
            let e = spec_handle(t, plain_csi(params, fb)).grid;
            let old = g.screen[row];
            &&& e.cursor == g.cursor
            &&& e.screen.len() == g.rows
            &&& (forall|r: int| 0 <= r < g.rows && r != row ==> #[trigger] e.screen[r] == g.screen[r])
            &&& e.screen[row].len() == g.cols
            &&& fb == 0x50 ==> forall|c: int| 0 <= c < g.cols ==> (#[trigger] e.screen[row][c] == old[c] && c < col)
                || (c >= col && c + n < g.cols && e.screen[row][c] == old[c + n])
                || (c >= col && c + n >= g.cols && is_blank_cell(e.screen[row][c]))
            &&& fb == 0x40 ==> forall|c: int| 0 <= c < g.cols ==> (#[trigger] e.screen[row][c] == old[c] && c < col)
                || (col <= c < col + n && is_blank_cell(e.screen[row][c]))
                || (c >= col + n && e.screen[row][c] == old[c - n])
            &&& fb == 0x58 ==> forall|c: int| 0 <= c < g.cols ==> if col <= c < col + n {
                is_blank_cell(#[trigger] e.screen[row][c])
            } else {
                e.screen[row][c] == old[c]
            }
        }),
{
    lemma_handle_plain_csi(t, params, fb);
}

/// The private modes that `CSI ? p h` sets and `CSI ? p l` resets:
/// 1 application cursor keys, 7 auto-wrap, 25 cursor visible, 1000 / 1002
/// / 1003 mouse reporting of presses / drags / all motion (reset: off),
/// 1004 focus events, 1006 SGR mouse encoding (reset: X10), 2004
/// bracketed paste.
pub proof fn lemma_private_modes(t: TermModel, p: i32, set: bool)
    ensures
        ({
            let a = SpecAction::CsiDispatch {
                params: seq![p],
                private_marker: Some(0x3Fu8),
                intermediates: Seq::empty(),
                final_byte: if set { 0x68u8 } else { 0x6Cu8 },
            };
            let m = spec_handle(t, a).modes;
            let c = spec_handle(t, a).grid.cursor;
            &&& p == 1 ==> m.cursor_keys_application == set
            &&& p == 7 ==> m.auto_wrap == set
            &&& p == 25 ==> c.visible == set
            &&& p == 1000 ==> m.mouse_mode == (if set { MouseMode::Press } else { MouseMode::Off })
            &&& p == 1002 ==> m.mouse_mode == (if set { MouseMode::ButtonMotion } else { MouseMode::Off })
            &&& p == 1003 ==> m.mouse_mode == (if set { MouseMode::AnyMotion } else { MouseMode::Off })
            &&& p == 1004 ==> m.focus_events == set
            &&& p == 1006 ==> m.mouse_encoding == (if set { MouseEncoding::Sgr } else { MouseEncoding::Normal })
            &&& p == 2004 ==> m.bracketed_paste == set
        }),
{
    reveal(spec_handle);
    reveal_with_fuel(spec_set_modes, 2);
    assert(seq![p].drop_first() =~= Seq::<i32>::empty());
    assert(seq![p][0] == p);
}

/// `l` is a row of `cols` blank cells.
pub open spec fn is_blank_row(l: Seq<Cell>, cols: nat) -> bool {
    &&& l.len() == cols
    &&& forall|c: int| 0 <= c < cols ==> is_blank_cell(#[trigger] l[c])
}

proof fn lemma_blank_line_is_blank(cols: nat)
    ensures
        is_blank_row(blank_line(cols), cols),
{
}

/// The screen after `n` rows were inserted at `top` in the region
/// `top..bottom`: rows above and below the region stay, the first `n`
/// rows of the region are blank, the rest move down by `n` (those pushed
/// past the region are lost).
pub open spec fn rows_inserted(old: Seq<Seq<Cell>>, new: Seq<Seq<Cell>>, top: int, bottom: int, n: int, cols: nat) -> bool {
    &&& new.len() == old.len()
    &&& forall|r: int| 0 <= r < old.len() ==> {
        if r < top || r >= bottom {
            #[trigger] new[r] == old[r]
        } else if r < top + n {
            is_blank_row(new[r], cols)
        } else {
            new[r] == old[r - n]
        }
    }
}

/// The screen after `n` rows were removed at `top` from the region
/// `top..bottom`: rows outside the region stay, the region's rows move up
/// by `n`, and blank rows fill its last `n` places.
pub open spec fn rows_removed(old: Seq<Seq<Cell>>, new: Seq<Seq<Cell>>, top: int, bottom: int, n: int, cols: nat) -> bool {
    &&& new.len() == old.len()
    &&& forall|r: int| 0 <= r < old.len() ==> {
        if r < top || r >= bottom {
            #[trigger] new[r] == old[r]
        } else if r + n < bottom {
            new[r] == old[r + n]
        } else {
            is_blank_row(new[r], cols)
        }
    }
}

proof fn lemma_iter_insert_rows(g: GridModel, top: int, bottom: int, n: nat)
    requires
        0 <= top < bottom <= g.rows,
        g.screen.len() == g.rows,
    ensures
        rows_inserted(g.screen, iter_insert_lines(g, top, bottom, n).screen, top, bottom, n as int, g.cols as nat),
        iter_insert_lines(g, top, bottom, n).rows == g.rows,
        iter_insert_lines(g, top, bottom, n).cols == g.cols,
        iter_insert_lines(g, top, bottom, n).cursor == g.cursor,
    decreases n,
{
    if n == 0 {
    } else {
        lemma_iter_insert_rows(g, top, bottom, (n - 1) as nat);
        let p = iter_insert_lines(g, top, bottom, (n - 1) as nat);
        let q = iter_insert_lines(g, top, bottom, n);
        lemma_blank_line_is_blank(g.cols as nat);
        assert(q.screen == shift_down(p.screen, top, bottom, g.cols as nat));
        assert forall|r: int| 0 <= r < g.screen.len() implies {
            if r < top || r >= bottom {
                #[trigger] q.screen[r] == g.screen[r]
            } else if r < top + n {
                is_blank_row(q.screen[r], g.cols as nat)
            } else {
                q.screen[r] == g.screen[r - n]
            }
        } by {
            if r < top {
                assert(q.screen[r] == p.screen[r]);
            } else if r >= bottom {
                assert(q.screen[r] == p.screen[r]);
            } else if r == top {
                assert(q.screen[r] == blank_line(g.cols as nat));
            } else {
                assert(q.screen[r] == p.screen[r - 1]);
            }
        }
    }
}

proof fn lemma_iter_delete_rows(g: GridModel, top: int, bottom: int, n: nat)
    requires
        0 <= top < bottom <= g.rows,
        g.screen.len() == g.rows,
    ensures
        rows_removed(g.screen, iter_delete_lines(g, top, bottom, n).screen, top, bottom, n as int, g.cols as nat),
        iter_delete_lines(g, top, bottom, n).rows == g.rows,
        iter_delete_lines(g, top, bottom, n).cols == g.cols,
        iter_delete_lines(g, top, bottom, n).cursor == g.cursor,
    decreases n,
{
    if n == 0 {
    } else {
        lemma_iter_delete_rows(g, top, bottom, (n - 1) as nat);
        let p = iter_delete_lines(g, top, bottom, (n - 1) as nat);
        let q = iter_delete_lines(g, top, bottom, n);
        lemma_blank_line_is_blank(g.cols as nat);
        assert(q.screen == shift_up(p.screen, top, bottom, g.cols as nat));
        assert forall|r: int| 0 <= r < g.screen.len() implies {
            if r < top || r >= bottom {
                #[trigger] q.screen[r] == g.screen[r]
            } else if r + n < bottom {
                q.screen[r] == g.screen[r + n]
            } else {
                is_blank_row(q.screen[r], g.cols as nat)
            }
        } by {
            if r < top {
                assert(q.screen[r] == p.screen[r]);
            } else if r >= bottom {
                assert(q.screen[r] == p.screen[r]);
            } else if r == bottom - 1 {
                assert(q.screen[r] == blank_line(g.cols as nat));
            } else {
                assert(q.screen[r] == p.screen[r + 1]);
            }
        }
    }
}

/// Inserting (`CSI n L`) and deleting (`CSI n M`) lines act between the
/// cursor's row and the bottom of the scroll region, with `n` the count
/// (1 when missing or 0): IL moves those rows down by `n`, blank rows
/// coming in at the cursor; DL moves them up by `n`, blank rows coming in
/// at the bottom of the region. Rows outside stay, and so does the cursor;
/// with the cursor below the region nothing changes.
pub proof fn lemma_line_edits(t: TermModel, params: Seq<i32>)
    requires
        term_wf(t),
        forall|i: int| 0 <= i < params.len() ==> params[i] >= 0,
    ensures
        ({
            let g = t.grid;
            let n: int = if params.len() > 0 && params[0] != 0 { params[0] as int } else { 1 };
            let row = g.cursor.row as int;
            let bottom = g.scroll_bottom as int;
            let il = spec_handle(t, plain_csi(params, 0x4C)).grid;
            let dl = spec_handle(t, plain_csi(params, 0x4D)).grid;
            &&& il.cursor == g.cursor && dl.cursor == g.cursor
            &&& row < bottom ==> rows_inserted(g.screen, il.screen, row, bottom, n, g.cols as nat)
            &&& row < bottom ==> rows_removed(g.screen, dl.screen, row, bottom, n, g.cols as nat)
            &&& row >= bottom ==> il.screen == g.screen && dl.screen == g.screen
        }),
{
    lemma_handle_plain_csi(t, params, 0x4C);
    lemma_handle_plain_csi(t, params, 0x4D);
    let g = spec_scroll_viewport_to_bottom(t.grid);
    let row = g.cursor.row as int;
    let bottom = g.scroll_bottom as int;
    let n = spec_param(params, 0, 1) as int;
    if row < bottom {
        lemma_iter_insert_rows(g, row, bottom, n as nat);
        lemma_iter_delete_rows(g, row, bottom, n as nat);
    } else {
        lemma_iter_frames(g, row, bottom, n as nat);
        lemma_iter_same_screen(g, row, bottom, n as nat);
    }
}

proof fn lemma_iter_same_screen(g: GridModel, top: int, bottom: int, n: nat)
    requires
        top >= bottom,
    ensures
        iter_insert_lines(g, top, bottom, n).screen == g.screen,
        iter_delete_lines(g, top, bottom, n).screen == g.screen,
        iter_insert_lines(g, top, bottom, n).cursor == g.cursor,
        iter_delete_lines(g, top, bottom, n).cursor == g.cursor,
    decreases n,
{
    if n > 0 {
        lemma_iter_same_screen(g, top, bottom, (n - 1) as nat);
    }
}

proof fn lemma_iter_scroll_rows(g: GridModel, n: nat)
    requires
        0 <= g.scroll_top < g.scroll_bottom <= g.rows,
        g.screen.len() == g.rows,
    ensures
        rows_removed(g.screen, iter_scroll_up(g, n).screen, g.scroll_top as int, g.scroll_bottom as int, n as int, g.cols as nat),
        rows_inserted(g.screen, iter_scroll_down(g, n).screen, g.scroll_top as int, g.scroll_bottom as int, n as int, g.cols as nat),
        iter_scroll_up(g, n).cursor == g.cursor,
        iter_scroll_down(g, n).cursor == g.cursor,
        iter_scroll_up(g, n).rows == g.rows && iter_scroll_up(g, n).cols == g.cols,
        iter_scroll_up(g, n).scroll_top == g.scroll_top && iter_scroll_up(g, n).scroll_bottom == g.scroll_bottom,
        iter_scroll_down(g, n).rows == g.rows && iter_scroll_down(g, n).cols == g.cols,
        iter_scroll_down(g, n).scroll_top == g.scroll_top && iter_scroll_down(g, n).scroll_bottom == g.scroll_bottom,
    decreases n,
{
    if n > 0 {
        lemma_iter_scroll_rows(g, (n - 1) as nat);
        lemma_blank_line_is_blank(g.cols as nat);
        let top = g.scroll_top as int;
        let bottom = g.scroll_bottom as int;
        let p = iter_scroll_up(g, (n - 1) as nat);
        let q = iter_scroll_up(g, n);
        assert(q.screen == shift_up(p.screen, top, bottom, g.cols as nat));
        assert forall|r: int| 0 <= r < g.screen.len() implies {
            if r < top || r >= bottom {
                #[trigger] q.screen[r] == g.screen[r]
            } else if r + n < bottom {
                q.screen[r] == g.screen[r + n]
            } else {
                is_blank_row(q.screen[r], g.cols as nat)
            }
        } by {
            if r < top || r >= bottom {
                assert(q.screen[r] == p.screen[r]);
            } else if r == bottom - 1 {
                assert(q.screen[r] == blank_line(g.cols as nat));
            } else {
                assert(q.screen[r] == p.screen[r + 1]);
            }
        }
        let pd = iter_scroll_down(g, (n - 1) as nat);
        let qd = iter_scroll_down(g, n);
        assert(qd.screen == shift_down(pd.screen, top, bottom, g.cols as nat));
        assert forall|r: int| 0 <= r < g.screen.len() implies {
            if r < top || r >= bottom {
                #[trigger] qd.screen[r] == g.screen[r]
            } else if r < top + n {
                is_blank_row(qd.screen[r], g.cols as nat)
            } else {
                qd.screen[r] == g.screen[r - n]
            }
        } by {
            if r < top || r >= bottom {
                assert(qd.screen[r] == pd.screen[r]);
            } else if r == top {
                assert(qd.screen[r] == blank_line(g.cols as nat));
            } else {
                assert(qd.screen[r] == pd.screen[r - 1]);
            }
        }
    }
}

/// Scroll up (`CSI n S`) and down (`CSI n T`) move the rows of the scroll
/// region up / down by `n` (1 when missing or 0), blank rows coming in at
/// the bottom / top of the region; rows outside the region and the
/// cursor stay.
pub proof fn lemma_scroll_edits(t: TermModel, params: Seq<i32>)
    requires
        term_wf(t),
        forall|i: int| 0 <= i < params.len() ==> params[i] >= 0,
    ensures
        ({
            let g = t.grid;
            let n: int = if params.len() > 0 && params[0] != 0 { params[0] as int } else { 1 };
            let su = spec_handle(t, plain_csi(params, 0x53)).grid;
            let sd = spec_handle(t, plain_csi(params, 0x54)).grid;
            &&& su.cursor == g.cursor && sd.cursor == g.cursor
            &&& rows_removed(g.screen, su.screen, g.scroll_top as int, g.scroll_bottom as int, n, g.cols as nat)
            &&& rows_inserted(g.screen, sd.screen, g.scroll_top as int, g.scroll_bottom as int, n, g.cols as nat)
        }),
{
    lemma_handle_plain_csi(t, params, 0x53);
    lemma_handle_plain_csi(t, params, 0x54);
    let g = spec_scroll_viewport_to_bottom(t.grid);
    lemma_iter_scroll_rows(g, spec_param(params, 0, 1) as nat);
}

/// SGR turns single renditions on and off, leaving the rest of the pen:
/// 1 bold, 2 dim, 3 italic, 4 underline, 7 inverse, 8 hidden, 9 struck
/// through; 22 clears bold and dim, 23 italic, 24 underline, 27 inverse,
/// 28 hidden, 29 strike-through; 39 / 49 restore the default foreground /
/// background. `38;5;n` / `48;5;n` pick palette entry `n` and
/// `38;2;r;g;b` / `48;2;r;g;b` a direct colour for the foreground /
/// background.
pub proof fn lemma_sgr_renditions(pen: Pen, n: u8, r: u8, g: u8, b: u8)
    ensures
        ({
            let a = pen.attrs;
            let one = |p: i32| spec_sgr(pen, seq![p]);
            &&& one(1).attrs == crate::terminal::cell::CellAttrs { bold: true, ..a } && one(1).fg == pen.fg && one(1).bg == pen.bg
            &&& one(2).attrs == crate::terminal::cell::CellAttrs { dim: true, ..a } && one(2).fg == pen.fg && one(2).bg == pen.bg
            &&& one(3).attrs == crate::terminal::cell::CellAttrs { italic: true, ..a } && one(3).fg == pen.fg && one(3).bg == pen.bg
            &&& one(4).attrs == crate::terminal::cell::CellAttrs { underline: true, ..a } && one(4).fg == pen.fg && one(4).bg == pen.bg
            &&& one(7).attrs == crate::terminal::cell::CellAttrs { inverse: true, ..a } && one(7).fg == pen.fg && one(7).bg == pen.bg
            &&& one(8).attrs == crate::terminal::cell::CellAttrs { hidden: true, ..a } && one(8).fg == pen.fg && one(8).bg == pen.bg
            &&& one(9).attrs == crate::terminal::cell::CellAttrs { strikethrough: true, ..a } && one(9).fg == pen.fg && one(9).bg == pen.bg
            &&& one(22).attrs == crate::terminal::cell::CellAttrs { bold: false, dim: false, ..a } && one(22).fg == pen.fg
            &&& one(23).attrs == crate::terminal::cell::CellAttrs { italic: false, ..a } && one(23).fg == pen.fg
            &&& one(24).attrs == crate::terminal::cell::CellAttrs { underline: false, ..a } && one(24).fg == pen.fg
            &&& one(27).attrs == crate::terminal::cell::CellAttrs { inverse: false, ..a } && one(27).fg == pen.fg
            &&& one(28).attrs == crate::terminal::cell::CellAttrs { hidden: false, ..a } && one(28).fg == pen.fg
            &&& one(29).attrs == crate::terminal::cell::CellAttrs { strikethrough: false, ..a } && one(29).fg == pen.fg
            &&& one(39) == Pen { fg: Color::Default, ..pen }
            &&& one(49) == Pen { bg: Color::Default, ..pen }
            &&& spec_sgr(pen, seq![38i32, 5i32, n as i32]) == Pen { fg: Color::Indexed(n), ..pen }
            &&& spec_sgr(pen, seq![48i32, 5i32, n as i32]) == Pen { bg: Color::Indexed(n), ..pen }
            &&& spec_sgr(pen, seq![38i32, 2i32, r as i32, g as i32, b as i32]) == Pen { fg: Color::Rgb(r, g, b), ..pen }
            &&& spec_sgr(pen, seq![48i32, 2i32, r as i32, g as i32, b as i32]) == Pen { bg: Color::Rgb(r, g, b), ..pen }
        }),
{
    reveal_with_fuel(spec_sgr_from, 2);
    let x = seq![38i32, 5i32, n as i32];
    let y = seq![48i32, 5i32, n as i32];
    let z = seq![38i32, 2i32, r as i32, g as i32, b as i32];
    let w = seq![48i32, 2i32, r as i32, g as i32, b as i32];
    assert(x[0] == 38 && x[1] == 5 && x[2] == n as i32);
    assert(y[0] == 48 && y[1] == 5 && y[2] == n as i32);
    assert(z[0] == 38 && z[1] == 2 && z[2] == r as i32 && z[3] == g as i32 && z[4] == b as i32);
    assert(w[0] == 48 && w[1] == 2 && w[2] == r as i32 && w[3] == g as i32 && w[4] == b as i32);
    assert((n as i32) as u8 == n);
    assert((r as i32) as u8 == r && (g as i32) as u8 == g && (b as i32) as u8 == b);
    assert forall|p: i32| #![trigger seq![p]] seq![p][0] == p by {}
    assert(seq![1i32][0] == 1);
    assert(seq![2i32][0] == 2);
    assert(seq![3i32][0] == 3);
    assert(seq![4i32][0] == 4);
    assert(seq![7i32][0] == 7);
    assert(seq![8i32][0] == 8);
    assert(seq![9i32][0] == 9);
    assert(seq![22i32][0] == 22);
    assert(seq![23i32][0] == 23);
    assert(seq![24i32][0] == 24);
    assert(seq![27i32][0] == 27);
    assert(seq![28i32][0] == 28);
    assert(seq![29i32][0] == 29);
    assert(seq![39i32][0] == 39);
    assert(seq![49i32][0] == 49);
}

} // verus!
