use vstd::prelude::*;
use crate::terminal::cell::Cell;
use crate::text::string_from_chars;
use crate::terminal::grid::{Grid, GridModel, spec_absolute_line};

verus! {

/// A text selection in absolute coordinates (row 0 is the oldest
/// scrollback line): where the mouse was pressed and where it is now.
#[derive(Clone, Copy, Debug)]
pub struct Selection {
    /// Anchor point (where the mouse was pressed).
    pub anchor: Option<(usize, usize)>,
    /// Current end point.
    pub end: Option<(usize, usize)>,
}

impl Default for Selection {
    fn default() -> (s: Self)
        ensures
            s.anchor.is_none(),
            s.end.is_none(),
    {
        Selection { anchor: None, end: None }
    }
}

/// Row-major order on (row, column) points.
pub open spec fn point_le(a: (usize, usize), b: (usize, usize)) -> bool {
    a.0 < b.0 || (a.0 == b.0 && a.1 <= b.1)
}

/// The selection's two ends, earlier one first; `None` unless both are set.
pub open spec fn spec_ordered(s: Selection) -> Option<((usize, usize), (usize, usize))> {
    match (s.anchor, s.end) {
        (Some(a), Some(b)) => if point_le(a, b) { Some((a, b)) } else { Some((b, a)) },
        _ => None,
    }
}

/// Whether (`row`, `col`) lies between the two ends (inclusive).
pub open spec fn spec_contains(s: Selection, row: usize, col: usize) -> bool {
    match spec_ordered(s) {
        Some((start, end)) => point_le(start, (row, col)) && point_le((row, col), end),
        None => false,
    }
}

/// The characters of the cells `from..=to` of `line` that are not the
/// continuation half of a wide character.
pub open spec fn cells_text(line: Seq<Cell>, from: int, to: int) -> Seq<char>
    decreases to - from + 1,
{
    if to < from {
        Seq::empty()
    } else {
        let rest = cells_text(line, from, to - 1);
        if 0 <= to < line.len() && line[to].width > 0 { rest.push(line[to].ch) } else { rest }
    }
}

/// `s` without its trailing spaces.
pub open spec fn trim_spaces_end(s: Seq<char>) -> Seq<char>
    decreases s.len(),
{
    if s.len() > 0 && s.last() == ' ' { trim_spaces_end(s.drop_last()) } else { s }
}

/// The part of absolute line `row` that the selection from `(sr, sc)` to
/// `(er, ec)` covers.
pub open spec fn row_segment(g: GridModel, sr: int, sc: int, er: int, ec: int, row: int) -> Seq<char> {
    let line = spec_absolute_line(g, row);
    let last = if line.len() == 0 { 0 } else { line.len() - 1 };
    let from = if row == sr { sc } else { 0 };
    let to = if row == er { if ec < last { ec } else { last } } else { last };
    cells_text(line, from, to)
}

/// The text of rows `sr..=row` of the selection: each row but the last
/// loses its trailing spaces and ends with a newline.
pub open spec fn text_upto(g: GridModel, sr: int, sc: int, er: int, ec: int, row: int) -> Seq<char>
    decreases row - sr + 1,
{
    if row < sr {
        Seq::empty()
    } else {
        let acc = text_upto(g, sr, sc, er, ec, row - 1) + row_segment(g, sr, sc, er, ec, row);
        if row == er { acc } else { trim_spaces_end(acc).push('\n') }
    }
}

/// The selected text.
pub open spec fn spec_extract_text(s: Selection, g: GridModel) -> Seq<char> {
    match spec_ordered(s) {
        Some(((sr, sc), (er, ec))) => text_upto(g, sr as int, sc as int, er as int, ec as int, er as int),
        None => Seq::empty(),
    }
}

impl Selection {
    /// Start a selection at (`row`, `col`).
    pub fn start(&mut self, row: usize, col: usize)
        ensures
            final(self).anchor == Some((row, col)),
            final(self).end == Some((row, col)),
    {
        self.anchor = Some((row, col));
        self.end = Some((row, col));
    }

    /// Move the end of the selection to (`row`, `col`).
    pub fn update(&mut self, row: usize, col: usize)
        ensures
            final(self).anchor == old(self).anchor,
            final(self).end == Some((row, col)),
    {
        self.end = Some((row, col));
    }

    pub fn clear(&mut self)
        ensures
            final(self).anchor.is_none(),
            final(self).end.is_none(),
    {
        self.anchor = None;
        self.end = None;
    }

    /// Both ends are set.
    pub fn is_active(&self) -> (b: bool)
        ensures
            b == (self.anchor.is_some() && self.end.is_some()),
    {
        self.anchor.is_some() && self.end.is_some()
    }

    /// Returns (start, end) normalized so start <= end in row-major order.
    pub fn ordered(&self) -> (r: Option<((usize, usize), (usize, usize))>)
        ensures
            r == spec_ordered(*self),
    {
        match (self.anchor, self.end) {
            (Some(a), Some(b)) => {
                if a.0 < b.0 || (a.0 == b.0 && a.1 <= b.1) {
                    Some((a, b))
                } else {
                    Some((b, a))
                }
            },
            _ => None,
        }
    }

    /// Whether (`row`, `col`) is selected.
    pub fn contains(&self, row: usize, col: usize) -> (b: bool)
        ensures
            b == spec_contains(*self, row, col),
    {
        if let Some(((sr, sc), (er, ec))) = self.ordered() {
            if row < sr || row > er {
                return false;
            }
            if sr == er {
                return col >= sc && col <= ec;
            }
            if row == sr {
                return col >= sc;
            }
            if row == er {
                return col <= ec;
            }
            true
        } else {
            false
        }
    }

    /// The selected text, scrollback included: rows joined by newlines,
    /// trailing spaces dropped from every row but the last, continuation
    /// cells of wide characters skipped.
    pub fn extract_text(&self, grid: &Grid) -> (text: String)
        requires
            grid.rows <= grid@.screen.len(),
        ensures
            text@ == spec_extract_text(*self, grid@),
    {
        let (start, end) = match self.ordered() {
            Some(range) => range,
            None => return string_from_chars(&[]),
        };
        let (sr, sc) = start;
        let (er, ec) = end;
        let ghost g = grid@;
        let mut result: Vec<char> = Vec::new();
        let mut row = sr;
        loop
            invariant
                sr <= row <= er,
                g == grid@,
                spec_ordered(*self) == Some(((sr, sc), (er, ec))),
                grid.rows <= grid@.screen.len(),
                result@ == text_upto(g, sr as int, sc as int, er as int, ec as int, row - 1),
            decreases er - row,
        {
            let line = grid.absolute_line(row);
            let len = line.len();
            let last = if len == 0 { 0 } else { len - 1 };
            let col_start = if row == sr { sc } else { 0 };
            let col_end = if row == er { if ec < last { ec } else { last } } else { last };
            let ghost before = result@;
            push_cells_text(&mut result, line, col_start, col_end);
            assert(result@ == before + row_segment(g, sr as int, sc as int, er as int, ec as int, row as int));
            assert(text_upto(g, sr as int, sc as int, er as int, ec as int, row as int)
                == if row == er { before + row_segment(g, sr as int, sc as int, er as int, ec as int, row as int) }
                else { trim_spaces_end(before + row_segment(g, sr as int, sc as int, er as int, ec as int, row as int)).push('\n') });
            if row == er {
                assert(spec_ordered(*self) == Some(((sr, sc), (er, ec))));
                assert(result@ == spec_extract_text(*self, g));
                let sl = result.as_slice();
                assert(sl@ == result@);
                return string_from_chars(sl);
            }
            trim_trailing_spaces(&mut result);
            result.push('\n');
            row = row + 1;
        }
    }
}

fn push_cells_text(out: &mut Vec<char>, line: &[Cell], from: usize, to: usize)
    ensures
        final(out)@ == old(out)@ + cells_text(line@, from as int, to as int),
{
    if to < from {
        assert(old(out)@ + cells_text(line@, from as int, to as int) =~= old(out)@);
        return;
    }
    let mut c = from;
    assert(cells_text(line@, from as int, from - 1) =~= Seq::<char>::empty());
    assert(out@ =~= old(out)@ + cells_text(line@, from as int, from - 1));
    loop
        invariant
            from <= c <= to,
            out@ == old(out)@ + cells_text(line@, from as int, c - 1),
        decreases to - c,
    {
        if c < line.len() && line[c].width > 0 {
            out.push(line[c].ch);
        }
        assert(out@ =~= old(out)@ + cells_text(line@, from as int, c as int));
        if c == to {
            return;
        }
        c = c + 1;
    }
}

fn trim_trailing_spaces(out: &mut Vec<char>)
    ensures
        final(out)@ == trim_spaces_end(old(out)@),
{
    while out.len() > 0 && out[out.len() - 1] == ' '
        invariant
            trim_spaces_end(out@) == trim_spaces_end(old(out)@),
        decreases out@.len(),
    {
        let ghost before = out@;
        out.pop();
        assert(out@ =~= before.drop_last());
    }
}

/// A selection covers the same cells whichever of its two ends is the
/// anchor.
pub proof fn lemma_contains_symmetric(s: Selection, row: usize, col: usize)
    ensures
        spec_contains(s, row, col) == spec_contains(Selection { anchor: s.end, end: s.anchor }, row, col),
{
}

/// Both ends of a complete selection are inside it.
pub proof fn lemma_contains_ends(a: (usize, usize), b: (usize, usize))
    ensures
        spec_contains(Selection { anchor: Some(a), end: Some(b) }, a.0, a.1),
        spec_contains(Selection { anchor: Some(a), end: Some(b) }, b.0, b.1),
{
}

/// The selection from `a` to `b`.
pub open spec fn selection_of(a: (usize, usize), b: (usize, usize)) -> Selection {
    Selection { anchor: Some(a), end: Some(b) }
}

proof fn lemma_text_upto_prefix(g: GridModel, sr: int, sc: int, e1: int, c1: int, e2: int, c2: int, row: int)
    requires
        row < e1,
        row < e2,
    ensures
        text_upto(g, sr, sc, e1, c1, row) == text_upto(g, sr, sc, e2, c2, row),
    decreases row - sr + 1,
{
    if row >= sr {
        lemma_text_upto_prefix(g, sr, sc, e1, c1, e2, c2, row - 1);
    }
}

/// A selection over several rows copies every row before its last one
/// whole from where it starts (the first row from the selection's start,
/// every later row from column 0) to the row's end, trailing spaces
/// dropped, each followed by a newline, and then the last row from
/// column 0 to the selection's end: its text is that of the selection
/// cut at the end of the row before its last, trimmed, a newline, and the
/// text of its last row from column 0.
pub proof fn lemma_extract_rows(g: GridModel, a: (usize, usize), b: (usize, usize))
    requires
        a.0 < b.0,
        spec_absolute_line(g, b.0 - 1).len() <= usize::MAX,
    ensures
        spec_extract_text(selection_of(a, b), g) == trim_spaces_end(
            spec_extract_text(selection_of(a, ((b.0 - 1) as usize, usize::MAX)), g),
        ).push('\n') + spec_extract_text(selection_of((b.0, 0), b), g),
{
    let (sr, sc) = (a.0 as int, a.1 as int);
    let (er, ec) = (b.0 as int, b.1 as int);
    let m = usize::MAX as int;
    lemma_text_upto_prefix(g, sr, sc, er, ec, er - 1, m, er - 2);
    let before = text_upto(g, sr, sc, er, ec, er - 2);
    assert(row_segment(g, sr, sc, er, ec, er - 1) == row_segment(g, sr, sc, er - 1, m, er - 1));
    let acc = before + row_segment(g, sr, sc, er, ec, er - 1);
    assert(text_upto(g, sr, sc, er - 1, m, er - 1) == acc);
    assert(text_upto(g, sr, sc, er, ec, er - 1) == trim_spaces_end(acc).push('\n'));
    assert(text_upto(g, er, 0, er, ec, er - 1) == Seq::<char>::empty());
    assert(row_segment(g, sr, sc, er, ec, er) == row_segment(g, er, 0, er, ec, er));
    assert(text_upto(g, er, 0, er, ec, er) =~= row_segment(g, er, 0, er, ec, er));
}

/// The text of a selection on one row, one cell wide, is that cell's
/// character, or nothing past the row's end or on the continuation half of
/// a wide character; widening the selection by one cell to the right
/// appends that cell's character in the same way.
pub proof fn lemma_extract_one_row(g: GridModel, r: usize, c: usize, d: usize)
    requires
        c <= d < usize::MAX,
    ensures
        ({
            let line = spec_absolute_line(g, r as int);
            let cell_text = |k: int| if 0 <= k < line.len() && line[k].width > 0 { seq![line[k].ch] } else { Seq::<char>::empty() };
            &&& spec_extract_text(selection_of((r, c), (r, c)), g) == cell_text(c as int)
            &&& spec_extract_text(selection_of((r, c), (r, (d + 1) as usize)), g)
                == spec_extract_text(selection_of((r, c), (r, d)), g) + cell_text(d + 1)
        }),
{
    let line = spec_absolute_line(g, r as int);
    let ri = r as int;
    assert(text_upto(g, ri, c as int, ri, c as int, ri - 1) == Seq::<char>::empty());
    assert(text_upto(g, ri, c as int, ri, d as int, ri - 1) == Seq::<char>::empty());
    assert(text_upto(g, ri, c as int, ri, d + 1, ri - 1) == Seq::<char>::empty());
    let last = if line.len() == 0 { 0 } else { line.len() - 1 };
    assert(cells_text(line, c as int, c - 1) == Seq::<char>::empty());
    if d + 1 <= last {
        assert(cells_text(line, c as int, d + 1) == cells_text(line, c as int, d as int) + (if 0 <= d + 1 < line.len() && line[d + 1].width > 0 { seq![line[d + 1].ch] } else { Seq::<char>::empty() }));
    }
    assert(Seq::<char>::empty() + cells_text(line, c as int, c as int) =~= cells_text(line, c as int, c as int));
    assert(Seq::<char>::empty() + cells_text(line, c as int, d as int) =~= cells_text(line, c as int, d as int));
    assert(Seq::<char>::empty() + cells_text(line, c as int, d + 1) =~= cells_text(line, c as int, d + 1));
    assert(Seq::<char>::empty() + cells_text(line, c as int, last) =~= cells_text(line, c as int, last));
}

} // verus!
