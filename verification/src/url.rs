//! Finding the URL under a grid position.

use vstd::prelude::*;
use crate::terminal::cell::Cell;
use crate::terminal::grid::{Grid, GridModel, grid_wf};
use crate::text::{copy_range, string_from_chars};

verus! {

#[verifier::external_type_specification]
#[verifier::external_body]
pub struct ExRegexError(regex::Error);

/// What the URL pattern matches: `http://` or `https://` and then a run
/// of characters other than whitespace, angle brackets, quotes, backtick
/// and closing brackets.
pub const URL_PATTERN: &'static str = "https?://[^\\s<>\"'`\\])}]+";

/// The byte spans (start, end) of the successive non-overlapping matches
/// of regular expression `pattern` in `text`; `None` when the pattern
/// does not compile.
pub uninterp spec fn regex_spans(pattern: Seq<char>, text: Seq<char>) -> Option<Seq<(usize, usize)>>;

/// `Regex::find_iter` over `text`, each match taken as its byte offsets
/// `(start, end)`, with the pattern compiled by `Regex::new` to make the
/// call; the compile error when the pattern is invalid. Which spans come
/// back is left to the name `regex_spans`, a function of the pattern and
/// the text.
#[verifier::external_body]
fn find_spans(pattern: &str, text: &str) -> (r: Result<Vec<(usize, usize)>, regex::Error>)
    ensures
        match r {
            Ok(v) => regex_spans(pattern@, text@) == Some(v@),
            Err(_) => regex_spans(pattern@, text@) is None,
        },
{
    regex::Regex::new(pattern).map(|re| re.find_iter(text).map(|m| (m.start(), m.end())).collect())
}

/// The UTF-8 length of `c`.
pub open spec fn char_len(c: char) -> nat {
    let u = c as u32;
    if u < 0x80 { 1 } else if u < 0x800 { 2 } else if u < 0x10000 { 3 } else { 4 }
}

/// The UTF-8 length of `cs`.
pub open spec fn utf8_len(cs: Seq<char>) -> nat
    decreases cs.len(),
{
    if cs.len() == 0 { 0 } else { utf8_len(cs.drop_last()) + char_len(cs.last()) }
}

/// The number of whole characters among the first `b` bytes, counting on
/// from `k`.
pub open spec fn count_upto(cs: Seq<char>, b: int, k: int) -> int
    decreases cs.len() - k,
{
    if 0 <= k < cs.len() && utf8_len(cs.take(k + 1)) <= b { count_upto(cs, b, k + 1) } else { k }
}

/// The character index of byte offset `b` in the text `cs`.
pub open spec fn char_offset(cs: Seq<char>, b: int) -> int {
    count_upto(cs, b, 0)
}

/// The text of the first `n` cells of a row: the characters of the cells
/// that have a width (wide characters' continuation cells add nothing).
pub open spec fn line_text(cells: Seq<Cell>, n: int) -> Seq<char>
    decreases n,
{
    if n <= 0 {
        Seq::empty()
    } else {
        let t = line_text(cells, n - 1);
        if cells[n - 1].width > 0 { t.push(cells[n - 1].ch) } else { t }
    }
}

/// The column of each character of `line_text(cells, n)`.
pub open spec fn char_columns(cells: Seq<Cell>, n: int) -> Seq<int>
    decreases n,
{
    if n <= 0 {
        Seq::empty()
    } else {
        let t = char_columns(cells, n - 1);
        if cells[n - 1].width > 0 { t.push(n - 1) } else { t }
    }
}

/// The character index of column `c`: a continuation cell counts as the
/// character before it.
pub open spec fn char_index(cells: Seq<Cell>, c: int) -> int {
    let k = line_text(cells, c).len() as int;
    if cells[c].width > 0 { k } else if k > 0 { k - 1 } else { 0 }
}

/// The character range of the first span that holds character `idx`.
pub open spec fn first_span(text: Seq<char>, spans: Seq<(usize, usize)>, idx: int) -> Option<(int, int)>
    decreases spans.len(),
{
    if spans.len() == 0 {
        None
    } else {
        let s = char_offset(text, spans[0].0 as int);
        let e = char_offset(text, spans[0].1 as int);
        if s <= idx < e { Some((s, e)) } else { first_span(text, spans.drop_first(), idx) }
    }
}

/// The character range of the URL under (`row`, `col`) of the screen.
pub open spec fn url_range(g: GridModel, row: int, col: int) -> Option<(int, int)> {
    if row >= g.rows || col >= g.cols {
        None
    } else {
        let cells = g.screen[row];
        let text = line_text(cells, g.cols as int);
        match regex_spans(URL_PATTERN@, text) {
            None => None,
            Some(spans) => first_span(text, spans, char_index(cells, col)),
        }
    }
}

/// The URL under (`row`, `col`) of the screen.
pub open spec fn spec_find_url_at(g: GridModel, row: int, col: int) -> Option<Seq<char>> {
    match url_range(g, row, col) {
        Some((s, e)) => Some(line_text(g.screen[row], g.cols as int).subrange(s, e)),
        None => None,
    }
}

/// The URL under (`row`, `col`) with the columns it spans (end
/// exclusive).
pub open spec fn spec_find_url_range_at(g: GridModel, row: int, col: int) -> Option<(int, int, Seq<char>)> {
    match url_range(g, row, col) {
        Some((s, e)) => {
            let text = line_text(g.screen[row], g.cols as int);
            let cc = char_columns(g.screen[row], g.cols as int);
            let start_col = if s < cc.len() { cc[s] } else { 0 };
            let end_col = if e <= cc.len() {
                if e > 0 && e - 1 < cc.len() { cc[e - 1] + 1 } else { g.cols as int }
            } else {
                g.cols as int
            };
            Some((start_col, end_col, text.subrange(s, e)))
        },
        None => None,
    }
}

proof fn lemma_line_lengths(cells: Seq<Cell>, n: int)
    requires
        0 <= n,
    ensures
        line_text(cells, n).len() == char_columns(cells, n).len(),
        line_text(cells, n).len() <= n,
        forall|k: int| 0 <= k < char_columns(cells, n).len() ==> 0 <= #[trigger] char_columns(cells, n)[k] < n,
    decreases n,
{
    if n > 0 {
        lemma_line_lengths(cells, n - 1);
    }
}

/// A row's text, the character index of each column, and the column of
/// each character.
struct LineMap {
    text: Vec<char>,
    col_to_char: Vec<usize>,
    char_to_col: Vec<usize>,
}

fn line_map(grid: &Grid, row: usize) -> (m: LineMap)
    requires
        grid_wf(grid@),
        row < grid@.rows,
    ensures
        m.text@ == line_text(grid@.screen[row as int], grid@.cols as int),
        m.col_to_char@.len() == grid@.cols,
        forall|c: int| 0 <= c < grid@.cols ==> #[trigger] m.col_to_char@[c] == char_index(grid@.screen[row as int], c),
        m.char_to_col@.len() == m.text@.len(),
        forall|k: int| 0 <= k < m.char_to_col@.len() ==> #[trigger] m.char_to_col@[k] == char_columns(grid@.screen[row as int], grid@.cols as int)[k],
{
    let ghost cells = grid@.screen[row as int];
    let mut text: Vec<char> = Vec::new();
    let mut col_to_char: Vec<usize> = Vec::new();
    let mut char_to_col: Vec<usize> = Vec::new();
    let mut c: usize = 0;
    while c < grid.cols
        invariant
            grid_wf(grid@),
            row < grid@.rows,
            cells == grid@.screen[row as int],
            cells.len() == grid@.cols,
            c <= grid@.cols,
            text@ == line_text(cells, c as int),
            char_to_col@.len() == text@.len(),
            forall|k: int| 0 <= k < char_to_col@.len() ==> #[trigger] char_to_col@[k] == char_columns(cells, c as int)[k],
            col_to_char@.len() == c,
            forall|j: int| 0 <= j < c ==> #[trigger] col_to_char@[j] == char_index(cells, j),
        decreases grid@.cols - c,
    {
        proof {
            lemma_line_lengths(cells, c as int);
        }
        let cell = grid.cell(row, c);
        if cell.width > 0 {
            col_to_char.push(text.len());
            char_to_col.push(c);
            text.push(cell.ch);
        } else {
            let prev: usize = if text.len() > 0 { text.len() - 1 } else { 0 };
            col_to_char.push(prev);
        }
        proof {
            assert(char_columns(cells, c + 1) == if cells[c as int].width > 0 {
                char_columns(cells, c as int).push(c as int)
            } else {
                char_columns(cells, c as int)
            });
        }
        c = c + 1;
    }
    LineMap { text, col_to_char, char_to_col }
}

fn char_len_exec(ch: char) -> (n: usize)
    ensures
        n == char_len(ch),
{
    let u = ch as u32;
    if u < 0x80 { 1 } else if u < 0x800 { 2 } else if u < 0x10000 { 3 } else { 4 }
}

proof fn lemma_utf8_len_bound(cs: Seq<char>)
    ensures
        utf8_len(cs) <= 4 * cs.len(),
    decreases cs.len(),
{
    if cs.len() > 0 {
        lemma_utf8_len_bound(cs.drop_last());
    }
}

/// `offs[k]` is the byte offset of character `k` (for `k` up to the
/// length).
fn byte_offsets(text: &Vec<char>) -> (offs: Vec<usize>)
    requires
        text@.len() < usize::MAX / 4,
    ensures
        offs@.len() == text@.len() + 1,
        forall|k: int| 0 <= k <= text@.len() ==> #[trigger] offs@[k] == utf8_len(text@.take(k)),
{
    let mut offs: Vec<usize> = Vec::new();
    offs.push(0);
    assert(text@.take(0) =~= Seq::<char>::empty());
    let mut k: usize = 0;
    let mut total: usize = 0;
    while k < text.len()
        invariant
            text@.len() < usize::MAX / 4,
            k <= text@.len(),
            offs@.len() == k + 1,
            total == utf8_len(text@.take(k as int)),
            forall|j: int| 0 <= j <= k ==> #[trigger] offs@[j] == utf8_len(text@.take(j)),
        decreases text@.len() - k,
    {
        proof {
            assert(text@.take(k + 1).drop_last() =~= text@.take(k as int));
            lemma_utf8_len_bound(text@.take(k + 1));
        }
        total = total + char_len_exec(text[k]);
        offs.push(total);
        k = k + 1;
    }
    offs
}

fn char_offset_exec(text: &Vec<char>, offs: &Vec<usize>, b: usize) -> (k: usize)
    requires
        offs@.len() == text@.len() + 1,
        forall|j: int| 0 <= j <= text@.len() ==> #[trigger] offs@[j] == utf8_len(text@.take(j)),
    ensures
        k == char_offset(text@, b as int),
        k <= text@.len(),
{
    let mut k: usize = 0;
    while k < text.len() && offs[k + 1] <= b
        invariant
            k <= text@.len(),
            offs@.len() == text@.len() + 1,
            forall|j: int| 0 <= j <= text@.len() ==> #[trigger] offs@[j] == utf8_len(text@.take(j)),
            count_upto(text@, b as int, 0) == count_upto(text@, b as int, k as int),
        decreases text@.len() - k,
    {
        k = k + 1;
    }
    k
}

/// Of the byte spans `spans` that the URL pattern matched in the UTF-8
/// encoding of `text`, the first that covers character `idx`, as a range
/// of character indices.
pub fn first_span_exec(text: &Vec<char>, spans: &Vec<(usize, usize)>, idx: usize) -> (r: Option<(usize, usize)>)
    requires
        text@.len() < usize::MAX / 4,
    ensures
        match first_span(text@, spans@, idx as int) {
            None => r is None,
            Some((s, e)) => r == Some((s as usize, e as usize)) && 0 <= s < e <= text@.len(),
        },
{
    let offs = byte_offsets(text);
    let mut j: usize = 0;
    assert(spans@.skip(0) =~= spans@);
    while j < spans.len()
        invariant
            j <= spans@.len(),
            offs@.len() == text@.len() + 1,
            forall|q: int| 0 <= q <= text@.len() ==> #[trigger] offs@[q] == utf8_len(text@.take(q)),
            first_span(text@, spans@, idx as int) == first_span(text@, spans@.skip(j as int), idx as int),
        decreases spans@.len() - j,
    {
        let (a, b) = spans[j];
        let s = char_offset_exec(text, &offs, a);
        let e = char_offset_exec(text, &offs, b);
        assert(spans@.skip(j as int)[0] == spans@[j as int]);
        assert(spans@.skip(j as int).drop_first() =~= spans@.skip(j + 1));
        if s <= idx && idx < e {
            return Some((s, e));
        }
        j = j + 1;
    }
    None
}

/// The URL under (`row`, `col`) of the screen, if any: the first match of
/// the URL pattern on that row's text that covers the column's character.
pub fn find_url_at(grid: &Grid, row: usize, col: usize) -> (r: Option<String>)
    requires
        grid_wf(grid@),
        grid@.cols < usize::MAX / 4,
    ensures
        match r {
            Some(s) => spec_find_url_at(grid@, row as int, col as int) == Some(s@),
            None => spec_find_url_at(grid@, row as int, col as int) is None,
        },
{
    if row >= grid.rows {
        return None;
    }
    let m = line_map(grid, row);
    proof {
        lemma_line_lengths(grid@.screen[row as int], grid@.cols as int);
    }
    if col >= m.col_to_char.len() {
        return None;
    }
    let idx = m.col_to_char[col];
    let line = string_from_chars(m.text.as_slice());
    match find_spans(URL_PATTERN, line.as_str()) {
        Err(_) => None,
        Ok(spans) => match first_span_exec(&m.text, &spans, idx) {
            Some((s, e)) => {
                let url = copy_range(m.text.as_slice(), s, e);
                Some(string_from_chars(url.as_slice()))
            },
            None => None,
        },
    }
}

/// The URL under (`row`, `col`) with the columns it covers
/// (`start_col`, `end_col` exclusive).
pub fn find_url_range_at(grid: &Grid, row: usize, col: usize) -> (r: Option<(usize, usize, String)>)
    requires
        grid_wf(grid@),
        grid@.cols < usize::MAX / 4,
    ensures
        match r {
            Some((a, b, s)) => spec_find_url_range_at(grid@, row as int, col as int) == Some((a as int, b as int, s@)),
            None => spec_find_url_range_at(grid@, row as int, col as int) is None,
        },
{
    if row >= grid.rows {
        return None;
    }
    let m = line_map(grid, row);
    proof {
        lemma_line_lengths(grid@.screen[row as int], grid@.cols as int);
    }
    if col >= m.col_to_char.len() {
        return None;
    }
    let idx = m.col_to_char[col];
    let line = string_from_chars(m.text.as_slice());
    match find_spans(URL_PATTERN, line.as_str()) {
        Err(_) => None,
        Ok(spans) => match first_span_exec(&m.text, &spans, idx) {
            Some((s, e)) => {
                let n = m.char_to_col.len();
                let start_col = if s < n { m.char_to_col[s] } else { 0 };
                let end_col = if e <= n {
                    if e > 0 && e - 1 < n { m.char_to_col[e - 1] + 1 } else { grid.cols }
                } else {
                    grid.cols
                };
                let url = copy_range(m.text.as_slice(), s, e);
                Some((start_col, end_col, string_from_chars(url.as_slice())))
            },
            None => None,
        },
    }
}

} // verus!
