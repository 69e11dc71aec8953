pub mod cell;
pub mod grid;
pub mod handler;
pub mod parser;
pub mod selection;


use vstd::prelude::*;
use crate::terminal::cell::{CellAttrs, Color, plain_attrs};
use crate::terminal::grid::{Grid, GridModel, grid_wf, spec_new_grid, spec_resize, Cursor};
use crate::terminal::parser::{Parser, ParserModel, SpecAction, model_wf, initial_model, run, lemma_run_wf, lemma_run_concat};
use crate::terminal::handler::{
    handle, spec_handle, spec_handle_all, action_ok, spec_csi, spec_set_modes, spec_set_mode_one, iter_scroll_up,
    iter_scroll_down, iter_insert_lines, iter_delete_lines,
};

verus! {

/// The colours and rendition that newly printed characters get.
#[derive(Clone, Copy, PartialEq, Eq, Structural, Debug)]
pub struct Pen {
    pub fg: Color,
    pub bg: Color,
    pub attrs: CellAttrs,
}

/// Default colours, no rendition flags.
pub open spec fn default_pen() -> Pen {
    Pen { fg: Color::Default, bg: Color::Default, attrs: plain_attrs() }
}

impl Default for Pen {
    fn default() -> (p: Self)
        ensures
            p == default_pen(),
    {
        Pen { fg: Color::Default, bg: Color::Default, attrs: CellAttrs::default() }
    }
}

/// Which mouse events are reported to the application.
#[derive(Clone, Copy, PartialEq, Eq, Structural, PartialOrd, Debug)]
pub enum MouseMode {
    /// No reporting.
    Off,
    /// Mode 1000: button press and release.
    Press,
    /// Mode 1002: press, release and motion while a button is held.
    ButtonMotion,
    /// Mode 1003: all motion.
    AnyMotion,
}

/// How mouse events are encoded.
#[derive(Clone, Copy, PartialEq, Eq, Structural, Debug)]
pub enum MouseEncoding {
    /// X10 encoding.
    Normal,
    /// Mode 1006: SGR extended encoding.
    Sgr,
}

/// Terminal modes set with `CSI ? Pm h` / `CSI ? Pm l`.
#[derive(Clone, Copy, PartialEq, Eq, Structural, Debug)]
pub struct Modes {
    /// DECCKM (mode 1).
    pub cursor_keys_application: bool,
    /// DECAWM (mode 7).
    pub auto_wrap: bool,
    /// DECOM (mode 6).
    pub origin_mode: bool,
    /// Mode 2004.
    pub bracketed_paste: bool,
    pub mouse_mode: MouseMode,
    pub mouse_encoding: MouseEncoding,
    /// Mode 1004.
    pub focus_events: bool,
}

/// Auto-wrap on, everything else off.
pub open spec fn default_modes() -> Modes {
    Modes {
        cursor_keys_application: false,
        auto_wrap: true,
        origin_mode: false,
        bracketed_paste: false,
        mouse_mode: MouseMode::Off,
        mouse_encoding: MouseEncoding::Normal,
        focus_events: false,
    }
}

impl Default for Modes {
    fn default() -> (m: Self)
        ensures
            m == default_modes(),
    {
        Modes {
            cursor_keys_application: false,
            auto_wrap: true,
            origin_mode: false,
            bracketed_paste: false,
            mouse_mode: MouseMode::Off,
            mouse_encoding: MouseEncoding::Normal,
            focus_events: false,
        }
    }
}

/// A terminal: grid, parser, pen, modes, queued replies and title.
pub struct Terminal {
    pub grid: Grid,
    pub parser: Parser,
    pub pen: Pen,
    pub modes: Modes,
    /// Queued responses to send back to the PTY (e.g. DSR replies).
    pub responses: Vec<Vec<u8>>,
    /// Window/tab title set by OSC 0/2.
    pub title: String,
}

/// A terminal as plain values.
#[verifier::ext_equal]
pub struct TermModel {
    pub grid: GridModel,
    pub parser: ParserModel,
    pub pen: Pen,
    pub modes: Modes,
    pub responses: Seq<Seq<u8>>,
    pub title: Seq<char>,
}

pub open spec fn responses_view(v: Seq<Vec<u8>>) -> Seq<Seq<u8>> {
    v.map_values(|r: Vec<u8>| r@)
}

impl View for Terminal {
    type V = TermModel;

    open spec fn view(&self) -> TermModel {
        TermModel {
            grid: self.grid@,
            parser: self.parser@,
            pen: self.pen,
            modes: self.modes,
            responses: responses_view(self.responses@),
            title: self.title@,
        }
    }
}

/// A fresh terminal of `cols` x `rows`.
pub open spec fn spec_new_terminal(cols: usize, rows: usize) -> TermModel {
    TermModel {
        grid: spec_new_grid(cols, rows),
        parser: initial_model(),
        pen: default_pen(),
        modes: default_modes(),
        responses: Seq::empty(),
        title: Seq::empty(),
    }
}

/// The cursor lies on the screen (its column may be one past the last,
/// where the next character wraps).
pub open spec fn cursor_fits(c: Cursor, rows: usize, cols: usize) -> bool {
    c.row < rows && c.col <= cols
}

/// The state in which every sequence can be handled: a non-empty grid of
/// at most `i32::MAX` rows and columns, the cursor, the saved cursor and
/// the kept-aside main screen all fitting it, and a consistent parser.
pub open spec fn term_wf(t: TermModel) -> bool {
    &&& grid_wf(t.grid)
    &&& 1 <= t.grid.rows <= i32::MAX
    &&& 1 <= t.grid.cols <= i32::MAX
    &&& cursor_fits(t.grid.cursor, t.grid.rows, t.grid.cols)
    &&& (t.grid.saved_cursor matches Some(c) ==> cursor_fits(c, t.grid.rows, t.grid.cols))
    &&& (t.grid.saved_main matches Some(s) ==> {
        &&& s.screen.len() == t.grid.rows
        &&& (forall|r: int| 0 <= r < t.grid.rows ==> (#[trigger] s.screen[r]).len() == t.grid.cols)
        &&& cursor_fits(s.cursor, t.grid.rows, t.grid.cols)
        &&& (s.saved_cursor matches Some(c) ==> cursor_fits(c, t.grid.rows, t.grid.cols))
    })
    &&& model_wf(t.parser)
}

/// What `process` does: the bytes go through the parser and each action
/// it completes is handled in order.
pub open spec fn spec_process(t: TermModel, data: Seq<u8>) -> TermModel {
    let (p, actions) = run(t.parser, data);
    spec_handle_all(TermModel { parser: p, ..t }, actions)
}

impl Terminal {
    pub fn new(cols: usize, rows: usize) -> (t: Self)
        ensures
            t@ == spec_new_terminal(cols, rows),
            (1 <= cols <= i32::MAX && 1 <= rows <= i32::MAX) ==> term_wf(t@),
    {
        let t = Terminal {
            grid: Grid::new(cols, rows),
            parser: Parser::new(),
            pen: Pen::default(),
            modes: Modes::default(),
            responses: Vec::new(),
            title: String::new(),
        };
        assert(responses_view(t.responses@) =~= Seq::<Seq<u8>>::empty());
        assert(t@ =~= spec_new_terminal(cols, rows));
        t
    }

    /// Whether the terminal is in a state `process` accepts (`term_wf`).
    pub fn is_consistent(&self) -> (b: bool)
        ensures
            b == term_wf(self@),
    {
        let rows = self.grid.rows;
        let cols = self.grid.cols;
        if self.grid.cells.len() != rows || rows < 1 || rows > 2147483647 || cols < 1 || cols > 2147483647 {
            return false;
        }
        if !rows_have_width(&self.grid.cells, cols) {
            return false;
        }
        if !(self.grid.scroll_bottom <= rows && self.grid.scroll_top < self.grid.scroll_bottom) {
            return false;
        }
        if !(self.grid.cursor.row < rows && self.grid.cursor.col <= cols) {
            return false;
        }
        if let Some(c) = self.grid.saved_cursor {
            if !(c.row < rows && c.col <= cols) {
                return false;
            }
        }
        if let Some(s) = &self.grid.saved_main {
            if s.cells.len() != rows || !rows_have_width(&s.cells, cols) {
                return false;
            }
            if !(s.cursor.row < rows && s.cursor.col <= cols) {
                return false;
            }
            if let Some(c) = s.saved_cursor {
                if !(c.row < rows && c.col <= cols) {
                    return false;
                }
            }
        }
        self.parser.is_consistent()
    }

    /// Whether `process(data)` may be called: the terminal is consistent
    /// and every character that `data` completes fits on a line.
    pub fn can_process(&self, data: &[u8]) -> (b: bool)
        ensures
            b == (term_wf(self@) && forall|i: int| 0 <= i < run(self@.parser, data@).1.len()
                ==> action_ok(#[trigger] run(self@.parser, data@).1[i], self@.grid.cols)),
    {
        if !self.is_consistent() {
            return false;
        }
        let mut p = self.parser.snapshot();
        let actions = p.feed(data);
        let ghost acts = run(self@.parser, data@).1;
        proof {
            parser::lemma_run_actions(self@.parser, data@);
        }
        let cols = self.grid.cols;
        let mut i: usize = 0;
        while i < actions.len()
            invariant
                i <= actions@.len(),
                parser::actions_view(actions@) == acts,
                cols == self@.grid.cols,
                term_wf(self@),
                acts == run(self@.parser, data@).1,
                forall|j: int| 0 <= j < acts.len() ==> parser::params_nonneg(#[trigger] acts[j]),
                forall|j: int| 0 <= j < i ==> action_ok(#[trigger] acts[j], cols),
            decreases actions@.len() - i,
        {
            assert(acts[i as int] == actions@[i as int]@);
            if let parser::Action::Print(ch) = &actions[i] {
                let w = handler::print_width_of(*ch);
                assert(actions@[i as int] == parser::Action::Print(*ch));
                assert(acts[i as int] == parser::SpecAction::Print(*ch));
                if w > cols {
                    assert(handler::print_width(*ch) > cols);
                    assert(!action_ok(run(self@.parser, data@).1[i as int], self@.grid.cols));
                    return false;
                }
            }
            i = i + 1;
        }
        true
    }

    /// Feeds bytes from the PTY when `can_process` allows it, and leaves
    /// the terminal as it was otherwise; returns whether it fed them.
    pub fn process_checked(&mut self, data: &[u8]) -> (ok: bool)
        ensures
            ok == (term_wf(old(self)@) && forall|i: int| 0 <= i < run(old(self)@.parser, data@).1.len()
                ==> action_ok(#[trigger] run(old(self)@.parser, data@).1[i], old(self)@.grid.cols)),
            ok ==> term_wf(final(self)@) && final(self)@ == spec_process(old(self)@, data@),
            !ok ==> final(self)@ == old(self)@,
    {
        if self.can_process(data) {
            self.process(data);
            true
        } else {
            false
        }
    }

    /// Feed bytes from the PTY: parse them and apply every completed action.
    #[verifier::rlimit(60)]
    pub fn process(&mut self, data: &[u8])
        requires
            term_wf(old(self)@),
            forall|i: int| 0 <= i < run(old(self)@.parser, data@).1.len()
                ==> action_ok(#[trigger] run(old(self)@.parser, data@).1[i], old(self)@.grid.cols),
        ensures
            term_wf(final(self)@),
            final(self)@ == spec_process(old(self)@, data@),
    {
        let ghost t0 = self@;
        let mut actions = self.parser.feed(data);
        let ghost acts = run(t0.parser, data@).1;
        let ghost t1 = TermModel { parser: run(t0.parser, data@).0, ..t0 };
        assert(self@ =~= t1);
        // Reverse the actions so that popping hands them over first to last.
        let mut rev: Vec<parser::Action> = Vec::new();
        while actions.len() > 0
            invariant
                parser::actions_view(actions@) + parser::actions_view(rev@).reverse() == acts,
            decreases actions@.len(),
        {
            let ghost before = actions@;
            let ghost rev_before = rev@;
            let a = actions.pop().unwrap();
            rev.push(a);
            assert(parser::actions_view(before) =~= parser::actions_view(actions@).push(a@));
            assert(parser::actions_view(rev@) =~= parser::actions_view(rev_before).push(a@));
            assert(parser::actions_view(rev@).reverse() =~= seq![a@] + parser::actions_view(rev_before).reverse());
            assert(parser::actions_view(actions@) + parser::actions_view(rev@).reverse()
                =~= parser::actions_view(before) + parser::actions_view(rev_before).reverse());
        }
        assert(parser::actions_view(rev@).reverse() =~= acts) by {
            assert(parser::actions_view(actions@) =~= Seq::<parser::SpecAction>::empty());
        }
        proof {
            parser::lemma_run_actions(t0.parser, data@);
        }
        let ghost mut k: int = 0;
        while rev.len() > 0
            invariant
                0 <= k <= acts.len(),
                parser::actions_view(rev@).reverse() == acts.skip(k),
                term_wf(self@),
                self@.grid.cols == t0.grid.cols,
                self@ == spec_handle_all(t1, acts.take(k)),
                forall|i: int| 0 <= i < acts.len() ==> action_ok(#[trigger] acts[i], t0.grid.cols),
                forall|i: int| 0 <= i < acts.len() ==> parser::params_nonneg(#[trigger] acts[i]),
            decreases rev@.len(),
        {
            let ghost rev_before = rev@;
            let a = rev.pop().unwrap();
            assert(parser::actions_view(rev_before) =~= parser::actions_view(rev@).push(a@));
            assert(parser::actions_view(rev_before).reverse() =~= seq![a@] + parser::actions_view(rev@).reverse());
            assert(acts.skip(k)[0] == acts[k]);
            assert(a@ == acts[k]);
            assert(action_ok(acts[k], t0.grid.cols));
            handle(self, a);
            assert(acts.take(k + 1).drop_last() =~= acts.take(k));
            assert(acts.skip(k + 1) =~= acts.skip(k).drop_first());
            proof {
                k = k + 1;
            }
        }
        assert(acts.take(k) =~= acts) by {
            assert(acts.skip(k).len() == 0);
        }
    }

    /// Resize the grid (see `Grid::resize`).
    pub fn resize(&mut self, cols: usize, rows: usize)
        requires
            grid_wf(old(self)@.grid),
        ensures
            final(self)@ == (TermModel { grid: spec_resize(old(self)@.grid, cols, rows), ..old(self)@ }),
    {
        self.grid.resize(cols, rows);
    }
}

fn rows_have_width(cells: &Vec<Vec<cell::Cell>>, cols: usize) -> (b: bool)
    ensures
        b == forall|r: int| 0 <= r < cells@.len() ==> (#[trigger] grid::lines_of(cells@)[r]).len() == cols,
{
    let mut i: usize = 0;
    while i < cells.len()
        invariant
            i <= cells@.len(),
            forall|r: int| 0 <= r < i ==> (#[trigger] grid::lines_of(cells@)[r]).len() == cols,
        decreases cells@.len() - i,
    {
        if cells[i].len() != cols {
            assert(grid::lines_of(cells@)[i as int].len() != cols);
            return false;
        }
        i = i + 1;
    }
    true
}

/// A full reset (ESC c), which starts the whole terminal over, parser
/// included.
pub open spec fn is_reset(a: SpecAction) -> bool {
    a matches SpecAction::EscDispatch { final_byte, .. } && final_byte == 0x63
}

proof fn lemma_set_modes_keeps_parser(t: TermModel, q: ParserModel, params: Seq<i32>, set: bool)
    ensures
        (spec_set_modes(TermModel { parser: q, ..t }, params, set) == TermModel { parser: q, ..spec_set_modes(t, params, set) }),
    decreases params.len(),
{
    if params.len() > 0 {
        let t2 = TermModel { parser: q, ..t };
        assert(spec_set_mode_one(t2, params[0], set) =~= TermModel { parser: q, ..spec_set_mode_one(t, params[0], set) });
        lemma_set_modes_keeps_parser(spec_set_mode_one(t, params[0], set), q, params.drop_first(), set);
    }
}

#[verifier::rlimit(50)]
proof fn lemma_csi_keeps_parser(t: TermModel, q: ParserModel, params: Seq<i32>, private: Option<u8>, fb: u8)
    ensures
        (spec_csi(TermModel { parser: q, ..t }, params, private, fb) == TermModel { parser: q, ..spec_csi(t, params, private, fb) }),
{
    let t2 = TermModel { parser: q, ..t };
    if fb == 0x68 || fb == 0x6C {
        lemma_set_modes_keeps_parser(t, q, params, fb == 0x68);
    }
    assert(spec_csi(t2, params, private, fb) =~= TermModel { parser: q, ..spec_csi(t, params, private, fb) });
}

#[verifier::rlimit(100)]
proof fn lemma_handle_csi_keeps_parser(t: TermModel, q: ParserModel, a: SpecAction)
    requires
        a is CsiDispatch,
    ensures
        (spec_handle(TermModel { parser: q, ..t }, a) == TermModel { parser: q, ..spec_handle(t, a) }),
{
    reveal(spec_handle);
    let t2 = TermModel { parser: q, ..t };
    let t0 = crate::terminal::handler::with_grid(t, grid::spec_scroll_viewport_to_bottom(t.grid));
    let t02 = crate::terminal::handler::with_grid(t2, grid::spec_scroll_viewport_to_bottom(t2.grid));
    assert(t02 == TermModel { parser: q, ..t0 });
    match a {
        SpecAction::CsiDispatch { params, private_marker, final_byte, .. } => {
            lemma_csi_keeps_parser(t0, q, params, private_marker, final_byte);
        },
        _ => {},
    }
}

/// Handling an action other than a full reset neither reads nor changes
/// the parser.
#[verifier::rlimit(50)]
proof fn lemma_handle_keeps_parser(t: TermModel, q: ParserModel, a: SpecAction)
    requires
        !is_reset(a),
    ensures
        (spec_handle(TermModel { parser: q, ..t }, a) == TermModel { parser: q, ..spec_handle(t, a) }),
{
    if a is CsiDispatch {
        lemma_handle_csi_keeps_parser(t, q, a);
    } else {
        reveal(spec_handle);
        let t2 = TermModel { parser: q, ..t };
        assert(spec_handle(t2, a) =~= TermModel { parser: q, ..spec_handle(t, a) });
    }
}

proof fn lemma_handle_all_keeps_parser(t: TermModel, q: ParserModel, acts: Seq<SpecAction>)
    requires
        forall|i: int| 0 <= i < acts.len() ==> !is_reset(#[trigger] acts[i]),
    ensures
        (spec_handle_all(TermModel { parser: q, ..t }, acts) == TermModel { parser: q, ..spec_handle_all(t, acts) }),
    decreases acts.len(),
{
    if acts.len() > 0 {
        lemma_handle_all_keeps_parser(t, q, acts.drop_last());
        assert(!is_reset(acts[acts.len() - 1]));
        lemma_handle_keeps_parser(spec_handle_all(t, acts.drop_last()), q, acts.last());
    }
}

proof fn lemma_handle_all_concat(t: TermModel, xs: Seq<SpecAction>, ys: Seq<SpecAction>)
    ensures
        spec_handle_all(t, xs + ys) == spec_handle_all(spec_handle_all(t, xs), ys),
    decreases ys.len(),
{
    if ys.len() == 0 {
        assert(xs + ys =~= xs);
    } else {
        assert((xs + ys).drop_last() =~= xs + ys.drop_last());
        assert((xs + ys).last() == ys.last());
        lemma_handle_all_concat(t, xs, ys.drop_last());
    }
}

proof fn lemma_handle_all_parser(t: TermModel, acts: Seq<SpecAction>)
    requires
        forall|i: int| 0 <= i < acts.len() ==> !is_reset(#[trigger] acts[i]),
    ensures
        spec_handle_all(t, acts).parser == t.parser,
{
    lemma_handle_all_keeps_parser(t, t.parser, acts);
    assert(TermModel { parser: t.parser, ..t } =~= t);
}

/// Program output processed in two pieces leaves the terminal as it
/// would be after processing it at once, however the output is split
/// (escape sequences may straddle the split), as long as the first piece
/// completes no full reset (ESC c).
pub proof fn lemma_process_chunks(t: TermModel, a: Seq<u8>, b: Seq<u8>)
    requires
        forall|i: int| 0 <= i < run(t.parser, a).1.len() ==> !is_reset(#[trigger] run(t.parser, a).1[i]),
    ensures
        spec_process(spec_process(t, a), b) == spec_process(t, a + b),
{
    lemma_run_concat(t.parser, a, b);
    let (p1, acts1) = run(t.parser, a);
    let (p2, acts2) = run(p1, b);
    let t1 = spec_handle_all(TermModel { parser: p1, ..t }, acts1);
    lemma_handle_all_parser(TermModel { parser: p1, ..t }, acts1);
    assert(t1.parser == p1);
    assert(spec_process(t1, b) == spec_handle_all(TermModel { parser: p2, ..t1 }, acts2));
    lemma_handle_all_keeps_parser(TermModel { parser: p1, ..t }, p2, acts1);
    assert(TermModel { parser: p2, ..TermModel { parser: p1, ..t } } =~= TermModel { parser: p2, ..t });
    assert(TermModel { parser: p2, ..t1 } == spec_handle_all(TermModel { parser: p2, ..t }, acts1));
    lemma_handle_all_concat(TermModel { parser: p2, ..t }, acts1, acts2);
}

/// What a terminal shows and answers: everything but the parser's
/// inner state.
pub open spec fn visible(t: TermModel) -> TermModel {
    TermModel { parser: initial_model(), ..t }
}

proof fn lemma_handle_visible(x: TermModel, y: TermModel, a: SpecAction)
    requires
        visible(x) == visible(y),
    ensures
        visible(spec_handle(x, a)) == visible(spec_handle(y, a)),
        is_reset(a) ==> spec_handle(x, a).parser == initial_model(),
        !is_reset(a) ==> spec_handle(x, a).parser == x.parser,
{
    assert(x == TermModel { parser: x.parser, ..y });
    assert(y == TermModel { parser: y.parser, ..y });
    if is_reset(a) {
        reveal(spec_handle);
        assert(spec_handle(x, a) =~= spec_handle(y, a));
    } else {
        lemma_handle_keeps_parser(y, x.parser, a);
        lemma_handle_keeps_parser(y, y.parser, a);
    }
}

proof fn lemma_handle_all_visible(x: TermModel, y: TermModel, acts: Seq<SpecAction>)
    requires
        visible(x) == visible(y),
    ensures
        visible(spec_handle_all(x, acts)) == visible(spec_handle_all(y, acts)),
        spec_handle_all(x, acts).parser == x.parser || spec_handle_all(x, acts).parser == initial_model(),
    decreases acts.len(),
{
    if acts.len() > 0 {
        lemma_handle_all_visible(x, y, acts.drop_last());
        lemma_handle_visible(spec_handle_all(x, acts.drop_last()), spec_handle_all(y, acts.drop_last()), acts.last());
    }
}

/// Program output processed in two pieces shows and answers what it
/// would after processing it at once (grid, pen, modes, responses and
/// title), whatever the first piece holds (full resets included), as
/// long as the first piece leaves the parser at rest (in the ground
/// state with nothing pending).
pub proof fn lemma_process_chunks_visible(t: TermModel, a: Seq<u8>, b: Seq<u8>)
    requires
        run(t.parser, a).0 == initial_model(),
    ensures
        visible(spec_process(spec_process(t, a), b)) == visible(spec_process(t, a + b)),
{
    lemma_run_concat(t.parser, a, b);
    let (p1, acts1) = run(t.parser, a);
    let (p2, acts2) = run(p1, b);
    let x1 = TermModel { parser: p1, ..t };
    let x2 = TermModel { parser: p2, ..t };
    assert(visible(x1) == visible(x2));
    let t1 = spec_handle_all(x1, acts1);
    lemma_handle_all_visible(x1, x2, acts1);
    assert(t1.parser == initial_model());
    let u = spec_handle_all(x2, acts1);
    lemma_handle_all_concat(x2, acts1, acts2);
    assert(spec_process(t, a + b) == spec_handle_all(u, acts2));
    assert(spec_process(t1, b) == spec_handle_all(TermModel { parser: p2, ..t1 }, acts2));
    assert(visible(TermModel { parser: p2, ..t1 }) == visible(u));
    lemma_handle_all_visible(TermModel { parser: p2, ..t1 }, u, acts2);
}

/// Program output processed in two pieces shows and answers what it
/// would after processing it at once (grid, pen, modes, responses and
/// title) unless the first piece completes a full reset (ESC c) and the
/// second piece then reads differently to a fresh parser than to the one
/// the first piece left: a reset in the first piece starts the second on
/// a fresh parser, where processing at once goes on with the pending
/// sequence. It covers a first piece without a reset, one that leaves the
/// parser at rest, an empty second piece, and any second piece that starts
/// from plain text or a new escape sequence.
pub proof fn lemma_process_chunks_general(t: TermModel, a: Seq<u8>, b: Seq<u8>)
    requires
        (forall|i: int| 0 <= i < run(t.parser, a).1.len() ==> !is_reset(#[trigger] run(t.parser, a).1[i]))
            || run(initial_model(), b).1 == run(run(t.parser, a).0, b).1,
    ensures
        visible(spec_process(spec_process(t, a), b)) == visible(spec_process(t, a + b)),
{
    if forall|i: int| 0 <= i < run(t.parser, a).1.len() ==> !is_reset(#[trigger] run(t.parser, a).1[i]) {
        lemma_process_chunks(t, a, b);
    } else {
        lemma_run_concat(t.parser, a, b);
        let (p1, acts1) = run(t.parser, a);
        let (p2, acts2) = run(p1, b);
        let x1 = TermModel { parser: p1, ..t };
        let x2 = TermModel { parser: p2, ..t };
        assert(visible(x1) == visible(x2));
        let t1 = spec_handle_all(x1, acts1);
        lemma_handle_all_visible(x1, x2, acts1);
        let u = spec_handle_all(x2, acts1);
        lemma_handle_all_concat(x2, acts1, acts2);
        assert(spec_process(t, a + b) == spec_handle_all(u, acts2));
        let (q2, acts2b) = run(t1.parser, b);
        assert(spec_process(t1, b) == spec_handle_all(TermModel { parser: q2, ..t1 }, acts2b));
        lemma_handle_all_reset_parser(x1, acts1);
        assert(t1.parser == initial_model());
        assert(acts2b == acts2);
        assert(visible(TermModel { parser: q2, ..t1 }) == visible(u));
        lemma_handle_all_visible(TermModel { parser: q2, ..t1 }, u, acts2);
    }
}

/// A reset among the actions leaves the parser fresh.
proof fn lemma_handle_all_reset_parser(x: TermModel, acts: Seq<SpecAction>)
    requires
        exists|i: int| 0 <= i < acts.len() && is_reset(#[trigger] acts[i]),
    ensures
        spec_handle_all(x, acts).parser == initial_model(),
    decreases acts.len(),
{
    let k = acts.len() - 1;
    let last = acts.last();
    let pre = acts.drop_last();
    lemma_handle_visible(spec_handle_all(x, pre), spec_handle_all(x, pre), last);
    if !is_reset(last) {
        let i = choose|i: int| 0 <= i < acts.len() && is_reset(#[trigger] acts[i]);
        assert(i != k);
        assert(pre[i] == acts[i]);
        lemma_handle_all_reset_parser(x, pre);
    }
}

// ---------------------------------------------------------------------
// The scrollback limit
// ---------------------------------------------------------------------

/// The scrollback, and the one put aside while the alternate screen is
/// shown, hold at most `scrollback_limit` lines.
pub open spec fn scrollback_within_limit(g: GridModel) -> bool {
    &&& g.history.len() <= g.scrollback_limit
    &&& (g.saved_main matches Some(s) ==> s.history.len() <= g.scrollback_limit)
}

/// The part of a grid the scrollback limit speaks of is untouched.
pub open spec fn same_scrollback(a: GridModel, b: GridModel) -> bool {
    a.history == b.history && a.saved_main == b.saved_main && a.scrollback_limit == b.scrollback_limit
}

proof fn lemma_iter_scroll_up_limit(g: GridModel, n: nat)
    requires
        scrollback_within_limit(g),
    ensures
        scrollback_within_limit(iter_scroll_up(g, n)),
        iter_scroll_up(g, n).scrollback_limit == g.scrollback_limit,
        iter_scroll_up(g, n).saved_main == g.saved_main,
    decreases n,
{
    if n > 0 {
        lemma_iter_scroll_up_limit(g, (n - 1) as nat);
        let g1 = iter_scroll_up(g, (n - 1) as nat);
        grid::lemma_scroll_up_bounded(g1, g1.scroll_top as int, g1.scroll_bottom as int);
    }
}

proof fn lemma_iter_scroll_down_same(g: GridModel, n: nat)
    ensures
        same_scrollback(iter_scroll_down(g, n), g),
    decreases n,
{
    if n > 0 {
        lemma_iter_scroll_down_same(g, (n - 1) as nat);
    }
}

proof fn lemma_iter_insert_same(g: GridModel, row: int, bottom: int, n: nat)
    ensures
        same_scrollback(iter_insert_lines(g, row, bottom, n), g),
    decreases n,
{
    if n > 0 {
        lemma_iter_insert_same(g, row, bottom, (n - 1) as nat);
    }
}

proof fn lemma_iter_delete_same(g: GridModel, row: int, bottom: int, n: nat)
    ensures
        same_scrollback(iter_delete_lines(g, row, bottom, n), g),
    decreases n,
{
    if n > 0 {
        lemma_iter_delete_same(g, row, bottom, (n - 1) as nat);
    }
}

proof fn lemma_set_modes_limit(t: TermModel, params: Seq<i32>, set: bool)
    requires
        scrollback_within_limit(t.grid),
    ensures
        scrollback_within_limit(spec_set_modes(t, params, set).grid),
        spec_set_modes(t, params, set).grid.scrollback_limit == t.grid.scrollback_limit,
    decreases params.len(),
{
    if params.len() > 0 {
        let t1 = spec_set_mode_one(t, params[0], set);
        assert(scrollback_within_limit(t1.grid) && t1.grid.scrollback_limit == t.grid.scrollback_limit);
        lemma_set_modes_limit(t1, params.drop_first(), set);
    }
}

#[verifier::rlimit(60)]
proof fn lemma_csi_limit(t: TermModel, params: Seq<i32>, private: Option<u8>, fb: u8)
    requires
        scrollback_within_limit(t.grid),
    ensures
        scrollback_within_limit(spec_csi(t, params, private, fb).grid),
{
    let g = t.grid;
    let n = handler::spec_param(params, 0, 1) as int;
    if fb == 0x4C {
        lemma_iter_insert_same(g, g.cursor.row as int, g.scroll_bottom as int, n as nat);
    } else if fb == 0x4D {
        lemma_iter_delete_same(g, g.cursor.row as int, g.scroll_bottom as int, n as nat);
    } else if fb == 0x53 {
        lemma_iter_scroll_up_limit(g, n as nat);
    } else if fb == 0x54 {
        lemma_iter_scroll_down_same(g, n as nat);
    } else if fb == 0x68 || fb == 0x6C {
        lemma_set_modes_limit(t, params, fb == 0x68);
    }
}

#[verifier::rlimit(60)]
proof fn lemma_handle_limit(t: TermModel, a: SpecAction)
    requires
        scrollback_within_limit(t.grid),
    ensures
        scrollback_within_limit(spec_handle(t, a).grid),
{
    reveal(spec_handle);
    let t0 = handler::with_grid(t, grid::spec_scroll_viewport_to_bottom(t.grid));
    match a {
        SpecAction::CsiDispatch { params, private_marker, final_byte, .. } => {
            lemma_csi_limit(t0, params, private_marker, final_byte);
        },
        SpecAction::Print(ch) => {
            let g = t0.grid;
            grid::lemma_scroll_up_bounded(handler::at(g, g.cursor.row as int, 0), g.scroll_top as int, g.scroll_bottom as int);
            grid::lemma_scroll_up_bounded(g, g.scroll_top as int, g.scroll_bottom as int);
        },
        _ => {
            let g = t0.grid;
            grid::lemma_scroll_up_bounded(g, g.scroll_top as int, g.scroll_bottom as int);
            grid::lemma_scroll_up_bounded(handler::at(g, g.cursor.row as int, 0), g.scroll_top as int, g.scroll_bottom as int);
        },
    }
}

proof fn lemma_handle_all_limit(t: TermModel, acts: Seq<SpecAction>)
    requires
        scrollback_within_limit(t.grid),
    ensures
        scrollback_within_limit(spec_handle_all(t, acts).grid),
    decreases acts.len(),
{
    if acts.len() > 0 {
        lemma_handle_all_limit(t, acts.drop_last());
        lemma_handle_limit(spec_handle_all(t, acts.drop_last()), acts.last());
    }
}

/// The scrollback never holds more than its limit: processing output
/// keeps it (and the one saved behind the alternate screen) within
/// `scrollback_limit` lines.
pub proof fn lemma_process_scrollback_limit(t: TermModel, data: Seq<u8>)
    requires
        scrollback_within_limit(t.grid),
    ensures
        scrollback_within_limit(spec_process(t, data).grid),
{
    let (p, acts) = run(t.parser, data);
    lemma_handle_all_limit(TermModel { parser: p, ..t }, acts);
}

} // verus!
