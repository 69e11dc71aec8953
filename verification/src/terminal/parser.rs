use vstd::prelude::*;
use vstd::utf8::{encode_scalar, encode_utf8};
use crate::terminal::handler::decimal;

verus! {

/// What the parser hands to the handler for each complete element of the
/// byte stream.
#[derive(Debug, PartialEq)]
pub enum Action {
    Print(char),
    C0Control(u8),
    CsiDispatch {
        params: Vec<i32>,
        private_marker: Option<u8>,
        intermediates: Vec<u8>,
        final_byte: u8,
    },
    EscDispatch {
        intermediates: Vec<u8>,
        final_byte: u8,
    },
    OscDispatch(Vec<u8>),
    DcsDispatch(Vec<u8>),
}

/// An `Action` with its byte vectors taken as sequences.
pub enum SpecAction {
    Print(char),
    C0Control(u8),
    CsiDispatch {
        params: Seq<i32>,
        private_marker: Option<u8>,
        intermediates: Seq<u8>,
        final_byte: u8,
    },
    EscDispatch {
        intermediates: Seq<u8>,
        final_byte: u8,
    },
    OscDispatch(Seq<u8>),
    DcsDispatch(Seq<u8>),
}

impl View for Action {
    type V = SpecAction;

    open spec fn view(&self) -> SpecAction {
        match self {
            Action::Print(c) => SpecAction::Print(*c),
            Action::C0Control(b) => SpecAction::C0Control(*b),
            Action::CsiDispatch { params, private_marker, intermediates, final_byte } =>
                SpecAction::CsiDispatch {
                    params: params@,
                    private_marker: *private_marker,
                    intermediates: intermediates@,
                    final_byte: *final_byte,
                },
            Action::EscDispatch { intermediates, final_byte } => SpecAction::EscDispatch {
                intermediates: intermediates@,
                final_byte: *final_byte,
            },
            Action::OscDispatch(d) => SpecAction::OscDispatch(d@),
            Action::DcsDispatch(d) => SpecAction::DcsDispatch(d@),
        }
    }
}

/// The actions of a vector, as `SpecAction`s.
pub open spec fn actions_view(v: Seq<Action>) -> Seq<SpecAction> {
    v.map_values(|a: Action| a@)
}

/// The states of the VT parser.
#[derive(Clone, Copy, PartialEq, Eq, Structural, Debug)]
pub enum State {
    Ground,
    Utf8,
    Escape,
    EscapeIntermediate,
    CsiEntry,
    CsiParam,
    CsiIntermediate,
    CsiIgnore,
    OscString,
    OscEnd,
    DcsString,
    DcsEnd,
}

/// Largest OSC payload kept, in bytes.
pub const OSC_LIMIT: usize = 4096;

/// Largest DCS payload kept, in bytes.
pub const DCS_LIMIT: usize = 1048576;

/// The parser's state as plain values.
pub struct ParserModel {
    pub state: State,
    pub params: Seq<i32>,
    pub current_param: i32,
    pub has_param: bool,
    pub private_marker: Option<u8>,
    pub intermediates: Seq<u8>,
    pub osc_data: Seq<u8>,
    pub dcs_data: Seq<u8>,
    pub utf8_buf: u32,
    pub utf8_remaining: u8,
}

/// A byte-at-a-time VT500-style escape sequence parser with UTF-8 decoding.
pub struct Parser {
    state: State,
    params: Vec<i32>,
    current_param: i32,
    has_param: bool,
    private_marker: Option<u8>,
    intermediates: Vec<u8>,
    osc_data: Vec<u8>,
    dcs_data: Vec<u8>,
    utf8_buf: u32,
    utf8_remaining: u8,
}

impl View for Parser {
    type V = ParserModel;

    closed spec fn view(&self) -> ParserModel {
        ParserModel {
            state: self.state,
            params: self.params@,
            current_param: self.current_param,
            has_param: self.has_param,
            private_marker: self.private_marker,
            intermediates: self.intermediates@,
            osc_data: self.osc_data@,
            dcs_data: self.dcs_data@,
            utf8_buf: self.utf8_buf,
            utf8_remaining: self.utf8_remaining,
        }
    }
}

/// The parser in its initial state.
pub open spec fn initial_model() -> ParserModel {
    ParserModel {
        state: State::Ground,
        params: Seq::empty(),
        current_param: 0,
        has_param: false,
        private_marker: None,
        intermediates: Seq::empty(),
        osc_data: Seq::empty(),
        dcs_data: Seq::empty(),
        utf8_buf: 0,
        utf8_remaining: 0,
    }
}

/// The invariant the parser keeps: its buffers and private marker are
/// within their limits, no parameter is negative and a pending UTF-8
/// sequence still expects one to three bytes.
pub open spec fn model_wf(m: ParserModel) -> bool {
    &&& model_bounded(m)
    &&& m.current_param >= 0
    &&& forall|i: int| 0 <= i < m.params.len() ==> #[trigger] m.params[i] >= 0
    &&& (m.state == State::Utf8 ==> 1 <= m.utf8_remaining <= 3)
}

/// `m` with the sequence fields reset.
pub open spec fn spec_clear(m: ParserModel) -> ParserModel {
    ParserModel {
        params: Seq::empty(),
        current_param: 0,
        has_param: false,
        private_marker: None,
        intermediates: Seq::empty(),
        ..m
    }
}

/// `m` with the pending parameter appended, if one was started.
pub open spec fn spec_finish_param(m: ParserModel) -> ParserModel {
    if m.has_param || m.params.len() > 0 {
        ParserModel {
            params: m.params.push(m.current_param),
            current_param: 0,
            has_param: false,
            ..m
        }
    } else {
        m
    }
}

/// `m` in state `s`.
pub open spec fn with_state(m: ParserModel, s: State) -> ParserModel {
    ParserModel { state: s, ..m }
}

/// The CSI action for final byte `b` with the collected fields of `m`.
pub open spec fn csi_action(m: ParserModel, b: u8) -> SpecAction {
    SpecAction::CsiDispatch {
        params: m.params,
        private_marker: m.private_marker,
        intermediates: m.intermediates,
        final_byte: b,
    }
}

/// The ESC action for final byte `b`.
pub open spec fn esc_action(m: ParserModel, b: u8) -> SpecAction {
    SpecAction::EscDispatch { intermediates: m.intermediates, final_byte: b }
}

/// A pending parameter extended by decimal digit `d`, capped at `i32::MAX`.
pub open spec fn push_digit(p: i32, d: u8) -> i32 {
    if p * 10 + (d - 48) > i32::MAX {
        i32::MAX
    } else {
        (p * 10 + (d - 48)) as i32
    }
}

pub open spec fn is_c0(b: u8) -> bool {
    b <= 0x1F && b != 0x1B
}

pub open spec fn step_ground(m: ParserModel, b: u8) -> (ParserModel, Seq<SpecAction>) {
    if b == 0x1B {
        (with_state(spec_clear(m), State::Escape), Seq::empty())
    } else if b <= 0x1F {
        (m, seq![SpecAction::C0Control(b)])
    } else if b <= 0x7E {
        (m, seq![SpecAction::Print(b as char)])
    } else if 0xC2 <= b <= 0xDF {
        (ParserModel { utf8_buf: (b as u32) & 0x1F, utf8_remaining: 1, state: State::Utf8, ..m }, Seq::empty())
    } else if 0xE0 <= b <= 0xEF {
        (ParserModel { utf8_buf: (b as u32) & 0x0F, utf8_remaining: 2, state: State::Utf8, ..m }, Seq::empty())
    } else if 0xF0 <= b <= 0xF4 {
        (ParserModel { utf8_buf: (b as u32) & 0x07, utf8_remaining: 3, state: State::Utf8, ..m }, Seq::empty())
    } else {
        (m, Seq::empty())
    }
}

/// Whether `u` is a Unicode scalar value, i.e. a valid `char`.
pub open spec fn is_scalar_value(u: u32) -> bool {
    u <= 0x10FFFF && !(0xD800 <= u <= 0xDFFF)
}

pub open spec fn step_utf8(m: ParserModel, b: u8) -> (ParserModel, Seq<SpecAction>) {
    if b & 0xC0 == 0x80 {
        let buf = (m.utf8_buf << 6u32) | ((b as u32) & 0x3F);
        let rem = (m.utf8_remaining - 1) as u8;
        if rem == 0 {
            (
                ParserModel { utf8_buf: buf, utf8_remaining: rem, state: State::Ground, ..m },
                if is_scalar_value(buf) { seq![SpecAction::Print(buf as char)] } else { Seq::empty() },
            )
        } else {
            (ParserModel { utf8_buf: buf, utf8_remaining: rem, ..m }, Seq::empty())
        }
    } else {
        step_ground(with_state(m, State::Ground), b)
    }
}

pub open spec fn step_escape(m: ParserModel, b: u8) -> (ParserModel, Seq<SpecAction>) {
    if 0x20 <= b <= 0x2F {
        (ParserModel { intermediates: m.intermediates.push(b), state: State::EscapeIntermediate, ..m }, Seq::empty())
    } else if b == 0x5B {
        (with_state(m, State::CsiEntry), Seq::empty())
    } else if b == 0x5D || b == 0x58 || b == 0x5E || b == 0x5F {
        (ParserModel { osc_data: Seq::empty(), state: State::OscString, ..m }, Seq::empty())
    } else if b == 0x50 {
        (ParserModel { dcs_data: Seq::empty(), state: State::DcsString, ..m }, Seq::empty())
    } else if 0x30 <= b <= 0x7E {
        (with_state(spec_clear(m), State::Ground), seq![esc_action(m, b)])
    } else if b == 0x1B {
        (m, Seq::empty())
    } else if b <= 0x1F {
        (m, seq![SpecAction::C0Control(b)])
    } else {
        (with_state(m, State::Ground), Seq::empty())
    }
}

pub open spec fn step_escape_intermediate(m: ParserModel, b: u8) -> (ParserModel, Seq<SpecAction>) {
    if 0x20 <= b <= 0x2F {
        (ParserModel { intermediates: m.intermediates.push(b), ..m }, Seq::empty())
    } else if 0x30 <= b <= 0x7E {
        (with_state(spec_clear(m), State::Ground), seq![esc_action(m, b)])
    } else if b == 0x1B {
        (with_state(spec_clear(m), State::Escape), Seq::empty())
    } else {
        (with_state(spec_clear(m), State::Ground), Seq::empty())
    }
}

pub open spec fn step_csi_entry(m: ParserModel, b: u8) -> (ParserModel, Seq<SpecAction>) {
    if 0x30 <= b <= 0x39 {
        (ParserModel { current_param: (b - 48) as i32, has_param: true, state: State::CsiParam, ..m }, Seq::empty())
    } else if b == 0x3B {
        (ParserModel { params: m.params.push(0), state: State::CsiParam, ..m }, Seq::empty())
    } else if 0x3C <= b <= 0x3F {
        (ParserModel { private_marker: Some(b), state: State::CsiParam, ..m }, Seq::empty())
    } else if 0x20 <= b <= 0x2F {
        (ParserModel { intermediates: m.intermediates.push(b), state: State::CsiIntermediate, ..m }, Seq::empty())
    } else if 0x40 <= b <= 0x7E {
        (with_state(spec_clear(m), State::Ground), seq![csi_action(m, b)])
    } else if b == 0x1B {
        (with_state(spec_clear(m), State::Escape), Seq::empty())
    } else if b <= 0x1F {
        (m, seq![SpecAction::C0Control(b)])
    } else {
        (with_state(spec_clear(m), State::Ground), Seq::empty())
    }
}

pub open spec fn step_csi_param(m: ParserModel, b: u8) -> (ParserModel, Seq<SpecAction>) {
    if 0x30 <= b <= 0x39 {
        (ParserModel { current_param: push_digit(m.current_param, b), has_param: true, ..m }, Seq::empty())
    } else if b == 0x3B || b == 0x3A {
        (spec_finish_param(m), Seq::empty())
    } else if 0x3C <= b <= 0x3F {
        if m.private_marker.is_none() {
            (ParserModel { private_marker: Some(b), ..m }, Seq::empty())
        } else {
            (m, Seq::empty())
        }
    } else if 0x20 <= b <= 0x2F {
        let f = spec_finish_param(m);
        (ParserModel { intermediates: f.intermediates.push(b), state: State::CsiIntermediate, ..f }, Seq::empty())
    } else if 0x40 <= b <= 0x7E {
        let f = spec_finish_param(m);
        (with_state(spec_clear(f), State::Ground), seq![csi_action(f, b)])
    } else if b == 0x1B {
        (with_state(spec_clear(m), State::Escape), Seq::empty())
    } else if b <= 0x1F {
        (m, seq![SpecAction::C0Control(b)])
    } else {
        (with_state(m, State::CsiIgnore), Seq::empty())
    }
}

pub open spec fn step_csi_intermediate(m: ParserModel, b: u8) -> (ParserModel, Seq<SpecAction>) {
    if 0x20 <= b <= 0x2F {
        (ParserModel { intermediates: m.intermediates.push(b), ..m }, Seq::empty())
    } else if 0x40 <= b <= 0x7E {
        let f = spec_finish_param(m);
        (with_state(spec_clear(f), State::Ground), seq![csi_action(f, b)])
    } else if b == 0x1B {
        (with_state(spec_clear(m), State::Escape), Seq::empty())
    } else {
        (with_state(m, State::CsiIgnore), Seq::empty())
    }
}

pub open spec fn step_csi_ignore(m: ParserModel, b: u8) -> (ParserModel, Seq<SpecAction>) {
    if 0x40 <= b <= 0x7E {
        (with_state(spec_clear(m), State::Ground), Seq::empty())
    } else if b == 0x1B {
        (with_state(spec_clear(m), State::Escape), Seq::empty())
    } else {
        (m, Seq::empty())
    }
}

pub open spec fn step_osc_string(m: ParserModel, b: u8) -> (ParserModel, Seq<SpecAction>) {
    if b == 0x07 {
        (
            ParserModel { osc_data: Seq::empty(), state: State::Ground, ..m },
            seq![SpecAction::OscDispatch(m.osc_data)],
        )
    } else if b == 0x1B {
        (with_state(m, State::OscEnd), Seq::empty())
    } else if m.osc_data.len() < OSC_LIMIT {
        (ParserModel { osc_data: m.osc_data.push(b), ..m }, Seq::empty())
    } else {
        (m, Seq::empty())
    }
}

pub open spec fn step_osc_end(m: ParserModel, b: u8) -> (ParserModel, Seq<SpecAction>) {
    if b == 0x5C {
        (
            ParserModel { osc_data: Seq::empty(), state: State::Ground, ..m },
            seq![SpecAction::OscDispatch(m.osc_data)],
        )
    } else {
        step_escape(ParserModel { osc_data: Seq::empty(), state: State::Escape, ..m }, b)
    }
}

pub open spec fn step_dcs_string(m: ParserModel, b: u8) -> (ParserModel, Seq<SpecAction>) {
    if b == 0x1B {
        (with_state(m, State::DcsEnd), Seq::empty())
    } else if m.dcs_data.len() < DCS_LIMIT {
        (ParserModel { dcs_data: m.dcs_data.push(b), ..m }, Seq::empty())
    } else {
        (m, Seq::empty())
    }
}

pub open spec fn step_dcs_end(m: ParserModel, b: u8) -> (ParserModel, Seq<SpecAction>) {
    if b == 0x5C {
        (
            ParserModel { dcs_data: Seq::empty(), state: State::Ground, ..m },
            seq![SpecAction::DcsDispatch(m.dcs_data)],
        )
    } else {
        step_escape(ParserModel { dcs_data: Seq::empty(), state: State::Escape, ..m }, b)
    }
}

/// One byte through the state machine: the next state and the actions it
/// completes.
pub open spec fn step(m: ParserModel, b: u8) -> (ParserModel, Seq<SpecAction>) {
    match m.state {
        State::Ground => step_ground(m, b),
        State::Utf8 => step_utf8(m, b),
        State::Escape => step_escape(m, b),
        State::EscapeIntermediate => step_escape_intermediate(m, b),
        State::CsiEntry => step_csi_entry(m, b),
        State::CsiParam => step_csi_param(m, b),
        State::CsiIntermediate => step_csi_intermediate(m, b),
        State::CsiIgnore => step_csi_ignore(m, b),
        State::OscString => step_osc_string(m, b),
        State::OscEnd => step_osc_end(m, b),
        State::DcsString => step_dcs_string(m, b),
        State::DcsEnd => step_dcs_end(m, b),
    }
}

/// A byte sequence through the state machine, in order: the final state and
/// all actions, in the order they complete.
pub open spec fn run(m: ParserModel, bytes: Seq<u8>) -> (ParserModel, Seq<SpecAction>)
    decreases bytes.len(),
{
    if bytes.len() == 0 {
        (m, Seq::empty())
    } else {
        let (m1, a1) = step(m, bytes[0]);
        let (m2, a2) = run(m1, bytes.drop_first());
        (m2, a1 + a2)
    }
}

/// Every step keeps the parser invariant.
pub proof fn lemma_step_wf(m: ParserModel, b: u8)
    requires
        model_wf(m),
    ensures
        model_wf(step(m, b).0),
{
    lemma_step_bounded(m, b);
    if m.state == State::CsiParam && 0x30 <= b <= 0x39 {
        assert(push_digit(m.current_param, b) >= 0);
    }
    let f = spec_finish_param(m);
    assert forall|i: int| 0 <= i < f.params.len() implies #[trigger] f.params[i] >= 0 by {
        if i < m.params.len() {
            assert(f.params[i] == m.params[i]);
        }
    }
    assert forall|i: int| 0 <= i < m.params.push(0).len() implies #[trigger] m.params.push(0)[i] >= 0 by {
        if i < m.params.len() {
            assert(m.params.push(0)[i] == m.params[i]);
        }
    }
}

/// Whether the CSI parameters of an action are all non-negative.
pub open spec fn params_nonneg(a: SpecAction) -> bool {
    a matches SpecAction::CsiDispatch { params, .. } ==> forall|i: int| 0 <= i < params.len() ==> #[trigger] params[i] >= 0
}

/// Whether a printed character is plain ASCII.
pub open spec fn prints_ascii(a: SpecAction) -> bool {
    a matches SpecAction::Print(c) ==> 0x20 <= c as u32 <= 0x7E
}

/// From a consistent state, every CSI action has non-negative parameters.
pub proof fn lemma_step_actions(m: ParserModel, b: u8)
    requires
        model_wf(m),
    ensures
        forall|i: int| 0 <= i < step(m, b).1.len() ==> params_nonneg(#[trigger] step(m, b).1[i]),
        b < 0x80 ==> forall|i: int| 0 <= i < step(m, b).1.len() ==> prints_ascii(#[trigger] step(m, b).1[i]),
{
    lemma_step_wf(m, b);
    let f = spec_finish_param(m);
    assert forall|i: int| 0 <= i < f.params.len() implies #[trigger] f.params[i] >= 0 by {
        if i < m.params.len() {
            assert(f.params[i] == m.params[i]);
        }
    }
    if b < 0x80 {
        assert(b & 0xC0 != 0x80) by (bit_vector)
            requires
                b < 0x80;
        assert(((b as char) as u32) == (b as u32));
    }
}

/// Running from a consistent state yields CSI actions with non-negative
/// parameters, and only ASCII characters to print when all bytes are ASCII.
pub proof fn lemma_run_actions(m: ParserModel, bytes: Seq<u8>)
    requires
        model_wf(m),
    ensures
        forall|i: int| 0 <= i < run(m, bytes).1.len() ==> params_nonneg(#[trigger] run(m, bytes).1[i]),
        (forall|j: int| 0 <= j < bytes.len() ==> #[trigger] bytes[j] < 0x80)
            ==> forall|i: int| 0 <= i < run(m, bytes).1.len() ==> prints_ascii(#[trigger] run(m, bytes).1[i]),
    decreases bytes.len(),
{
    if bytes.len() > 0 {
        let (m1, a1) = step(m, bytes[0]);
        lemma_step_wf(m, bytes[0]);
        lemma_step_actions(m, bytes[0]);
        lemma_run_actions(m1, bytes.drop_first());
        let a2 = run(m1, bytes.drop_first()).1;
        assert forall|i: int| 0 <= i < (a1 + a2).len() implies params_nonneg(#[trigger] (a1 + a2)[i]) by {
            if i < a1.len() {
                assert((a1 + a2)[i] == a1[i]);
            } else {
                assert((a1 + a2)[i] == a2[i - a1.len()]);
            }
        }
        if forall|j: int| 0 <= j < bytes.len() ==> #[trigger] bytes[j] < 0x80 {
            assert(bytes[0] < 0x80);
            assert forall|j: int| 0 <= j < bytes.drop_first().len() implies #[trigger] bytes.drop_first()[j] < 0x80 by {
                assert(bytes.drop_first()[j] == bytes[j + 1]);
            }
            assert forall|i: int| 0 <= i < (a1 + a2).len() implies prints_ascii(#[trigger] (a1 + a2)[i]) by {
                if i < a1.len() {
                    assert((a1 + a2)[i] == a1[i]);
                } else {
                    assert((a1 + a2)[i] == a2[i - a1.len()]);
                }
            }
        }
    }
}

/// Running keeps the parser invariant.
pub proof fn lemma_run_wf(m: ParserModel, bytes: Seq<u8>)
    requires
        model_wf(m),
    ensures
        model_wf(run(m, bytes).0),
    decreases bytes.len(),
{
    if bytes.len() > 0 {
        lemma_step_wf(m, bytes[0]);
        lemma_run_wf(step(m, bytes[0]).0, bytes.drop_first());
    }
}

/// The parser's buffers are within their limits and a private marker,
/// when there is one, is one of `<`, `=`, `>`, `?`.
pub open spec fn model_bounded(m: ParserModel) -> bool {
    &&& m.osc_data.len() <= OSC_LIMIT
    &&& m.dcs_data.len() <= DCS_LIMIT
    &&& (m.private_marker matches Some(p) ==> 0x3C <= p <= 0x3F)
}

/// An action within the parser's limits: an OSC payload of at most 4096
/// bytes, a DCS payload of at most 1 MiB, a CSI private marker that is
/// none or one of `<`, `=`, `>`, `?`.
pub open spec fn action_bounded(a: SpecAction) -> bool {
    match a {
        SpecAction::OscDispatch(d) => d.len() <= OSC_LIMIT,
        SpecAction::DcsDispatch(d) => d.len() <= DCS_LIMIT,
        SpecAction::CsiDispatch { private_marker, .. } => private_marker matches Some(p) ==> 0x3C <= p <= 0x3F,
        _ => true,
    }
}

proof fn lemma_step_bounded(m: ParserModel, b: u8)
    requires
        model_bounded(m),
    ensures
        model_bounded(step(m, b).0),
        step(m, b).1.len() <= 1,
        forall|i: int| 0 <= i < step(m, b).1.len() ==> action_bounded(#[trigger] step(m, b).1[i]),
{
}

/// From any parser within its limits (every consistent one, see
/// `model_wf`), feeding bytes yields at most one action per byte, and
/// every action is within the limits.
pub proof fn lemma_run_bounded(m: ParserModel, bytes: Seq<u8>)
    requires
        model_bounded(m),
    ensures
        model_bounded(run(m, bytes).0),
        run(m, bytes).1.len() <= bytes.len(),
        forall|i: int| 0 <= i < run(m, bytes).1.len() ==> action_bounded(#[trigger] run(m, bytes).1[i]),
    decreases bytes.len(),
{
    if bytes.len() > 0 {
        let (m1, a1) = step(m, bytes[0]);
        lemma_step_bounded(m, bytes[0]);
        lemma_run_bounded(m1, bytes.drop_first());
        let a2 = run(m1, bytes.drop_first()).1;
        assert forall|i: int| 0 <= i < (a1 + a2).len() implies action_bounded(#[trigger] (a1 + a2)[i]) by {
            if i < a1.len() {
                assert((a1 + a2)[i] == a1[i]);
            } else {
                assert((a1 + a2)[i] == a2[i - a1.len()]);
            }
        }
    }
}

/// A fresh parser is within its limits.
pub proof fn lemma_initial_bounded()
    ensures
        model_bounded(initial_model()),
{
}

/// A character the parser prints rather than acts on: not a C0 control
/// and not DEL.
pub open spec fn is_printable_char(c: char) -> bool {
    c as u32 >= 0x20 && c as u32 != 0x7F
}

proof fn lemma_utf8_width2(c: u32)
    by (bit_vector)
    requires
        0x80 <= c <= 0x7FF,
    ensures
        ({
            let b1 = 0xC0u8 | ((c >> 6u32) & 0x1Fu32) as u8;
            let b2 = 0x80u8 | (c & 0x3Fu32) as u8;
            &&& 0xC2 <= b1 <= 0xDF
            &&& b2 & 0xC0 == 0x80
            &&& ((((b1 as u32) & 0x1F) << 6u32) | ((b2 as u32) & 0x3F)) == c
        }),
{
}

proof fn lemma_utf8_width3(c: u32)
    by (bit_vector)
    requires
        0x800 <= c <= 0xFFFF,
    ensures
        ({
            let b1 = 0xE0u8 | ((c >> 12u32) & 0x0Fu32) as u8;
            let b2 = 0x80u8 | ((c >> 6u32) & 0x3Fu32) as u8;
            let b3 = 0x80u8 | (c & 0x3Fu32) as u8;
            let buf2 = (((b1 as u32) & 0x0F) << 6u32) | ((b2 as u32) & 0x3F);
            &&& 0xE0 <= b1 <= 0xEF
            &&& b2 & 0xC0 == 0x80
            &&& b3 & 0xC0 == 0x80
            &&& ((buf2 << 6u32) | ((b3 as u32) & 0x3F)) == c
        }),
{
}

proof fn lemma_utf8_width4(c: u32)
    by (bit_vector)
    requires
        0x10000 <= c <= 0x10FFFF,
    ensures
        ({
            let b1 = 0xF0u8 | ((c >> 18u32) & 0x7u32) as u8;
            let b2 = 0x80u8 | ((c >> 12u32) & 0x3Fu32) as u8;
            let b3 = 0x80u8 | ((c >> 6u32) & 0x3Fu32) as u8;
            let b4 = 0x80u8 | (c & 0x3Fu32) as u8;
            let buf2 = (((b1 as u32) & 0x07) << 6u32) | ((b2 as u32) & 0x3F);
            let buf3 = (buf2 << 6u32) | ((b3 as u32) & 0x3F);
            &&& 0xF0 <= b1 <= 0xF4
            &&& b2 & 0xC0 == 0x80
            &&& b3 & 0xC0 == 0x80
            &&& b4 & 0xC0 == 0x80
            &&& ((buf3 << 6u32) | ((b4 as u32) & 0x3F)) == c
        }),
{
}

proof fn lemma_utf8_width1(c: u32)
    by (bit_vector)
    requires
        0x20 <= c <= 0x7E,
    ensures
        (c & 0x7F) as u8 == c,
{
}

/// The UTF-8 encoding of one printable character, fed in the ground
/// state, prints that character and leaves the parser in the ground state.
proof fn lemma_utf8_char(m: ParserModel, c: char)
    requires
        m.state == State::Ground,
        is_printable_char(c),
    ensures
        run(m, encode_scalar(c as u32)).1 == seq![SpecAction::Print(c)],
        run(m, encode_scalar(c as u32)).0.state == State::Ground,
{
    let u = c as u32;
    let e = encode_scalar(u);
    reveal_with_fuel(run, 5);
    if u <= 0x7F {
        lemma_utf8_width1(u);
        assert(e == seq![(u & 0x7F) as u8]);
        assert(e.drop_first() =~= Seq::<u8>::empty());
        assert(((u & 0x7F) as u8) as char == c);
        assert(seq![SpecAction::Print(c)] + Seq::<SpecAction>::empty() =~= seq![SpecAction::Print(c)]);
    } else if u <= 0x7FF {
        lemma_utf8_width2(u);
        assert(e.drop_first() =~= seq![e[1]]);
        assert(e.drop_first().drop_first() =~= Seq::<u8>::empty());
        assert(is_scalar_value(u));
        assert(Seq::<SpecAction>::empty() + (seq![SpecAction::Print(c)] + Seq::<SpecAction>::empty()) =~= seq![SpecAction::Print(c)]);
    } else if u <= 0xFFFF {
        lemma_utf8_width3(u);
        assert(e.drop_first() =~= seq![e[1], e[2]]);
        assert(e.drop_first().drop_first() =~= seq![e[2]]);
        assert(e.drop_first().drop_first().drop_first() =~= Seq::<u8>::empty());
        assert(is_scalar_value(u));
        assert(Seq::<SpecAction>::empty() + (Seq::<SpecAction>::empty() + (seq![SpecAction::Print(c)] + Seq::<SpecAction>::empty())) =~= seq![SpecAction::Print(c)]);
    } else {
        lemma_utf8_width4(u);
        assert(e.drop_first() =~= seq![e[1], e[2], e[3]]);
        assert(e.drop_first().drop_first() =~= seq![e[2], e[3]]);
        assert(e.drop_first().drop_first().drop_first() =~= seq![e[3]]);
        assert(e.drop_first().drop_first().drop_first().drop_first() =~= Seq::<u8>::empty());
        assert(is_scalar_value(u));
        assert(Seq::<SpecAction>::empty() + (Seq::<SpecAction>::empty() + (Seq::<SpecAction>::empty() + (seq![SpecAction::Print(c)] + Seq::<SpecAction>::empty()))) =~= seq![SpecAction::Print(c)]);
    }
}

/// The actions that print `s`, one character each.
pub open spec fn print_actions(s: Seq<char>) -> Seq<SpecAction>
    decreases s.len(),
{
    if s.len() == 0 {
        Seq::empty()
    } else {
        seq![SpecAction::Print(s[0])] + print_actions(s.drop_first())
    }
}

/// UTF-8 decoding undoes encoding: the UTF-8 encoding of printable
/// characters, fed to a parser in the ground state (a fresh one, say),
/// prints exactly those characters, in order, and leaves it in the
/// ground state.
pub proof fn lemma_utf8_round_trip(m: ParserModel, s: Seq<char>)
    requires
        m.state == State::Ground,
        forall|i: int| 0 <= i < s.len() ==> is_printable_char(#[trigger] s[i]),
    ensures
        run(m, encode_utf8(s)).1 == print_actions(s),
        run(m, encode_utf8(s)).0.state == State::Ground,
    decreases s.len(),
{
    if s.len() == 0 {
        assert(encode_utf8(s) =~= Seq::<u8>::empty());
    } else {
        let head = encode_scalar(s[0] as u32);
        let rest = s.drop_first();
        lemma_utf8_char(m, s[0]);
        let m1 = run(m, head).0;
        assert forall|i: int| 0 <= i < rest.len() implies is_printable_char(#[trigger] rest[i]) by {
            assert(rest[i] == s[i + 1]);
        }
        lemma_utf8_round_trip(m1, rest);
        lemma_run_concat(m, head, encode_utf8(rest));
        assert(encode_utf8(s) == head + encode_utf8(rest));
    }
}

/// CSI parameters written out: their decimal digits, separated by `;`.
pub open spec fn param_field_bytes(ps: Seq<i32>) -> Seq<u8>
    decreases ps.len(),
{
    if ps.len() == 0 {
        Seq::empty()
    } else if ps.len() == 1 {
        decimal(ps[0] as nat)
    } else {
        param_field_bytes(ps.drop_last()) + seq![0x3Bu8] + decimal(ps.last() as nat)
    }
}

proof fn lemma_run_push(m: ParserModel, s: Seq<u8>, b: u8)
    ensures
        run(m, s.push(b)) == ({
            let (m1, a1) = run(m, s);
            let (m2, a2) = step(m1, b);
            (m2, a1 + a2)
        }),
{
    lemma_run_concat(m, s, seq![b]);
    assert(s + seq![b] =~= s.push(b));
    reveal_with_fuel(run, 2);
    assert(seq![b].drop_first() =~= Seq::<u8>::empty());
    let a2 = step(run(m, s).0, b).1;
    assert(a2 + Seq::<SpecAction>::empty() =~= a2);
}

/// The digits of `v`, fed inside a control sequence where no digit of the
/// current parameter came yet, make `v` the current parameter.
proof fn lemma_feed_number(q: ParserModel, v: nat)
    requires
        q.state == State::CsiEntry || q.state == State::CsiParam,
        q.current_param == 0,
        v <= i32::MAX,
    ensures
        run(q, decimal(v)) == (
            ParserModel { current_param: v as i32, has_param: true, state: State::CsiParam, ..q },
            Seq::<SpecAction>::empty(),
        ),
    decreases v,
{
    if v < 10 {
        lemma_run_push(q, Seq::empty(), (48 + v) as u8);
        assert(Seq::<u8>::empty().push((48 + v) as u8) =~= decimal(v));
        assert(Seq::<SpecAction>::empty() + Seq::<SpecAction>::empty() =~= Seq::<SpecAction>::empty());
    } else {
        lemma_feed_number(q, v / 10);
        lemma_run_push(q, decimal(v / 10), (48 + v % 10) as u8);
        assert((v / 10) * 10 + v % 10 == v);
        assert(Seq::<SpecAction>::empty() + Seq::<SpecAction>::empty() =~= Seq::<SpecAction>::empty());
    }
}

proof fn lemma_feed_fields(q: ParserModel, ps: Seq<i32>)
    requires
        q.state == State::CsiEntry,
        q.current_param == 0,
        !q.has_param,
        q.params == Seq::<i32>::empty(),
        ps.len() >= 1,
        forall|i: int| 0 <= i < ps.len() ==> ps[i] >= 0,
    ensures
        run(q, param_field_bytes(ps)) == (
            ParserModel {
                params: ps.drop_last(),
                current_param: ps.last(),
                has_param: true,
                state: State::CsiParam,
                ..q
            },
            Seq::<SpecAction>::empty(),
        ),
    decreases ps.len(),
{
    if ps.len() == 1 {
        lemma_feed_number(q, ps[0] as nat);
        assert(ps.drop_last() =~= Seq::<i32>::empty());
    } else {
        let d = ps.drop_last();
        assert forall|i: int| 0 <= i < d.len() implies d[i] >= 0 by {
            assert(d[i] == ps[i]);
        }
        lemma_feed_fields(q, d);
        let head = param_field_bytes(d);
        let q1 = run(q, head).0;
        lemma_run_push(q, head, 0x3Bu8);
        let q2 = step(q1, 0x3Bu8).0;
        assert(d.drop_last().push(d.last()) =~= d);
        assert(q2 == ParserModel { params: d, current_param: 0, has_param: false, state: State::CsiParam, ..q });
        assert(ps.last() >= 0);
        lemma_feed_number(q2, ps.last() as nat);
        lemma_run_concat(q, head.push(0x3Bu8), decimal(ps.last() as nat));
        assert(head.push(0x3Bu8) =~= head + seq![0x3Bu8]);
        assert(Seq::<SpecAction>::empty() + Seq::<SpecAction>::empty() =~= Seq::<SpecAction>::empty());
    }
}

/// Each parameter of a control sequence is the decimal value of its field:
/// `ESC [ p1 ; ... ; pn <final>` with each field the digits of a value up
/// to `i32::MAX`, fed in the ground state, gives exactly one action, the
/// CSI action with those values, no private marker and no intermediates.
pub proof fn lemma_csi_params(m: ParserModel, ps: Seq<i32>, fb: u8)
    requires
        m.state == State::Ground,
        ps.len() >= 1,
        forall|i: int| 0 <= i < ps.len() ==> ps[i] >= 0,
        0x40 <= fb <= 0x7E,
    ensures
        run(m, seq![0x1Bu8, 0x5Bu8] + param_field_bytes(ps) + seq![fb]).1 == seq![
            SpecAction::CsiDispatch { params: ps, private_marker: None, intermediates: Seq::empty(), final_byte: fb },
        ],
{
    let intro = seq![0x1Bu8, 0x5Bu8];
    lemma_run_push(m, Seq::empty(), 0x1Bu8);
    assert(Seq::<u8>::empty().push(0x1Bu8) =~= seq![0x1Bu8]);
    lemma_run_push(m, seq![0x1Bu8], 0x5Bu8);
    assert(seq![0x1Bu8].push(0x5Bu8) =~= intro);
    let q = run(m, intro).0;
    assert(run(m, intro).1 =~= Seq::<SpecAction>::empty());
    assert(q == with_state(spec_clear(m), State::CsiEntry));
    lemma_feed_fields(q, ps);
    let body = param_field_bytes(ps);
    lemma_run_concat(m, intro, body);
    lemma_run_push(m, intro + body, fb);
    assert(ps.drop_last().push(ps.last()) =~= ps);
    assert((intro + body).push(fb) =~= intro + body + seq![fb]);
    assert(Seq::<SpecAction>::empty() + Seq::<SpecAction>::empty() =~= Seq::<SpecAction>::empty());
}

/// The value of a parameter field: its number, 0 when empty.
pub open spec fn field_value(f: Option<i32>) -> i32 {
    match f {
        Some(v) => v,
        None => 0,
    }
}

/// A parameter field written out: its decimal digits, nothing when empty.
pub open spec fn field_bytes(f: Option<i32>) -> Seq<u8> {
    match f {
        Some(v) => decimal(v as nat),
        None => Seq::empty(),
    }
}

/// Parameter fields written out, separated by `;`.
pub open spec fn fields_bytes(fs: Seq<Option<i32>>) -> Seq<u8>
    decreases fs.len(),
{
    if fs.len() == 0 {
        Seq::empty()
    } else if fs.len() == 1 {
        field_bytes(fs[0])
    } else {
        fields_bytes(fs.drop_last()) + seq![0x3Bu8] + field_bytes(fs.last())
    }
}

/// The values of parameter fields, in order.
pub open spec fn field_values(fs: Seq<Option<i32>>) -> Seq<i32>
    decreases fs.len(),
{
    if fs.len() == 0 {
        Seq::empty()
    } else {
        field_values(fs.drop_last()).push(field_value(fs.last()))
    }
}

/// The parameters a control sequence with fields `fs` carries: none when
/// its only field is empty, else the value of every field.
pub open spec fn fields_params(fs: Seq<Option<i32>>) -> Seq<i32> {
    if fs.len() == 1 && fs[0] is None { Seq::empty() } else { field_values(fs) }
}

/// The parser after the fields `fs` of a control sequence it entered in
/// state `q`.
pub open spec fn after_fields(q: ParserModel, fs: Seq<Option<i32>>) -> ParserModel {
    if fs.len() == 1 && fs[0] is None {
        q
    } else {
        ParserModel {
            params: field_values(fs.drop_last()),
            current_param: field_value(fs.last()),
            has_param: fs.last() is Some,
            state: State::CsiParam,
            ..q
        }
    }
}

proof fn lemma_feed_opt_fields(q: ParserModel, fs: Seq<Option<i32>>)
    requires
        q.state == State::CsiEntry,
        q.current_param == 0,
        !q.has_param,
        q.params == Seq::<i32>::empty(),
        fs.len() >= 1,
        forall|i: int| 0 <= i < fs.len() ==> field_value(#[trigger] fs[i]) >= 0,
    ensures
        run(q, fields_bytes(fs)) == (after_fields(q, fs), Seq::<SpecAction>::empty()),
    decreases fs.len(),
{
    reveal_with_fuel(run, 1);
    if fs.len() == 1 {
        match fs[0] {
            Some(v) => {
                lemma_feed_number(q, v as nat);
            },
            None => {},
        }
        assert(fs.drop_last() =~= Seq::<Option<i32>>::empty());
    } else {
        let d = fs.drop_last();
        assert forall|i: int| 0 <= i < d.len() implies field_value(#[trigger] d[i]) >= 0 by {
            assert(d[i] == fs[i]);
        }
        lemma_feed_opt_fields(q, d);
        let head = fields_bytes(d);
        let q1 = after_fields(q, d);
        lemma_run_push(q, head, 0x3Bu8);
        let q2 = step(q1, 0x3Bu8).0;
        assert(field_values(d) == field_values(d.drop_last()).push(field_value(d.last())));
        if d.len() == 1 && d[0] is None {
            assert(field_values(d.drop_last()) =~= Seq::<i32>::empty());
            assert(field_values(d) =~= seq![0i32]);
        }
        assert(q2 == ParserModel { params: field_values(d), current_param: 0, has_param: false, state: State::CsiParam, ..q });
        let last = fs.last();
        assert(field_value(fs[fs.len() - 1]) >= 0);
        lemma_run_concat(q, head.push(0x3Bu8), field_bytes(last));
        assert(head.push(0x3Bu8) =~= head + seq![0x3Bu8]);
        match last {
            Some(v) => {
                lemma_feed_number(q2, v as nat);
            },
            None => {
                assert(field_bytes(last) =~= Seq::<u8>::empty());
                assert(head.push(0x3Bu8) + Seq::<u8>::empty() =~= head.push(0x3Bu8));
            },
        }
        assert(Seq::<SpecAction>::empty() + Seq::<SpecAction>::empty() =~= Seq::<SpecAction>::empty());
    }
}

/// Each parameter of a control sequence is the value of its field, an
/// empty field counting 0: `ESC [ f1 ; ... ; fn <final>`, each field the
/// digits of a value up to `i32::MAX` or nothing, fed in the ground state,
/// gives exactly one action, the CSI action with those values (none at
/// all for `ESC [ <final>`), no private marker and no intermediates. So
/// `ESC [ 5 ; H` carries 5 and 0, and `ESC [ m` carries nothing.
pub proof fn lemma_csi_fields(m: ParserModel, fs: Seq<Option<i32>>, fb: u8)
    requires
        m.state == State::Ground,
        fs.len() >= 1,
        forall|i: int| 0 <= i < fs.len() ==> field_value(#[trigger] fs[i]) >= 0,
        0x40 <= fb <= 0x7E,
    ensures
        run(m, seq![0x1Bu8, 0x5Bu8] + fields_bytes(fs) + seq![fb]).1 == seq![
            SpecAction::CsiDispatch {
                params: fields_params(fs),
                private_marker: None,
                intermediates: Seq::empty(),
                final_byte: fb,
            },
        ],
{
    let intro = seq![0x1Bu8, 0x5Bu8];
    lemma_run_push(m, Seq::empty(), 0x1Bu8);
    assert(Seq::<u8>::empty().push(0x1Bu8) =~= seq![0x1Bu8]);
    lemma_run_push(m, seq![0x1Bu8], 0x5Bu8);
    assert(seq![0x1Bu8].push(0x5Bu8) =~= intro);
    let q = run(m, intro).0;
    assert(run(m, intro).1 =~= Seq::<SpecAction>::empty());
    assert(q == with_state(spec_clear(m), State::CsiEntry));
    lemma_feed_opt_fields(q, fs);
    let body = fields_bytes(fs);
    lemma_run_concat(m, intro, body);
    lemma_run_push(m, intro + body, fb);
    assert(field_values(fs) == field_values(fs.drop_last()).push(field_value(fs.last())));
    if fs.len() >= 2 {
        let d = fs.drop_last();
        assert(field_values(d) == field_values(d.drop_last()).push(field_value(d.last())));
        assert(field_values(d).len() > 0);
    }
    assert((intro + body).push(fb) =~= intro + body + seq![fb]);
    assert(Seq::<SpecAction>::empty() + Seq::<SpecAction>::empty() =~= Seq::<SpecAction>::empty());
}

/// Feeding `a` and then `b` leaves the parser where feeding `a + b` does and
/// yields the same actions: how the byte stream is cut into reads does not
/// matter.
pub proof fn lemma_run_concat(m: ParserModel, a: Seq<u8>, b: Seq<u8>)
    ensures
        run(m, a + b).0 == run(run(m, a).0, b).0,
        run(m, a + b).1 == run(m, a).1 + run(run(m, a).0, b).1,
    decreases a.len(),
{
    if a.len() == 0 {
        assert(a + b =~= b);
    } else {
        assert((a + b).drop_first() =~= a.drop_first() + b);
        assert((a + b)[0] == a[0]);
        let m1 = step(m, a[0]).0;
        lemma_run_concat(m1, a.drop_first(), b);
        let x = step(m, a[0]).1;
        let y = run(m1, a.drop_first()).1;
        let z = run(run(m1, a.drop_first()).0, b).1;
        assert(x + (y + z) =~= (x + y) + z);
    }
}

fn clone_bytes(v: &Vec<u8>) -> (r: Vec<u8>)
    ensures
        r@ == v@,
{
    let r = v.clone();
    assert(r@ =~= v@);
    r
}

fn clone_params(v: &Vec<i32>) -> (r: Vec<i32>)
    ensures
        r@ == v@,
{
    let r = v.clone();
    assert(r@ =~= v@);
    r
}

impl Parser {
    /// A parser in the ground state with nothing pending.
    pub fn new() -> (p: Self)
        ensures
            p@ == initial_model(),
    {
        let p = Parser {
            state: State::Ground,
            params: Vec::new(),
            current_param: 0,
            has_param: false,
            private_marker: None,
            intermediates: Vec::new(),
            osc_data: Vec::new(),
            dcs_data: Vec::new(),
            utf8_buf: 0,
            utf8_remaining: 0,
        };
        assert(p@ =~= initial_model());
        p
    }

    /// The parser's invariant (see `model_wf`).
    pub open spec fn wf(&self) -> bool {
        model_wf(self@)
    }

    /// A parser in the same state as this one.
    pub fn snapshot(&self) -> (p: Parser)
        ensures
            p@ == self@,
    {
        let p = Parser {
            state: self.state,
            params: clone_params(&self.params),
            current_param: self.current_param,
            has_param: self.has_param,
            private_marker: self.private_marker,
            intermediates: clone_bytes(&self.intermediates),
            osc_data: clone_bytes(&self.osc_data),
            dcs_data: clone_bytes(&self.dcs_data),
            utf8_buf: self.utf8_buf,
            utf8_remaining: self.utf8_remaining,
        };
        assert(p@ =~= self@);
        p
    }

    /// Whether the parser is in a consistent state (`model_wf`).
    pub fn is_consistent(&self) -> (b: bool)
        ensures
            b == self.wf(),
    {
        if self.current_param < 0 {
            return false;
        }
        if self.osc_data.len() > OSC_LIMIT || self.dcs_data.len() > DCS_LIMIT {
            return false;
        }
        match self.private_marker {
            Some(p) => {
                if p < 0x3C || p > 0x3F {
                    return false;
                }
            },
            None => {},
        }
        if self.state == State::Utf8 && !(1 <= self.utf8_remaining && self.utf8_remaining <= 3) {
            return false;
        }
        let mut i: usize = 0;
        while i < self.params.len()
            invariant
                i <= self.params@.len(),
                forall|j: int| 0 <= j < i ==> #[trigger] self.params@[j] >= 0,
            decreases self.params@.len() - i,
        {
            if self.params[i] < 0 {
                assert(self@.params[i as int] < 0);
                return false;
            }
            i = i + 1;
        }
        true
    }

    /// Run `data` through the parser and return the actions it completes,
    /// in order: at most one per byte, each within the parser's limits.
    pub fn feed(&mut self, data: &[u8]) -> (actions: Vec<Action>)
        requires
            old(self).wf(),
        ensures
            final(self).wf(),
            final(self)@ == run(old(self)@, data@).0,
            actions_view(actions@) == run(old(self)@, data@).1,
            actions@.len() <= data@.len(),
            forall|i: int| 0 <= i < actions@.len() ==> action_bounded(#[trigger] actions@[i]@),
    {
        let mut actions: Vec<Action> = Vec::new();
        let mut i: usize = 0;
        assert(data@.skip(0) =~= data@);
        assert(actions_view(actions@) =~= Seq::<SpecAction>::empty());
        assert(run(old(self)@, data@).1 =~= actions_view(actions@) + run(old(self)@, data@).1);
        while i < data.len()
            invariant
                i <= data@.len(),
                self.wf(),
                run(old(self)@, data@).0 == run(self@, data@.skip(i as int)).0,
                run(old(self)@, data@).1 == actions_view(actions@) + run(self@, data@.skip(i as int)).1,
            decreases data@.len() - i,
        {
            let ghost before = self@;
            let ghost acts_before = actions_view(actions@);
            assert(data@.skip(i as int).drop_first() =~= data@.skip(i + 1));
            assert(data@.skip(i as int)[0] == data@[i as int]);
            self.advance(data[i], &mut actions);
            proof {
                lemma_step_wf(before, data@[i as int]);
                let tail = run(self@, data@.skip(i + 1)).1;
                assert(acts_before + (step(before, data@[i as int]).1 + tail)
                    =~= (acts_before + step(before, data@[i as int]).1) + tail);
            }
            i = i + 1;
        }
        assert(data@.skip(i as int) =~= Seq::<u8>::empty());
        assert(run(old(self)@, data@).1 =~= actions_view(actions@));
        proof {
            lemma_run_bounded(old(self)@, data@);
            assert(actions_view(actions@).len() == actions@.len());
            assert forall|k: int| 0 <= k < actions@.len() implies action_bounded(#[trigger] actions@[k]@) by {
                assert(actions_view(actions@)[k] == actions@[k]@);
            }
        }
        actions
    }

    fn push_action(actions: &mut Vec<Action>, a: Action)
        ensures
            actions_view(final(actions)@) == actions_view(old(actions)@).push(a@),
    {
        actions.push(a);
        assert(actions_view(actions@) =~= actions_view(old(actions)@).push(a@));
    }

    fn advance(&mut self, byte: u8, actions: &mut Vec<Action>)
        requires
            old(self).wf(),
        ensures
            final(self)@ == step(old(self)@, byte).0,
            actions_view(final(actions)@) == actions_view(old(actions)@) + step(old(self)@, byte).1,
    {
        match self.state {
            State::Ground => self.ground(byte, actions),
            State::Utf8 => self.utf8(byte, actions),
            State::Escape => self.escape(byte, actions),
            State::EscapeIntermediate => self.escape_intermediate(byte, actions),
            State::CsiEntry => self.csi_entry(byte, actions),
            State::CsiParam => self.csi_param(byte, actions),
            State::CsiIntermediate => self.csi_intermediate(byte, actions),
            State::CsiIgnore => self.csi_ignore(byte, actions),
            State::OscString => self.osc_string(byte, actions),
            State::OscEnd => self.osc_end(byte, actions),
            State::DcsString => self.dcs_string(byte, actions),
            State::DcsEnd => self.dcs_end(byte, actions),
        }
    }

    fn clear(&mut self)
        ensures
            final(self)@ == spec_clear(old(self)@),
    {
        self.params.clear();
        self.current_param = 0;
        self.has_param = false;
        self.private_marker = None;
        self.intermediates.clear();
        assert(self@ =~= spec_clear(old(self)@));
    }

    fn finish_param(&mut self)
        ensures
            final(self)@ == spec_finish_param(old(self)@),
    {
        if self.has_param || !self.params.is_empty() {
            self.params.push(self.current_param);
            self.current_param = 0;
            self.has_param = false;
        }
        assert(self@ =~= spec_finish_param(old(self)@));
    }

    fn csi_dispatch_action(&self, final_byte: u8) -> (a: Action)
        ensures
            a@ == csi_action(self@, final_byte),
    {
        Action::CsiDispatch {
            params: clone_params(&self.params),
            private_marker: self.private_marker,
            intermediates: clone_bytes(&self.intermediates),
            final_byte,
        }
    }

    fn esc_dispatch_action(&self, final_byte: u8) -> (a: Action)
        ensures
            a@ == esc_action(self@, final_byte),
    {
        Action::EscDispatch { intermediates: clone_bytes(&self.intermediates), final_byte }
    }

    fn ground(&mut self, byte: u8, actions: &mut Vec<Action>)
        ensures
            final(self)@ == step_ground(old(self)@, byte).0,
            actions_view(final(actions)@) == actions_view(old(actions)@) + step_ground(old(self)@, byte).1,
    {
        let ghost m = self@;
        if byte == 0x1B {
            self.clear();
            self.state = State::Escape;
        } else if byte <= 0x1F {
            Self::push_action(actions, Action::C0Control(byte));
        } else if byte <= 0x7E {
            Self::push_action(actions, Action::Print(byte as char));
        } else if 0xC2 <= byte && byte <= 0xDF {
            self.utf8_buf = (byte as u32) & 0x1F;
            self.utf8_remaining = 1;
            self.state = State::Utf8;
        } else if 0xE0 <= byte && byte <= 0xEF {
            self.utf8_buf = (byte as u32) & 0x0F;
            self.utf8_remaining = 2;
            self.state = State::Utf8;
        } else if 0xF0 <= byte && byte <= 0xF4 {
            self.utf8_buf = (byte as u32) & 0x07;
            self.utf8_remaining = 3;
            self.state = State::Utf8;
        }
        assert(self@ =~= step_ground(m, byte).0);
        assert(actions_view(actions@) =~= actions_view(old(actions)@) + step_ground(m, byte).1);
    }

    fn utf8(&mut self, byte: u8, actions: &mut Vec<Action>)
        requires
            old(self).wf(),
            old(self).state == State::Utf8,
        ensures
            final(self)@ == step_utf8(old(self)@, byte).0,
            actions_view(final(actions)@) == actions_view(old(actions)@) + step_utf8(old(self)@, byte).1,
    {
        let ghost m = self@;
        if byte & 0xC0 == 0x80 {
            self.utf8_buf = (self.utf8_buf << 6u32) | ((byte as u32) & 0x3F);
            self.utf8_remaining = self.utf8_remaining - 1;
            if self.utf8_remaining == 0 {
                if let Some(ch) = char_from_u32(self.utf8_buf) {
                    Self::push_action(actions, Action::Print(ch));
                }
                self.state = State::Ground;
            }
            assert(self@ =~= step_utf8(m, byte).0);
            assert(actions_view(actions@) =~= actions_view(old(actions)@) + step_utf8(m, byte).1);
        } else {
            self.state = State::Ground;
            self.ground(byte, actions);
            assert(self@ =~= step_utf8(m, byte).0);
        }
    }

    fn escape(&mut self, byte: u8, actions: &mut Vec<Action>)
        ensures
            final(self)@ == step_escape(old(self)@, byte).0,
            actions_view(final(actions)@) == actions_view(old(actions)@) + step_escape(old(self)@, byte).1,
    {
        let ghost m = self@;
        if 0x20 <= byte && byte <= 0x2F {
            self.intermediates.push(byte);
            self.state = State::EscapeIntermediate;
        } else if byte == 0x5B {
            self.state = State::CsiEntry;
        } else if byte == 0x5D || byte == 0x58 || byte == 0x5E || byte == 0x5F {
            self.osc_data.clear();
            self.state = State::OscString;
        } else if byte == 0x50 {
            self.dcs_data.clear();
            self.state = State::DcsString;
        } else if 0x30 <= byte && byte <= 0x7E {
            let a = self.esc_dispatch_action(byte);
            Self::push_action(actions, a);
            self.clear();
            self.state = State::Ground;
        } else if byte == 0x1B {
        } else if byte <= 0x1F {
            Self::push_action(actions, Action::C0Control(byte));
        } else {
            self.state = State::Ground;
        }
        assert(self@ =~= step_escape(m, byte).0);
        assert(actions_view(actions@) =~= actions_view(old(actions)@) + step_escape(m, byte).1);
    }

    fn escape_intermediate(&mut self, byte: u8, actions: &mut Vec<Action>)
        ensures
            final(self)@ == step_escape_intermediate(old(self)@, byte).0,
            actions_view(final(actions)@) == actions_view(old(actions)@) + step_escape_intermediate(old(self)@, byte).1,
    {
        let ghost m = self@;
        if 0x20 <= byte && byte <= 0x2F {
            self.intermediates.push(byte);
        } else if 0x30 <= byte && byte <= 0x7E {
            let a = self.esc_dispatch_action(byte);
            Self::push_action(actions, a);
            self.clear();
            self.state = State::Ground;
        } else if byte == 0x1B {
            self.clear();
            self.state = State::Escape;
        } else {
            self.clear();
            self.state = State::Ground;
        }
        assert(self@ =~= step_escape_intermediate(m, byte).0);
        assert(actions_view(actions@) =~= actions_view(old(actions)@) + step_escape_intermediate(m, byte).1);
    }

    fn csi_entry(&mut self, byte: u8, actions: &mut Vec<Action>)
        ensures
            final(self)@ == step_csi_entry(old(self)@, byte).0,
            actions_view(final(actions)@) == actions_view(old(actions)@) + step_csi_entry(old(self)@, byte).1,
    {
        let ghost m = self@;
        if 0x30 <= byte && byte <= 0x39 {
            self.current_param = (byte - 48) as i32;
            self.has_param = true;
            self.state = State::CsiParam;
        } else if byte == 0x3B {
            self.params.push(0);
            self.state = State::CsiParam;
        } else if 0x3C <= byte && byte <= 0x3F {
            self.private_marker = Some(byte);
            self.state = State::CsiParam;
        } else if 0x20 <= byte && byte <= 0x2F {
            self.intermediates.push(byte);
            self.state = State::CsiIntermediate;
        } else if 0x40 <= byte && byte <= 0x7E {
            let a = self.csi_dispatch_action(byte);
            Self::push_action(actions, a);
            self.clear();
            self.state = State::Ground;
        } else if byte == 0x1B {
            self.clear();
            self.state = State::Escape;
        } else if byte <= 0x1F {
            Self::push_action(actions, Action::C0Control(byte));
        } else {
            self.clear();
            self.state = State::Ground;
        }
        assert(self@ =~= step_csi_entry(m, byte).0);
        assert(actions_view(actions@) =~= actions_view(old(actions)@) + step_csi_entry(m, byte).1);
    }

    fn csi_param(&mut self, byte: u8, actions: &mut Vec<Action>)
        requires
            old(self).wf(),
        ensures
            final(self)@ == step_csi_param(old(self)@, byte).0,
            actions_view(final(actions)@) == actions_view(old(actions)@) + step_csi_param(old(self)@, byte).1,
    {
        let ghost m = self@;
        if 0x30 <= byte && byte <= 0x39 {
            let d = (byte - 48) as i32;
            if self.current_param > (i32::MAX - d) / 10 {
                self.current_param = i32::MAX;
            } else {
                self.current_param = self.current_param * 10 + d;
            }
            self.has_param = true;
        } else if byte == 0x3B || byte == 0x3A {
            self.finish_param();
        } else if 0x3C <= byte && byte <= 0x3F {
            if self.private_marker.is_none() {
                self.private_marker = Some(byte);
            }
        } else if 0x20 <= byte && byte <= 0x2F {
            self.finish_param();
            self.intermediates.push(byte);
            self.state = State::CsiIntermediate;
        } else if 0x40 <= byte && byte <= 0x7E {
            self.finish_param();
            let a = self.csi_dispatch_action(byte);
            Self::push_action(actions, a);
            self.clear();
            self.state = State::Ground;
        } else if byte == 0x1B {
            self.clear();
            self.state = State::Escape;
        } else if byte <= 0x1F {
            Self::push_action(actions, Action::C0Control(byte));
        } else {
            self.state = State::CsiIgnore;
        }
        assert(self@ =~= step_csi_param(m, byte).0);
        assert(actions_view(actions@) =~= actions_view(old(actions)@) + step_csi_param(m, byte).1);
    }

    fn csi_intermediate(&mut self, byte: u8, actions: &mut Vec<Action>)
        ensures
            final(self)@ == step_csi_intermediate(old(self)@, byte).0,
            actions_view(final(actions)@) == actions_view(old(actions)@) + step_csi_intermediate(old(self)@, byte).1,
    {
        let ghost m = self@;
        if 0x20 <= byte && byte <= 0x2F {
            self.intermediates.push(byte);
        } else if 0x40 <= byte && byte <= 0x7E {
            self.finish_param();
            let a = self.csi_dispatch_action(byte);
            Self::push_action(actions, a);
            self.clear();
            self.state = State::Ground;
        } else if byte == 0x1B {
            self.clear();
            self.state = State::Escape;
        } else {
            self.state = State::CsiIgnore;
        }
        assert(self@ =~= step_csi_intermediate(m, byte).0);
        assert(actions_view(actions@) =~= actions_view(old(actions)@) + step_csi_intermediate(m, byte).1);
    }

    fn csi_ignore(&mut self, byte: u8, actions: &mut Vec<Action>)
        ensures
            final(self)@ == step_csi_ignore(old(self)@, byte).0,
            actions_view(final(actions)@) == actions_view(old(actions)@) + step_csi_ignore(old(self)@, byte).1,
    {
        let ghost m = self@;
        if 0x40 <= byte && byte <= 0x7E {
            self.clear();
            self.state = State::Ground;
        } else if byte == 0x1B {
            self.clear();
            self.state = State::Escape;
        }
        assert(self@ =~= step_csi_ignore(m, byte).0);
        assert(actions_view(actions@) =~= actions_view(old(actions)@) + step_csi_ignore(m, byte).1);
    }

    fn osc_string(&mut self, byte: u8, actions: &mut Vec<Action>)
        ensures
            final(self)@ == step_osc_string(old(self)@, byte).0,
            actions_view(final(actions)@) == actions_view(old(actions)@) + step_osc_string(old(self)@, byte).1,
    {
        let ghost m = self@;
        if byte == 0x07 {
            let data = clone_bytes(&self.osc_data);
            Self::push_action(actions, Action::OscDispatch(data));
            self.osc_data.clear();
            self.state = State::Ground;
        } else if byte == 0x1B {
            self.state = State::OscEnd;
        } else if self.osc_data.len() < OSC_LIMIT {
            self.osc_data.push(byte);
        }
        assert(self@ =~= step_osc_string(m, byte).0);
        assert(actions_view(actions@) =~= actions_view(old(actions)@) + step_osc_string(m, byte).1);
    }

    fn osc_end(&mut self, byte: u8, actions: &mut Vec<Action>)
        ensures
            final(self)@ == step_osc_end(old(self)@, byte).0,
            actions_view(final(actions)@) == actions_view(old(actions)@) + step_osc_end(old(self)@, byte).1,
    {
        let ghost m = self@;
        if byte == 0x5C {
            let data = clone_bytes(&self.osc_data);
            Self::push_action(actions, Action::OscDispatch(data));
            self.osc_data.clear();
            self.state = State::Ground;
            assert(self@ =~= step_osc_end(m, byte).0);
            assert(actions_view(actions@) =~= actions_view(old(actions)@) + step_osc_end(m, byte).1);
        } else {
            self.osc_data.clear();
            self.state = State::Escape;
            assert(self@ =~= (ParserModel { osc_data: Seq::empty(), state: State::Escape, ..m }));
            self.escape(byte, actions);
        }
    }

    fn dcs_string(&mut self, byte: u8, actions: &mut Vec<Action>)
        ensures
            final(self)@ == step_dcs_string(old(self)@, byte).0,
            actions_view(final(actions)@) == actions_view(old(actions)@) + step_dcs_string(old(self)@, byte).1,
    {
        let ghost m = self@;
        if byte == 0x1B {
            self.state = State::DcsEnd;
        } else if self.dcs_data.len() < DCS_LIMIT {
            self.dcs_data.push(byte);
        }
        assert(self@ =~= step_dcs_string(m, byte).0);
        assert(actions_view(actions@) =~= actions_view(old(actions)@) + step_dcs_string(m, byte).1);
    }

    fn dcs_end(&mut self, byte: u8, actions: &mut Vec<Action>)
        ensures
            final(self)@ == step_dcs_end(old(self)@, byte).0,
            actions_view(final(actions)@) == actions_view(old(actions)@) + step_dcs_end(old(self)@, byte).1,
    {
        let ghost m = self@;
        if byte == 0x5C {
            let data = clone_bytes(&self.dcs_data);
            Self::push_action(actions, Action::DcsDispatch(data));
            self.dcs_data.clear();
            self.state = State::Ground;
            assert(self@ =~= step_dcs_end(m, byte).0);
            assert(actions_view(actions@) =~= actions_view(old(actions)@) + step_dcs_end(m, byte).1);
        } else {
            self.dcs_data.clear();
            self.state = State::Escape;
            assert(self@ =~= (ParserModel { dcs_data: Seq::empty(), state: State::Escape, ..m }));
            self.escape(byte, actions);
        }
    }
}

/// `char::from_u32` from std: `Some` of the character with that code
/// point exactly when `u` is a Unicode scalar value, `None` otherwise.
#[verifier::external_body]
pub(crate) fn char_from_u32(u: u32) -> (c: Option<char>)
    ensures
        c.is_some() <==> is_scalar_value(u),
        c matches Some(ch) ==> ch == (u as char) && ch as u32 == u,
{
    char::from_u32(u)
}

} // verus!
