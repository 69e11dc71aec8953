//! What a session log keeps of the program output: everything, or the
//! printable text with escape sequences and control characters removed.

use vstd::prelude::*;

verus! {

/// Where the escape-stripping filter stands between two bytes.
#[derive(Clone, Copy, Debug, PartialEq, Eq, Structural)]
pub enum LogState {
    /// In plain text.
    Text,
    /// Just after ESC, or among an escape sequence's intermediate bytes.
    Escape,
    /// In a control sequence (`ESC [`), up to its final byte.
    Csi,
    /// In a string (`ESC ]` OSC, `ESC P` DCS, `ESC X`, `ESC ^`, `ESC _`),
    /// up to BEL or the string terminator `ESC \`.
    Str,
}

/// A byte kept in plain text: line feed, printable ASCII, or a non-ASCII
/// byte. CR, BEL, BS and the other control bytes are dropped.
pub open spec fn is_logged_byte(b: u8) -> bool {
    b == 0x0A || (0x20 <= b <= 0x7E) || b >= 0x80
}

/// One byte of output through the escape-stripping filter: the next state
/// and the bytes to write. ESC starts an escape sequence. After ESC, `[`
/// opens a control sequence, which a final byte (0x40..=0x7E) ends;
/// `]`, `P`, `X`, `^` and `_` open a string, which BEL or ESC (the start
/// of the terminator `ESC \`) ends; intermediate bytes (0x20..=0x2F)
/// continue the sequence, and any other byte ends it. Only text outside
/// escape sequences is written.
pub open spec fn strip_step(st: LogState, b: u8) -> (LogState, Seq<u8>) {
    match st {
        LogState::Text => if b == 0x1B {
            (LogState::Escape, Seq::empty())
        } else if is_logged_byte(b) {
            (LogState::Text, seq![b])
        } else {
            (LogState::Text, Seq::empty())
        },
        LogState::Escape => if b == 0x1B {
            (LogState::Escape, Seq::empty())
        } else if b == 0x5B {
            (LogState::Csi, Seq::empty())
        } else if b == 0x5D || b == 0x50 || b == 0x58 || b == 0x5E || b == 0x5F {
            (LogState::Str, Seq::empty())
        } else if 0x20 <= b <= 0x2F {
            (LogState::Escape, Seq::empty())
        } else {
            (LogState::Text, Seq::empty())
        },
        LogState::Csi => if b == 0x1B {
            (LogState::Escape, Seq::empty())
        } else if 0x40 <= b <= 0x7E {
            (LogState::Text, Seq::empty())
        } else {
            (LogState::Csi, Seq::empty())
        },
        LogState::Str => if b == 0x1B {
            (LogState::Escape, Seq::empty())
        } else if b == 0x07 {
            (LogState::Text, Seq::empty())
        } else {
            (LogState::Str, Seq::empty())
        },
    }
}

fn log_step(st: LogState, b: u8) -> (r: (LogState, Option<u8>))
    ensures
        r.0 == strip_step(st, b).0,
        strip_step(st, b).1 == (match r.1 {
            Some(x) => seq![x],
            None => Seq::empty(),
        }),
{
    match st {
        LogState::Text => if b == 0x1B {
            (LogState::Escape, None)
        } else if b == 0x0A || (0x20 <= b && b <= 0x7E) || b >= 0x80 {
            (LogState::Text, Some(b))
        } else {
            (LogState::Text, None)
        },
        LogState::Escape => if b == 0x1B {
            (LogState::Escape, None)
        } else if b == 0x5B {
            (LogState::Csi, None)
        } else if b == 0x5D || b == 0x50 || b == 0x58 || b == 0x5E || b == 0x5F {
            (LogState::Str, None)
        } else if 0x20 <= b && b <= 0x2F {
            (LogState::Escape, None)
        } else {
            (LogState::Text, None)
        },
        LogState::Csi => if b == 0x1B {
            (LogState::Escape, None)
        } else if 0x40 <= b && b <= 0x7E {
            (LogState::Text, None)
        } else {
            (LogState::Csi, None)
        },
        LogState::Str => if b == 0x1B {
            (LogState::Escape, None)
        } else if b == 0x07 {
            (LogState::Text, None)
        } else {
            (LogState::Str, None)
        },
    }
}

/// The filter run over `data` from state `st`: the final state and the
/// bytes written.
pub open spec fn strip_run(st: LogState, data: Seq<u8>) -> (LogState, Seq<u8>)
    decreases data.len(),
{
    if data.len() == 0 {
        (st, Seq::empty())
    } else {
        let (st1, out) = strip_run(st, data.drop_last());
        let (st2, more) = strip_step(st1, data.last());
        (st2, out + more)
    }
}

/// The state a session log carries between two chunks of output.
pub struct LogFilter {
    pub strip_escapes: bool,
    pub state: LogState,
}

impl LogFilter {
    pub fn new(strip_escapes: bool) -> (f: Self)
        ensures
            f.strip_escapes == strip_escapes,
            f.state == LogState::Text,
    {
        LogFilter { strip_escapes, state: LogState::Text }
    }

    /// The bytes to append to the log for a chunk of output: the chunk
    /// itself, or with escape sequences stripped when that is asked for.
    pub fn filter(&mut self, data: &[u8]) -> (out: Vec<u8>)
        ensures
            final(self).strip_escapes == old(self).strip_escapes,
            old(self).strip_escapes ==> (final(self).state, out@) == strip_run(old(self).state, data@),
            !old(self).strip_escapes ==> out@ == data@ && final(self).state == old(self).state,
    {
        let mut out: Vec<u8> = Vec::new();
        let mut i: usize = 0;
        if !self.strip_escapes {
            while i < data.len()
                invariant
                    i <= data@.len(),
                    out@ == data@.take(i as int),
                decreases data@.len() - i,
            {
                out.push(data[i]);
                i = i + 1;
                assert(out@ =~= data@.take(i as int));
            }
            assert(data@.take(data@.len() as int) =~= data@);
            return out;
        }
        assert(data@.take(0) =~= Seq::<u8>::empty());
        while i < data.len()
            invariant
                i <= data@.len(),
                self.strip_escapes == old(self).strip_escapes,
                (self.state, out@) == strip_run(old(self).state, data@.take(i as int)),
            decreases data@.len() - i,
        {
            let b = data[i];
            assert(data@.take(i + 1).drop_last() =~= data@.take(i as int));
            assert(data@.take(i + 1).last() == b);
            let ghost before = out@;
            let (st, kept) = log_step(self.state, b);
            self.state = st;
            match kept {
                Some(x) => {
                    out.push(x);
                },
                None => {},
            }
            assert(out@ =~= before + strip_step(strip_run(old(self).state, data@.take(i as int)).0, b).1);
            i = i + 1;
        }
        assert(data@.take(data@.len() as int) =~= data@);
        out
    }
}

/// Filtering two chunks one after the other, carrying the state, writes
/// what filtering them as one chunk writes.
pub proof fn lemma_strip_run_concat(st: LogState, a: Seq<u8>, b: Seq<u8>)
    ensures
        strip_run(st, a + b) == ({
            let (s1, o1) = strip_run(st, a);
            let (s2, o2) = strip_run(s1, b);
            (s2, o1 + o2)
        }),
    decreases b.len(),
{
    if b.len() == 0 {
        assert(a + b =~= a);
        assert(strip_run(st, a).1 + Seq::<u8>::empty() =~= strip_run(st, a).1);
    } else {
        lemma_strip_run_concat(st, a, b.drop_last());
        assert((a + b).drop_last() =~= a + b.drop_last());
        assert((a + b).last() == b.last());
        let (s1, o1) = strip_run(st, a);
        let (s2, o2) = strip_run(s1, b.drop_last());
        let (s3, o3) = strip_step(s2, b.last());
        assert(o1 + o2 + o3 =~= o1 + (o2 + o3));
    }
}

/// Output logged with escapes stripped holds only line feeds, printable
/// ASCII and non-ASCII bytes (so no ESC and no other control byte).
pub proof fn lemma_strip_run_printable(st: LogState, data: Seq<u8>)
    ensures
        forall|i: int| 0 <= i < strip_run(st, data).1.len() ==> is_logged_byte(#[trigger] strip_run(st, data).1[i]),
    decreases data.len(),
{
    if data.len() > 0 {
        lemma_strip_run_printable(st, data.drop_last());
        let (s1, o1) = strip_run(st, data.drop_last());
        let (s2, more) = strip_step(s1, data.last());
        let out = strip_run(st, data).1;
        assert(out == o1 + more);
        assert forall|i: int| 0 <= i < out.len() implies is_logged_byte(#[trigger] out[i]) by {
            if i < o1.len() {
                assert(out[i] == o1[i]);
            } else {
                assert(out[i] == more[i - o1.len()]);
            }
        }
    }
}

/// The bytes of `t` that plain text keeps.
pub open spec fn logged_text(t: Seq<u8>) -> Seq<u8> {
    t.filter(|b: u8| is_logged_byte(b))
}

proof fn lemma_strip_run_push(st: LogState, d: Seq<u8>, b: u8)
    ensures
        strip_run(st, d.push(b)) == ({
            let (s1, o1) = strip_run(st, d);
            let (s2, o2) = strip_step(s1, b);
            (s2, o1 + o2)
        }),
{
    assert(d.push(b).drop_last() =~= d);
    assert(d.push(b).last() == b);
}

/// Plain text (no ESC) is logged with exactly its kept bytes: line
/// feeds, printable ASCII and non-ASCII bytes; CR, BEL, BS and the other
/// control bytes are dropped.
pub proof fn lemma_strip_text(t: Seq<u8>)
    requires
        forall|i: int| 0 <= i < t.len() ==> t[i] != 0x1B,
    ensures
        strip_run(LogState::Text, t) == (LogState::Text, logged_text(t)),
    decreases t.len(),
{
    if t.len() > 0 {
        let d = t.drop_last();
        assert forall|i: int| 0 <= i < d.len() implies d[i] != 0x1B by {
            assert(d[i] == t[i]);
        }
        lemma_strip_text(d);
        let x = t.last();
        assert(x == t[t.len() - 1]);
        assert(d.push(x) =~= t);
        lemma_strip_run_push(LogState::Text, d, x);
        let sub = logged_text(d);
        reveal(Seq::filter);
        if is_logged_byte(x) {
            assert(logged_text(t) == sub.push(x));
            assert(sub + seq![x] =~= sub.push(x));
        } else {
            assert(logged_text(t) == sub);
            assert(sub + Seq::<u8>::empty() =~= sub);
        }
    }
}

/// Inside a control sequence, parameter and intermediate bytes
/// (0x20..=0x3F) are consumed without output.
proof fn lemma_strip_csi_body(p: Seq<u8>)
    requires
        forall|i: int| 0 <= i < p.len() ==> 0x20 <= #[trigger] p[i] <= 0x3F,
    ensures
        strip_run(LogState::Csi, p) == (LogState::Csi, Seq::<u8>::empty()),
    decreases p.len(),
{
    if p.len() > 0 {
        let d = p.drop_last();
        assert forall|i: int| 0 <= i < d.len() implies 0x20 <= #[trigger] d[i] <= 0x3F by {
            assert(d[i] == p[i]);
        }
        lemma_strip_csi_body(d);
        assert(p.last() == p[p.len() - 1]);
        assert(Seq::<u8>::empty() + Seq::<u8>::empty() =~= Seq::<u8>::empty());
    }
}

/// Inside a string, every byte but ESC and BEL is consumed without output.
proof fn lemma_strip_str_body(p: Seq<u8>)
    requires
        forall|i: int| 0 <= i < p.len() ==> #[trigger] p[i] != 0x1B && p[i] != 0x07,
    ensures
        strip_run(LogState::Str, p) == (LogState::Str, Seq::<u8>::empty()),
    decreases p.len(),
{
    if p.len() > 0 {
        let d = p.drop_last();
        assert forall|i: int| 0 <= i < d.len() implies #[trigger] d[i] != 0x1B && d[i] != 0x07 by {
            assert(d[i] == p[i]);
        }
        lemma_strip_str_body(d);
        assert(p.last() == p[p.len() - 1]);
        assert(Seq::<u8>::empty() + Seq::<u8>::empty() =~= Seq::<u8>::empty());
    }
}

/// A whole control sequence `ESC [ <params> <final>` writes nothing and
/// leaves the filter in plain text.
pub proof fn lemma_strip_csi(params: Seq<u8>, fin: u8)
    requires
        forall|i: int| 0 <= i < params.len() ==> 0x20 <= #[trigger] params[i] <= 0x3F,
        0x40 <= fin <= 0x7E,
    ensures
        strip_run(LogState::Text, seq![0x1Bu8, 0x5Bu8] + params + seq![fin]) == (LogState::Text, Seq::<u8>::empty()),
{
    let head = seq![0x1Bu8, 0x5Bu8];
    lemma_strip_run_push(LogState::Text, Seq::<u8>::empty(), 0x1Bu8);
    assert(Seq::<u8>::empty().push(0x1Bu8) =~= seq![0x1Bu8]);
    assert(Seq::<u8>::empty() + Seq::<u8>::empty() =~= Seq::<u8>::empty());
    assert(strip_run(LogState::Text, seq![0x1Bu8]) == (LogState::Escape, Seq::<u8>::empty()));
    lemma_strip_run_push(LogState::Text, seq![0x1Bu8], head[1]);
    assert(seq![0x1Bu8].push(head[1]) =~= head);
    assert(strip_run(LogState::Text, head) == (LogState::Csi, Seq::<u8>::empty())) by {
        assert(Seq::<u8>::empty() + Seq::<u8>::empty() =~= Seq::<u8>::empty());
    }
    lemma_strip_csi_body(params);
    lemma_strip_run_concat(LogState::Text, head, params);
    lemma_strip_run_concat(LogState::Text, head + params, seq![fin]);
    lemma_strip_run_push(LogState::Csi, Seq::<u8>::empty(), fin);
    assert(Seq::<u8>::empty().push(fin) =~= seq![fin]);
    assert(Seq::<u8>::empty() + Seq::<u8>::empty() =~= Seq::<u8>::empty());
}

/// A whole OSC string `ESC ] <text> BEL` (a window title, say) writes
/// nothing and leaves the filter in plain text.
pub proof fn lemma_strip_osc(text: Seq<u8>)
    requires
        forall|i: int| 0 <= i < text.len() ==> #[trigger] text[i] != 0x1B && text[i] != 0x07,
    ensures
        strip_run(LogState::Text, seq![0x1Bu8, 0x5Du8] + text + seq![0x07u8]) == (LogState::Text, Seq::<u8>::empty()),
{
    let head = seq![0x1Bu8, 0x5Du8];
    lemma_strip_run_push(LogState::Text, Seq::<u8>::empty(), 0x1Bu8);
    assert(Seq::<u8>::empty().push(0x1Bu8) =~= seq![0x1Bu8]);
    assert(Seq::<u8>::empty() + Seq::<u8>::empty() =~= Seq::<u8>::empty());
    assert(strip_run(LogState::Text, seq![0x1Bu8]) == (LogState::Escape, Seq::<u8>::empty()));
    lemma_strip_run_push(LogState::Text, seq![0x1Bu8], head[1]);
    assert(seq![0x1Bu8].push(head[1]) =~= head);
    assert(strip_run(LogState::Text, head) == (LogState::Str, Seq::<u8>::empty())) by {
        assert(Seq::<u8>::empty() + Seq::<u8>::empty() =~= Seq::<u8>::empty());
    }
    lemma_strip_str_body(text);
    lemma_strip_run_concat(LogState::Text, head, text);
    lemma_strip_run_concat(LogState::Text, head + text, seq![0x07u8]);
    lemma_strip_run_push(LogState::Str, Seq::<u8>::empty(), 0x07u8);
    assert(Seq::<u8>::empty().push(0x07u8) =~= seq![0x07u8]);
    assert(Seq::<u8>::empty() + Seq::<u8>::empty() =~= Seq::<u8>::empty());
}

} // verus!
