//! OSC 52 clipboard requests: `52;c;<base64 text>` sets the clipboard,
//! `52;c;?` asks for it.

use vstd::prelude::*;
use vstd::string::StringSliceAdditionalSpecFns;
use vstd::utf8::{encode_utf8, decode_utf8, valid_utf8};
use crate::image::{base64_decoded, base64_encoded, is_b64_byte, b64_len_fits, b64_decode, b64_encode};
use crate::text::{chars_of, copy_range, trim_chars, string_from_chars, string_from_utf8, trim, trim_start, trim_end, find_from, find_char, is_ws};

verus! {

/// What an OSC 52 request asks for.
pub enum Osc52Action {
    SetClipboard(String),
    QueryClipboard,
}

/// An OSC 52 request with its text as characters.
pub enum Osc52Model {
    SetClipboard(Seq<char>),
    QueryClipboard,
}

impl View for Osc52Action {
    type V = Osc52Model;

    open spec fn view(&self) -> Osc52Model {
        match self {
            Osc52Action::SetClipboard(s) => Osc52Model::SetClipboard(s@),
            Osc52Action::QueryClipboard => Osc52Model::QueryClipboard,
        }
    }
}

pub open spec fn opt_action(r: Option<Osc52Action>) -> Option<Osc52Model> {
    match r {
        Some(a) => Some(a@),
        None => None,
    }
}

pub open spec fn prefix_52() -> Seq<char> {
    seq!['5', '2', ';']
}

/// The request an OSC payload makes: it must start `52;`, then a
/// selection and `;`; `?` queries, anything else is base64 (trimmed) of
/// UTF-8 text; `None` when any of that fails.
pub open spec fn spec_parse(p: Seq<char>) -> Option<Osc52Model> {
    if p.len() < 3 || p.take(3) != prefix_52() {
        None
    } else {
        let rest = p.skip(3);
        let k = find_from(rest, ';', 0);
        if k >= rest.len() {
            None
        } else {
            let data = rest.skip(k + 1);
            if data == seq!['?'] {
                Some(Osc52Model::QueryClipboard)
            } else {
                match base64_decoded(encode_utf8(trim(data))) {
                    None => None,
                    Some(b) => if valid_utf8(b) { Some(Osc52Model::SetClipboard(decode_utf8(b))) } else { None },
                }
            }
        }
    }
}

/// Parses the payload of an OSC 52 sequence.
pub fn parse(payload: &str) -> (r: Option<Osc52Action>)
    ensures
        opt_action(r) == spec_parse(payload@),
{
    let p = chars_of(payload);
    if p.len() < 3 || !(p[0] == '5' && p[1] == '2' && p[2] == ';') {
        proof {
            if p@.len() >= 3 && p@.take(3) == prefix_52() {
                assert(p@.take(3)[0] == '5' && p@.take(3)[1] == '2' && p@.take(3)[2] == ';');
            }
        }
        return None;
    }
    assert(p@.take(3) =~= prefix_52());
    let rest = copy_range(p.as_slice(), 3, p.len());
    assert(rest@ =~= p@.skip(3));
    let k = find_char(rest.as_slice(), ';');
    if k >= rest.len() {
        return None;
    }
    let data = copy_range(rest.as_slice(), k + 1, rest.len());
    assert(data@ =~= rest@.skip(k + 1));
    if data.len() == 1 && data[0] == '?' {
        assert(data@ =~= seq!['?']);
        return Some(Osc52Action::QueryClipboard);
    }
    assert(data@ != seq!['?']);
    let t = trim_chars(data.as_slice());
    let s = string_from_chars(t.as_slice());
    let bytes = s.as_str().as_bytes();
    assert(bytes@ == encode_utf8(trim(data@)));
    match b64_decode(bytes) {
        Err(_) => None,
        Ok(v) => match string_from_utf8(v) {
            Ok(text) => Some(Osc52Action::SetClipboard(text)),
            Err(_) => None,
        },
    }
}

/// The bytes of `b` read as ASCII characters.
pub open spec fn ascii_text(b: Seq<u8>) -> Seq<char> {
    Seq::new(b.len(), |i: int| b[i] as char)
}

/// `ESC ] 52;c;`.
pub open spec fn osc52_head() -> Seq<u8> {
    seq![0x1Bu8, 0x5Du8, 0x35u8, 0x32u8, 0x3Bu8, 0x63u8, 0x3Bu8]
}

proof fn lemma_trim_b64(d: Seq<char>)
    requires
        forall|i: int| 0 <= i < d.len() ==> is_b64_byte((#[trigger] d[i] as u32) as u8) && (d[i] as u32) < 128,
    ensures
        trim(d) == d,
{
    if d.len() > 0 {
        let u0 = d[0] as u32;
        assert(is_b64_byte(u0 as u8) && u0 < 128);
        assert(u0 as u8 == u0);
        assert(!is_ws(d[0]));
        let u1 = d.last() as u32;
        assert(is_b64_byte((d[d.len() - 1] as u32) as u8) && u1 < 128);
        assert(u1 as u8 == u1);
        assert(!is_ws(d.last()));
    }
}

/// The sequence that sets the other end's clipboard to `text`:
/// `ESC ] 52 ; c ; <base64 of the UTF-8 text> BEL`. Its payload (between
/// `ESC ]` and BEL) parses back to exactly `text`.
pub fn encode_clipboard(text: &str) -> (r: Vec<u8>)
    requires
        b64_len_fits(text.spec_bytes().len()),
    ensures
        r@ == osc52_head() + base64_encoded(text.spec_bytes()) + seq![0x07u8],
        spec_parse(ascii_text(r@.subrange(2, r@.len() - 1))) == Some(Osc52Model::SetClipboard(text@)),
{
    let bytes = text.as_bytes();
    let enc = b64_encode(bytes);
    let mut out: Vec<u8> = Vec::new();
    out.push(0x1B);
    out.push(0x5D);
    out.push(0x35);
    out.push(0x32);
    out.push(0x3B);
    out.push(0x63);
    out.push(0x3B);
    let mut i: usize = 0;
    while i < enc.len()
        invariant
            i <= enc@.len(),
            out@ == osc52_head() + enc@.take(i as int),
        decreases enc@.len() - i,
    {
        out.push(enc[i]);
        i = i + 1;
        assert(out@ =~= osc52_head() + enc@.take(i as int));
    }
    out.push(0x07);
    assert(enc@.take(enc@.len() as int) =~= enc@);
    assert(out@ =~= osc52_head() + enc@ + seq![0x07u8]);
    proof {
        let p = ascii_text(out@.subrange(2, out@.len() - 1));
        let e = ascii_text(enc@);
        assert(p =~= seq!['5', '2', ';', 'c', ';'] + e);
        assert(p.take(3) =~= prefix_52());
        let rest = p.skip(3);
        assert(rest =~= seq!['c', ';'] + e);
        assert(find_from(rest, ';', 1) == 1);
        assert(find_from(rest, ';', 0) == 1);
        let data = rest.skip(2);
        assert(data =~= e);
        assert forall|j: int| 0 <= j < e.len() implies is_b64_byte((#[trigger] e[j] as u32) as u8) && (e[j] as u32) < 128 by {
            assert(is_b64_byte(enc@[j]));
            assert((enc@[j] as char) as u32 == enc@[j]);
        }
        if e.len() == 1 {
            assert(is_b64_byte((e[0] as u32) as u8));
            assert(e[0] != '?');
            assert(e != seq!['?']);
        }
        assert(e != seq!['?']);
        lemma_trim_b64(e);
        assert(vstd::utf8::is_ascii_chars(e));
        vstd::utf8::is_ascii_chars_encode_utf8(e);
        assert(encode_utf8(e) =~= enc@);
        vstd::utf8::encode_utf8_valid_utf8(text@);
        vstd::utf8::encode_utf8_decode_utf8(text@);
    }
    out
}

/// A payload that does not start with `52;` asks for nothing; `52;`, a
/// selection without `;` (such as `c`), `;` and `?` asks for the
/// clipboard; a payload with no `;` after `52;` asks for nothing.
pub proof fn lemma_osc52_requests(p: Seq<char>, sel: Seq<char>)
    ensures
        (p.len() < 3 || p[0] != '5' || p[1] != '2' || p[2] != ';') ==> spec_parse(p) is None,
        (forall|i: int| 0 <= i < sel.len() ==> sel[i] != ';') ==>
            spec_parse(seq!['5', '2', ';'] + sel + seq![';', '?']) == Some(Osc52Model::QueryClipboard),
        (forall|i: int| 0 <= i < sel.len() ==> sel[i] != ';') ==> spec_parse(seq!['5', '2', ';'] + sel) is None,
{
    if p.len() >= 3 && p.take(3) == prefix_52() {
        assert(p[0] == p.take(3)[0] && p[1] == p.take(3)[1] && p[2] == p.take(3)[2]);
    }
    if forall|i: int| 0 <= i < sel.len() ==> sel[i] != ';' {
        let q = seq!['5', '2', ';'] + sel + seq![';', '?'];
        assert(q.take(3) =~= prefix_52());
        let rest = q.skip(3);
        assert(rest =~= sel + seq![';', '?']);
        lemma_find_semicolon(rest, sel.len() as int, 0);
        assert(rest.skip(sel.len() + 1int) =~= seq!['?']);
        let q2 = seq!['5', '2', ';'] + sel;
        assert(q2.take(3) =~= prefix_52());
        assert(q2.skip(3) =~= sel);
        lemma_find_semicolon(sel, sel.len() as int, 0);
    }
}

proof fn lemma_find_semicolon(s: Seq<char>, k: int, i: int)
    requires
        0 <= i <= k <= s.len(),
        forall|j: int| 0 <= j < k ==> s[j] != ';',
        k < s.len() ==> s[k] == ';',
    ensures
        find_from(s, ';', i) == k,
    decreases k - i,
{
    if i < k {
        lemma_find_semicolon(s, k, i + 1);
    }
}

} // verus!
