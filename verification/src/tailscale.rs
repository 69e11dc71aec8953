//! Reading the peer list out of `tailscale status` output.

use vstd::prelude::*;
use crate::text::{
    chars_of, trim_chars, split_lines, split_words, lower_chars, string_from_chars, contains_chars,
    contains_char, lines_of, words_of, trim, lower_text, has_substring, texts_view,
};

verus! {

/// A peer machine of the tailnet.
#[derive(Clone, Debug)]
pub struct TailscalePeer {
    pub host: String,
    pub ip: String,
    pub os: String,
    pub online: bool,
}

/// A peer as plain character sequences.
pub struct PeerModel {
    pub host: Seq<char>,
    pub ip: Seq<char>,
    pub os: Seq<char>,
    pub online: bool,
}

impl View for TailscalePeer {
    type V = PeerModel;

    open spec fn view(&self) -> PeerModel {
        PeerModel { host: self.host@, ip: self.ip@, os: self.os@, online: self.online }
    }
}

/// Words joined with single spaces.
pub open spec fn join_words(ws: Seq<Seq<char>>) -> Seq<char>
    decreases ws.len(),
{
    if ws.len() == 0 {
        Seq::empty()
    } else if ws.len() == 1 {
        ws[0]
    } else {
        join_words(ws.drop_last()) + seq![' '] + ws.last()
    }
}

pub open spec fn word_offline() -> Seq<char> {
    seq!['o', 'f', 'f', 'l', 'i', 'n', 'e']
}

/// The peer a status line describes (`IP HOST USER OS STATUS...`): online
/// unless its lowercased status mentions "offline" or holds a `-`.
pub open spec fn peer_of(parts: Seq<Seq<char>>) -> PeerModel {
    let status = lower_text(join_words(parts.skip(4)));
    PeerModel {
        host: parts[1],
        ip: parts[0],
        os: parts[3],
        online: !has_substring(status, word_offline()) && !status.contains('-'),
    }
}

/// Peers found so far, and whether the first line (this machine) is still
/// to be skipped.
pub open spec fn peers_step(st: (Seq<PeerModel>, bool), line: Seq<char>) -> (Seq<PeerModel>, bool) {
    let t = trim(line);
    let parts = words_of(t);
    if t.len() == 0 || parts.len() < 4 {
        st
    } else if st.1 {
        (st.0, false)
    } else {
        (st.0.push(peer_of(parts)), st.1)
    }
}

pub open spec fn peers_run(lines: Seq<Seq<char>>) -> (Seq<PeerModel>, bool)
    decreases lines.len(),
{
    if lines.len() == 0 { (Seq::empty(), true) } else { peers_step(peers_run(lines.drop_last()), lines.last()) }
}

/// The peers listed in `tailscale status` output: lines with at least four
/// columns, after the first such line (this machine).
pub open spec fn spec_parse(text: Seq<char>) -> Seq<PeerModel> {
    peers_run(lines_of(text)).0
}

pub open spec fn peers_view(v: Seq<TailscalePeer>) -> Seq<PeerModel> {
    Seq::new(v.len(), |k: int| v[k]@)
}

fn join_exec(ws: &Vec<Vec<char>>, from: usize) -> (v: Vec<char>)
    requires
        from <= ws@.len(),
    ensures
        v@ == join_words(texts_view(ws@).skip(from as int)),
{
    let ghost all = texts_view(ws@).skip(from as int);
    let mut v: Vec<char> = Vec::new();
    let mut i: usize = from;
    assert(all.take(0) =~= Seq::<Seq<char>>::empty());
    while i < ws.len()
        invariant
            from <= i <= ws@.len(),
            all == texts_view(ws@).skip(from as int),
            v@ == join_words(all.take(i - from)),
        decreases ws@.len() - i,
    {
        let ghost k = i - from;
        assert(all.take(k + 1).drop_last() =~= all.take(k));
        assert(all.take(k + 1).last() == ws@[i as int]@);
        if i > from {
            v.push(' ');
        }
        let w = &ws[i];
        let mut j: usize = 0;
        let ghost base = v@;
        while j < w.len()
            invariant
                j <= w@.len(),
                v@ == base + w@.take(j as int),
            decreases w@.len() - j,
        {
            v.push(w[j]);
            j = j + 1;
            assert(v@ =~= base + w@.take(j as int));
        }
        assert(w@.take(w@.len() as int) =~= w@);
        proof {
            if k == 0 {
                assert(all.take(1) =~= seq![w@]);
                assert(v@ =~= w@);
            }
        }
        i = i + 1;
    }
    assert(all.take(ws@.len() - from) =~= all);
    v
}

fn peer_exec(parts: &Vec<Vec<char>>) -> (p: TailscalePeer)
    requires
        parts@.len() >= 4,
    ensures
        p@ == peer_of(texts_view(parts@)),
{
    let joined = join_exec(parts, 4);
    let status = lower_chars(joined.as_slice());
    let off: [char; 7] = ['o', 'f', 'f', 'l', 'i', 'n', 'e'];
    assert(off@ =~= word_offline());
    let online = !contains_chars(status.as_slice(), &off) && !contains_char(status.as_slice(), '-');
    TailscalePeer {
        host: string_from_chars(parts[1].as_slice()),
        ip: string_from_chars(parts[0].as_slice()),
        os: string_from_chars(parts[3].as_slice()),
        online,
    }
}

/// The peers in the output of `tailscale status`: each line with at least
/// four columns (`IP HOST USER OS STATUS...`) after the first one, which
/// describes this machine.
pub fn parse(text: &str) -> (peers: Vec<TailscalePeer>)
    ensures
        peers_view(peers@) == spec_parse(text@),
{
    let cs = chars_of(text);
    let lines = split_lines(cs.as_slice());
    let ghost ls = texts_view(lines@);
    let mut peers: Vec<TailscalePeer> = Vec::new();
    let mut first = true;
    let mut i: usize = 0;
    assert(ls.take(0) =~= Seq::<Seq<char>>::empty());
    assert(peers_view(peers@) =~= Seq::<PeerModel>::empty());
    while i < lines.len()
        invariant
            i <= lines@.len(),
            ls == texts_view(lines@),
            ls == lines_of(cs@),
            (peers_view(peers@), first) == peers_run(ls.take(i as int)),
        decreases lines@.len() - i,
    {
        assert(ls.take(i + 1).drop_last() =~= ls.take(i as int));
        assert(ls.take(i + 1).last() == lines@[i as int]@);
        let t = trim_chars(lines[i].as_slice());
        let parts = split_words(t.as_slice());
        if t.len() == 0 || parts.len() < 4 {
        } else if first {
            first = false;
        } else {
            let p = peer_exec(&parts);
            let ghost before = peers@;
            peers.push(p);
            assert(peers_view(peers@) =~= peers_view(before).push(p@));
        }
        i = i + 1;
    }
    assert(ls.take(ls.len() as int) =~= ls);
    peers
}

/// Reading one more line of `tailscale status`: a line with fewer than
/// four columns changes nothing; the first line with four or more is this
/// machine and is skipped; each later one adds a peer, after the earlier
/// ones, whose address, host name and OS are its first, second and fourth
/// columns, online unless its status (the fifth column on) mentions
/// "offline" in any case or holds a `-`.
pub proof fn lemma_status_line(ls: Seq<Seq<char>>, l: Seq<char>)
    ensures
        ({
            let before = peers_run(ls);
            let after = peers_run(ls.push(l));
            let cols = words_of(trim(l));
            &&& cols.len() < 4 ==> after == before
            &&& (cols.len() >= 4 && before.1) ==> after == (before.0, false)
            &&& (cols.len() >= 4 && !before.1) ==> {
                &&& after.0.len() == before.0.len() + 1
                &&& after.0.take(before.0.len() as int) == before.0
                &&& after.0.last().ip == cols[0]
                &&& after.0.last().host == cols[1]
                &&& after.0.last().os == cols[3]
                &&& after.0.last().online == !(has_substring(lower_text(join_words(cols.skip(4))), seq!['o', 'f', 'f', 'l', 'i', 'n', 'e'])
                    || lower_text(join_words(cols.skip(4))).contains('-'))
                &&& !after.1
            }
        }),
{
    assert(ls.push(l).drop_last() =~= ls);
    assert(ls.push(l).last() == l);
    let before = peers_run(ls);
    let after = peers_run(ls.push(l));
    assert(word_offline() =~= seq!['o', 'f', 'f', 'l', 'i', 'n', 'e']);
    if words_of(trim(l)).len() < 4 {
        if trim(l).len() == 0 {
        }
    }
    if words_of(trim(l)).len() >= 4 && !before.1 {
        assert(after.0.take(before.0.len() as int) =~= before.0);
    }
}

} // verus!
