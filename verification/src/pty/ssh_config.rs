//! Reading host profiles out of an OpenSSH client configuration
//! (`Host`, `HostName`, `Port`, `User` and `IdentityFile` directives).

use vstd::prelude::*;
use crate::pty::{SshProfile, ProfileModel, key_word, default_auth};
use crate::text::{
    chars_of, copy_range, trim_chars, lower_chars, chars_eq, contains_char, split_lines, split_words,
    string_from_chars, lower_text, trim, lines_of, words_of, texts_view, find_from, find_char,
};

verus! {

/// The settings collected for one `Host` block.
pub struct Block {
    pub host_name: Option<Seq<char>>,
    pub port: Option<u16>,
    pub user: Option<Seq<char>>,
    pub identity_file: Option<Seq<char>>,
}

pub open spec fn empty_block() -> Block {
    Block { host_name: None, port: None, user: None, identity_file: None }
}

/// One setting of a block.
pub enum Field {
    HostName(Seq<char>),
    Port(u16),
    User(Seq<char>),
    IdentityFile(Seq<char>),
}

pub open spec fn apply_field(b: Block, f: Field) -> Block {
    match f {
        Field::HostName(v) => Block { host_name: Some(v), ..b },
        Field::Port(p) => Block { port: Some(p), ..b },
        Field::User(v) => Block { user: Some(v), ..b },
        Field::IdentityFile(v) => Block { identity_file: Some(v), ..b },
    }
}

/// The parser's state between two lines: the profiles finished so far,
/// the defaults (settings outside any host, or under `Host *`), and the
/// host block being read.
pub struct ParseState {
    pub profiles: Seq<ProfileModel>,
    pub defaults: Block,
    pub current: Option<(Seq<char>, Block)>,
}

pub open spec fn initial_parse_state() -> ParseState {
    ParseState { profiles: Seq::empty(), defaults: empty_block(), current: None }
}

pub open spec fn star() -> Seq<char> {
    seq!['*']
}

/// `o`, or else `d`.
pub open spec fn or_else<T>(o: Option<T>, d: T) -> T {
    match o {
        Some(v) => v,
        None => d,
    }
}

/// `o`, or else `d`, as options.
pub open spec fn or_opt<T>(o: Option<T>, d: Option<T>) -> Option<T> {
    match o {
        Some(v) => Some(v),
        None => d,
    }
}

/// The profile of host `name`: its own settings first, then the defaults,
/// then the host name itself, port 22 and `user`.
pub open spec fn build_profile(name: Seq<char>, b: Block, defaults: Block, user: Seq<char>) -> ProfileModel {
    ProfileModel {
        name,
        host: or_else(or_opt(b.host_name, defaults.host_name), name),
        port: or_else(or_opt(b.port, defaults.port), 22u16),
        user: or_else(or_opt(b.user, defaults.user), user),
        auth: key_word(),
        password: None,
        key_path: or_opt(b.identity_file, defaults.identity_file),
    }
}

/// Closes the current block: a host without wildcards becomes a profile.
pub open spec fn flush(st: ParseState, user: Seq<char>) -> ParseState {
    match st.current {
        Some((name, b)) => if name.contains('*') || name.contains('?') {
            ParseState { current: None, ..st }
        } else {
            ParseState {
                profiles: st.profiles.push(build_profile(name, b, st.defaults, user)),
                current: None,
                ..st
            }
        },
        None => st,
    }
}

/// A setting goes to the current host block, or to the defaults outside
/// any block and under `Host *`.
pub open spec fn set_current(st: ParseState, f: Field) -> ParseState {
    match st.current {
        Some((name, b)) => if name == star() {
            ParseState { defaults: apply_field(st.defaults, f), ..st }
        } else {
            ParseState { current: Some((name, apply_field(b, f))), ..st }
        },
        None => ParseState { defaults: apply_field(st.defaults, f), ..st },
    }
}

/// The first word without `*` or `?`.
pub open spec fn first_plain(ws: Seq<Seq<char>>) -> Option<Seq<char>>
    decreases ws.len(),
{
    if ws.len() == 0 {
        None
    } else if !ws[0].contains('*') && !ws[0].contains('?') {
        Some(ws[0])
    } else {
        first_plain(ws.drop_first())
    }
}

/// `Host value`: closes the current block; `Host *` restarts the defaults
/// and collects into them, otherwise the first plain name opens a block.
pub open spec fn host_line(st: ParseState, value: Seq<char>, user: Seq<char>) -> ParseState {
    let st1 = flush(st, user);
    if value == star() {
        ParseState { defaults: empty_block(), current: Some((star(), empty_block())), ..st1 }
    } else {
        match first_plain(words_of(value)) {
            Some(n) => ParseState { current: Some((n, empty_block())), ..st1 },
            None => ParseState { current: None, ..st1 },
        }
    }
}

/// The line up to its first `#`.
pub open spec fn strip_comment(l: Seq<char>) -> Seq<char> {
    l.take(find_from(l, '#', 0))
}

pub open spec fn is_kv_sep(c: char) -> bool {
    c == ' ' || c == '\t' || c == '='
}

/// The index of the first key/value separator at or after `i`.
pub open spec fn sep_from(s: Seq<char>, i: int) -> int
    decreases s.len() - i,
{
    if i < 0 || i >= s.len() { s.len() as int } else if is_kv_sep(s[i]) { i } else { sep_from(s, i + 1) }
}

/// `s` without its leading separators.
pub open spec fn skip_seps(s: Seq<char>) -> Seq<char>
    decreases s.len(),
{
    if s.len() > 0 && is_kv_sep(s[0]) { skip_seps(s.drop_first()) } else { s }
}

/// A directive split at its first space, tab or `=`: the keyword and the
/// value after any further separators; `None` without a separator.
pub open spec fn split_kv(line: Seq<char>) -> Option<(Seq<char>, Seq<char>)> {
    let k = sep_from(line, 0);
    if 0 <= k < line.len() { Some((line.take(k), skip_seps(line.skip(k + 1)))) } else { None }
}

pub open spec fn is_digit(c: char) -> bool {
    '0' <= c <= '9'
}

/// The decimal value of a digit string.
pub open spec fn dec_value(d: Seq<char>) -> int
    decreases d.len(),
{
    if d.len() == 0 { 0 } else { dec_value(d.drop_last()) * 10 + (d.last() as int - '0' as int) }
}

/// `s` without one leading `+`.
pub open spec fn unsigned_digits(s: Seq<char>) -> Seq<char> {
    if s.len() > 0 && s[0] == '+' { s.drop_first() } else { s }
}

pub open spec fn all_digits(d: Seq<char>) -> bool {
    forall|i: int| 0 <= i < d.len() ==> is_digit(#[trigger] d[i])
}

/// `str::parse::<u16>`: an optional `+`, then at least one digit, and a
/// value below 65536.
pub open spec fn parse_u16(s: Seq<char>) -> Option<u16> {
    let d = unsigned_digits(s);
    if d.len() == 0 || !all_digits(d) {
        None
    } else if dec_value(d) > 65535 {
        None
    } else {
        Some(dec_value(d) as u16)
    }
}

pub open spec fn word_host() -> Seq<char> {
    seq!['h', 'o', 's', 't']
}

pub open spec fn word_hostname() -> Seq<char> {
    seq!['h', 'o', 's', 't', 'n', 'a', 'm', 'e']
}

pub open spec fn word_port() -> Seq<char> {
    seq!['p', 'o', 'r', 't']
}

pub open spec fn word_user() -> Seq<char> {
    seq!['u', 's', 'e', 'r']
}

pub open spec fn word_identityfile() -> Seq<char> {
    seq!['i', 'd', 'e', 'n', 't', 'i', 't', 'y', 'f', 'i', 'l', 'e']
}

/// One line of the configuration. Keywords are case-insensitive; other
/// directives, blank and comment lines, and lines without a separator
/// change nothing.
pub open spec fn step_line(st: ParseState, raw: Seq<char>, user: Seq<char>) -> ParseState {
    let line = trim(strip_comment(raw));
    if line.len() == 0 {
        st
    } else {
        match split_kv(line) {
            None => st,
            Some((key, value)) => {
                let k = lower_text(key);
                if k == word_host() {
                    host_line(st, value, user)
                } else if k == word_hostname() {
                    set_current(st, Field::HostName(value))
                } else if k == word_port() {
                    match parse_u16(value) {
                        Some(p) => set_current(st, Field::Port(p)),
                        None => st,
                    }
                } else if k == word_user() {
                    set_current(st, Field::User(value))
                } else if k == word_identityfile() {
                    set_current(st, Field::IdentityFile(value))
                } else {
                    st
                }
            },
        }
    }
}

/// The lines read in order.
pub open spec fn run_lines(lines: Seq<Seq<char>>, user: Seq<char>) -> ParseState
    decreases lines.len(),
{
    if lines.len() == 0 {
        initial_parse_state()
    } else {
        step_line(run_lines(lines.drop_last(), user), lines.last(), user)
    }
}

/// The profiles of a configuration text; `user` fills in hosts that name
/// no user.
pub open spec fn spec_parse(content: Seq<char>, user: Seq<char>) -> Seq<ProfileModel> {
    flush(run_lines(lines_of(content), user), user).profiles
}

pub open spec fn profiles_view(v: Seq<SshProfile>) -> Seq<ProfileModel> {
    Seq::new(v.len(), |k: int| v[k]@)
}

/// A host name without the wildcards `*` and `?`.
pub open spec fn is_plain_name(n: Seq<char>) -> bool {
    !n.contains('*') && !n.contains('?')
}

/// The profiles collected so far come from plain host names and use key
/// authentication with no password.
pub open spec fn profiles_plain(ps: Seq<ProfileModel>) -> bool {
    forall|i: int| 0 <= i < ps.len() ==> {
        &&& is_plain_name(#[trigger] ps[i].name)
        &&& ps[i].auth == key_word()
        &&& ps[i].password is None
    }
}

/// Each profile is built from its host's block and the defaults: host
/// name, port, user and key file from the block where it sets them, else
/// from the defaults, else the host's name, port 22 and `user`.
pub open spec fn profiles_built(ps: Seq<ProfileModel>, user: Seq<char>) -> bool {
    forall|i: int| 0 <= i < ps.len() ==> exists|b: Block, d: Block| #[trigger] ps[i] == build_profile(ps[i].name, b, d, user)
}

proof fn lemma_flush_plain(st: ParseState, user: Seq<char>)
    requires
        profiles_plain(st.profiles),
        profiles_built(st.profiles, user),
    ensures
        profiles_plain(flush(st, user).profiles),
        profiles_built(flush(st, user).profiles, user),
        flush(st, user).profiles.len() >= st.profiles.len(),
        flush(st, user).profiles.take(st.profiles.len() as int) == st.profiles,
{
    let f = flush(st, user);
    assert(f.profiles.take(st.profiles.len() as int) =~= st.profiles);
    assert forall|i: int| 0 <= i < f.profiles.len() implies {
        &&& is_plain_name(#[trigger] f.profiles[i].name)
        &&& f.profiles[i].auth == key_word()
        &&& f.profiles[i].password is None
    } by {
        if i < st.profiles.len() {
            assert(f.profiles[i] == st.profiles[i]);
        }
    }
    assert forall|i: int| 0 <= i < f.profiles.len() implies exists|b: Block, d: Block| #[trigger] f.profiles[i] == build_profile(f.profiles[i].name, b, d, user) by {
        if i < st.profiles.len() {
            assert(f.profiles[i] == st.profiles[i]);
            let (b, d) = choose|b: Block, d: Block| #[trigger] st.profiles[i] == build_profile(st.profiles[i].name, b, d, user);
            assert(f.profiles[i] == build_profile(f.profiles[i].name, b, d, user));
        } else {
            match st.current {
                Some((name, b)) => {
                    assert(f.profiles[i] == build_profile(name, b, st.defaults, user));
                    assert(f.profiles[i] == build_profile(f.profiles[i].name, b, st.defaults, user));
                },
                None => {},
            }
        }
    }
}

proof fn lemma_step_line_plain(st: ParseState, raw: Seq<char>, user: Seq<char>)
    requires
        profiles_plain(st.profiles),
        profiles_built(st.profiles, user),
    ensures
        profiles_plain(step_line(st, raw, user).profiles),
        profiles_built(step_line(st, raw, user).profiles, user),
        step_line(st, raw, user).profiles.len() >= st.profiles.len(),
        step_line(st, raw, user).profiles.take(st.profiles.len() as int) == st.profiles,
{
    lemma_flush_plain(st, user);
    assert(st.profiles.take(st.profiles.len() as int) =~= st.profiles);
}

proof fn lemma_run_lines_plain(lines: Seq<Seq<char>>, user: Seq<char>)
    ensures
        profiles_plain(run_lines(lines, user).profiles),
        profiles_built(run_lines(lines, user).profiles, user),
    decreases lines.len(),
{
    if lines.len() > 0 {
        lemma_run_lines_plain(lines.drop_last(), user);
        lemma_step_line_plain(run_lines(lines.drop_last(), user), lines.last(), user);
    }
}

/// Parsing keeps the order of the hosts: the profiles of a configuration
/// start with the profiles of any leading part of its lines.
pub proof fn lemma_run_lines_prefix(lines: Seq<Seq<char>>, k: int, user: Seq<char>)
    requires
        0 <= k <= lines.len(),
    ensures
        run_lines(lines, user).profiles.len() >= run_lines(lines.take(k), user).profiles.len(),
        run_lines(lines, user).profiles.take(run_lines(lines.take(k), user).profiles.len() as int)
            == run_lines(lines.take(k), user).profiles,
    decreases lines.len(),
{
    let n = run_lines(lines.take(k), user).profiles.len() as int;
    if k == lines.len() {
        assert(lines.take(k) =~= lines);
        assert(run_lines(lines, user).profiles.take(n) =~= run_lines(lines, user).profiles);
    } else {
        lemma_run_lines_prefix(lines.drop_last(), k, user);
        assert(lines.drop_last().take(k) =~= lines.take(k));
        let st = run_lines(lines.drop_last(), user);
        lemma_run_lines_plain(lines.drop_last(), user);
        lemma_step_line_plain(st, lines.last(), user);
        let ps = run_lines(lines, user).profiles;
        assert(ps.take(n) =~= ps.take(st.profiles.len() as int).take(n));
    }
}

/// Every parsed profile comes from a host name without wildcards (`Host *`
/// and patterns are never profiles), uses key authentication with no
/// password, and takes its host name, port, user and key file from its
/// block, else from the defaults, else its name, port 22 and `user`.
pub proof fn lemma_parse_plain(content: Seq<char>, user: Seq<char>)
    ensures
        profiles_plain(spec_parse(content, user)),
        profiles_built(spec_parse(content, user), user),
{
    lemma_run_lines_plain(lines_of(content), user);
    lemma_flush_plain(run_lines(lines_of(content), user), user);
}

/// Closing a plain host's block appends its profile to those before it:
/// named after the host, with the host name, port, user and key file the
/// block sets, else those set as defaults, else the host's own name, port
/// 22, `user` and no key file; key authentication, no password.
pub proof fn lemma_flush_profile(st: ParseState, user: Seq<char>)
    ensures
        match st.current {
            Some((name, b)) => is_plain_name(name) ==> {
                let ps = flush(st, user).profiles;
                let p = ps.last();
                let d = st.defaults;
                &&& ps.len() == st.profiles.len() + 1
                &&& ps.take(st.profiles.len() as int) == st.profiles
                &&& p.name == name
                &&& p.host == (match b.host_name {
                    Some(h) => h,
                    None => match d.host_name {
                        Some(h) => h,
                        None => name,
                    },
                })
                &&& p.port == (match b.port {
                    Some(n) => n,
                    None => match d.port {
                        Some(n) => n,
                        None => 22u16,
                    },
                })
                &&& p.user == (match b.user {
                    Some(u) => u,
                    None => match d.user {
                        Some(u) => u,
                        None => user,
                    },
                })
                &&& p.key_path == (match b.identity_file {
                    Some(k) => Some(k),
                    None => d.identity_file,
                })
                &&& p.auth == seq!['k', 'e', 'y']
                &&& p.password is None
            },
            None => flush(st, user) == st,
        },
{
    assert(key_word() =~= seq!['k', 'e', 'y']);
    match st.current {
        Some((name, b)) => {
            if is_plain_name(name) {
                let ps = flush(st, user).profiles;
                assert(ps.take(st.profiles.len() as int) =~= st.profiles);
            }
        },
        None => {},
    }
}

/// A host's own `IdentityFile` is its profile's key file: when the last
/// line of a configuration is `IdentityFile <v>` (any case, `=` or spaces
/// between, comment stripped) inside the block of a plain host, the last
/// profile parsed is that host's, with key file `v`.
pub proof fn lemma_parse_identity_file(
    content: Seq<char>,
    user: Seq<char>,
    ls: Seq<Seq<char>>,
    raw: Seq<char>,
    key: Seq<char>,
    v: Seq<char>,
)
    requires
        lines_of(content) == ls.push(raw),
        run_lines(ls, user).current matches Some((name, b)) && is_plain_name(name),
        trim(strip_comment(raw)).len() > 0,
        split_kv(trim(strip_comment(raw))) == Some((key, v)),
        lower_text(key) == seq!['i', 'd', 'e', 'n', 't', 'i', 't', 'y', 'f', 'i', 'l', 'e'],
    ensures
        spec_parse(content, user).len() == run_lines(ls, user).profiles.len() + 1,
        spec_parse(content, user).last().name == run_lines(ls, user).current->Some_0.0,
        spec_parse(content, user).last().key_path == Some(v),
{
    let st = run_lines(ls, user);
    assert(ls.push(raw).drop_last() =~= ls);
    assert(ls.push(raw).last() == raw);
    assert(word_identityfile() =~= seq!['i', 'd', 'e', 'n', 't', 'i', 't', 'y', 'f', 'i', 'l', 'e']);
    assert(lower_text(key) != word_host());
    assert(lower_text(key) != word_hostname());
    assert(lower_text(key) != word_port());
    assert(lower_text(key) != word_user());
    let (name, b) = st.current->Some_0;
    assert(name != star()) by {
        assert(star().contains('*')) by {
            assert(star()[0] == '*');
        }
    }
    let st2 = step_line(st, raw, user);
    assert(st2 == ParseState { current: Some((name, Block { identity_file: Some(v), ..b })), ..st });
    lemma_flush_profile(st2, user);
}

// ---------------------------------------------------------------------
// Executable parser
// ---------------------------------------------------------------------

pub open spec fn opt_chars(o: Option<Vec<char>>) -> Option<Seq<char>> {
    match o {
        Some(v) => Some(v@),
        None => None,
    }
}

struct BlockX {
    host_name: Option<Vec<char>>,
    port: Option<u16>,
    user: Option<Vec<char>>,
    identity_file: Option<Vec<char>>,
}

impl BlockX {
    spec fn model(&self) -> Block {
        Block {
            host_name: opt_chars(self.host_name),
            port: self.port,
            user: opt_chars(self.user),
            identity_file: opt_chars(self.identity_file),
        }
    }

    fn empty() -> (b: Self)
        ensures
            b.model() == empty_block(),
    {
        BlockX { host_name: None, port: None, user: None, identity_file: None }
    }
}

enum FieldX {
    HostName(Vec<char>),
    Port(u16),
    User(Vec<char>),
    IdentityFile(Vec<char>),
}

impl FieldX {
    spec fn model(&self) -> Field {
        match self {
            FieldX::HostName(v) => Field::HostName(v@),
            FieldX::Port(p) => Field::Port(*p),
            FieldX::User(v) => Field::User(v@),
            FieldX::IdentityFile(v) => Field::IdentityFile(v@),
        }
    }
}

struct StateX {
    profiles: Vec<SshProfile>,
    defaults: BlockX,
    current: Option<(Vec<char>, BlockX)>,
}

impl StateX {
    spec fn model(&self) -> ParseState {
        ParseState {
            profiles: profiles_view(self.profiles@),
            defaults: self.defaults.model(),
            current: match self.current {
                Some((n, b)) => Some((n@, b.model())),
                None => None,
            },
        }
    }
}

fn dup(v: &Vec<char>) -> (r: Vec<char>)
    ensures
        r@ == v@,
{
    copy_range(v.as_slice(), 0, v.len())
}

fn dup_opt(o: &Option<Vec<char>>) -> (r: Option<Vec<char>>)
    ensures
        opt_chars(r) == opt_chars(*o),
{
    match o {
        Some(v) => Some(dup(v)),
        None => None,
    }
}

fn opt_string(o: Option<Vec<char>>) -> (r: Option<String>)
    ensures
        crate::pty::opt_text(r) == opt_chars(o),
{
    match o {
        Some(v) => Some(string_from_chars(v.as_slice())),
        None => None,
    }
}

fn apply_exec(b: &mut BlockX, f: FieldX)
    ensures
        final(b).model() == apply_field(old(b).model(), f.model()),
{
    match f {
        FieldX::HostName(v) => b.host_name = Some(v),
        FieldX::Port(p) => b.port = Some(p),
        FieldX::User(v) => b.user = Some(v),
        FieldX::IdentityFile(v) => b.identity_file = Some(v),
    }
}

fn is_star(name: &Vec<char>) -> (r: bool)
    ensures
        r == (name@ == star()),
{
    let s: [char; 1] = ['*'];
    assert(s@ =~= star());
    chars_eq(name.as_slice(), &s)
}

fn set_current_exec(st: &mut StateX, f: FieldX)
    ensures
        final(st).model() == set_current(old(st).model(), f.model()),
{
    let cur = st.current.take();
    match cur {
        Some((name, block)) => {
            let mut block = block;
            if is_star(&name) {
                apply_exec(&mut st.defaults, f);
            } else {
                apply_exec(&mut block, f);
            }
            st.current = Some((name, block));
        },
        None => {
            apply_exec(&mut st.defaults, f);
        },
    }
}

fn pick(own: Option<Vec<char>>, dflt: &Option<Vec<char>>) -> (r: Option<Vec<char>>)
    ensures
        opt_chars(r) == or_opt(opt_chars(own), opt_chars(*dflt)),
{
    match own {
        Some(v) => Some(v),
        None => dup_opt(dflt),
    }
}

fn build_exec(name: Vec<char>, b: BlockX, defaults: &BlockX, user: &[char]) -> (p: SshProfile)
    ensures
        p@ == build_profile(name@, b.model(), defaults.model(), user@),
{
    let host = match pick(b.host_name, &defaults.host_name) {
        Some(h) => h,
        None => dup(&name),
    };
    let port: u16 = match b.port {
        Some(p) => p,
        None => match defaults.port {
            Some(p) => p,
            None => crate::pty::default_port(),
        },
    };
    let u = match pick(b.user, &defaults.user) {
        Some(u) => u,
        None => {
            let c = copy_range(user, 0, user.len());
            assert(c@ =~= user@);
            c
        },
    };
    let key_path = opt_string(pick(b.identity_file, &defaults.identity_file));
    let p = SshProfile {
        name: string_from_chars(name.as_slice()),
        host: string_from_chars(host.as_slice()),
        port,
        user: string_from_chars(u.as_slice()),
        auth: default_auth(),
        password: None,
        key_path,
    };
    assert(p@.name == name@);
    assert(p@.host == build_profile(name@, b.model(), defaults.model(), user@).host);
    assert(p@.port == build_profile(name@, b.model(), defaults.model(), user@).port);
    assert(p@.user == build_profile(name@, b.model(), defaults.model(), user@).user);
    assert(p@.key_path == build_profile(name@, b.model(), defaults.model(), user@).key_path);
    p
}

fn flush_exec(st: &mut StateX, user: &[char])
    ensures
        final(st).model() == flush(old(st).model(), user@),
{
    let cur = st.current.take();
    match cur {
        Some((name, block)) => {
            if contains_char(name.as_slice(), '*') || contains_char(name.as_slice(), '?') {
            } else {
                let p = build_exec(name, block, &st.defaults, user);
                let ghost before = st.profiles@;
                st.profiles.push(p);
                assert(profiles_view(st.profiles@) =~= profiles_view(before).push(p@));
            }
        },
        None => {},
    }
}

fn first_plain_exec(ws: Vec<Vec<char>>) -> (r: Option<Vec<char>>)
    ensures
        opt_chars(r) == first_plain(texts_view(ws@)),
{
    let ghost all = texts_view(ws@);
    let mut i: usize = 0;
    let n = ws.len();
    assert(all.skip(0) =~= all);
    while i < n
        invariant
            n == ws@.len(),
            i <= n,
            all == texts_view(ws@),
            first_plain(all) == first_plain(all.skip(i as int)),
        decreases n - i,
    {
        assert(all.skip(i as int)[0] == ws@[i as int]@);
        assert(all.skip(i as int).drop_first() =~= all.skip(i + 1));
        if !contains_char(ws[i].as_slice(), '*') && !contains_char(ws[i].as_slice(), '?') {
            let r = dup(&ws[i]);
            assert(first_plain(all.skip(i as int)) == Some(ws@[i as int]@));
            return Some(r);
        }
        i = i + 1;
    }
    None
}

fn host_line_exec(st: &mut StateX, value: &[char], user: &[char])
    ensures
        final(st).model() == host_line(old(st).model(), value@, user@),
{
    flush_exec(st, user);
    let s: [char; 1] = ['*'];
    assert(s@ =~= star());
    if chars_eq(value, &s) {
        st.defaults = BlockX::empty();
        let mut name: Vec<char> = Vec::new();
        name.push('*');
        assert(name@ =~= star());
        st.current = Some((name, BlockX::empty()));
    } else {
        let ws = split_words(value);
        match first_plain_exec(ws) {
            Some(n) => st.current = Some((n, BlockX::empty())),
            None => st.current = None,
        }
    }
}

fn split_kv_exec(line: &[char]) -> (r: Option<(Vec<char>, Vec<char>)>)
    ensures
        match split_kv(line@) {
            None => r is None,
            Some((k, v)) => r matches Some((k2, v2)) && k2@ == k && v2@ == v,
        },
{
    let mut i: usize = 0;
    while i < line.len() && !(line[i] == ' ' || line[i] == '\t' || line[i] == '=')
        invariant
            i <= line@.len(),
            sep_from(line@, 0) == sep_from(line@, i as int),
        decreases line@.len() - i,
    {
        i = i + 1;
    }
    if i >= line.len() {
        return None;
    }
    let key = copy_range(line, 0, i);
    let mut j: usize = i + 1;
    assert(line@.skip(i + 1) =~= line@.skip(j as int));
    while j < line.len() && (line[j] == ' ' || line[j] == '\t' || line[j] == '=')
        invariant
            i + 1 <= j <= line@.len(),
            skip_seps(line@.skip(i + 1)) == skip_seps(line@.skip(j as int)),
        decreases line@.len() - j,
    {
        assert(line@.skip(j as int).drop_first() =~= line@.skip(j + 1));
        j = j + 1;
    }
    let value = copy_range(line, j, line.len());
    assert(line@.skip(j as int) =~= line@.subrange(j as int, line@.len() as int));
    assert(key@ =~= line@.take(i as int));
    Some((key, value))
}

proof fn lemma_capped_value(d: Seq<char>, k: int, acc: u32)
    requires
        0 <= k < d.len(),
        forall|i: int| 0 <= i < d.len() ==> is_digit(#[trigger] d[i]),
        acc == if dec_value(d.take(k)) > 65536 { 65536 } else { dec_value(d.take(k)) },
    ensures
        ({
            let v = acc * 10 + (d[k] as int - '0' as int);
            let capped = if v > 65536 { 65536 } else { v };
            capped == if dec_value(d.take(k + 1)) > 65536 { 65536 } else { dec_value(d.take(k + 1)) }
        }),
{
    assert(d.take(k + 1).drop_last() =~= d.take(k));
    assert(is_digit(d[k]));
    assert(dec_value(d.take(k + 1)) == dec_value(d.take(k)) * 10 + (d[k] as int - '0' as int));
    lemma_dec_value_nonneg(d.take(k), k);
}

proof fn lemma_dec_value_nonneg(d: Seq<char>, n: int)
    requires
        n == d.len(),
        forall|i: int| 0 <= i < d.len() ==> is_digit(#[trigger] d[i]),
    ensures
        dec_value(d) >= 0,
    decreases n,
{
    if n > 0 {
        assert(is_digit(d[n - 1]));
        lemma_dec_value_nonneg(d.drop_last(), n - 1);
    }
}

/// `str::parse::<u16>` over characters.
fn parse_u16_exec(s: &[char]) -> (r: Option<u16>)
    ensures
        r == parse_u16(s@),
{
    let start: usize = if s.len() > 0 && s[0] == '+' { 1 } else { 0 };
    let ghost d = unsigned_digits(s@);
    assert(d =~= s@.skip(start as int));
    if start >= s.len() {
        return None;
    }
    let mut acc: u32 = 0;
    let mut i: usize = start;
    assert(d.take(0) =~= Seq::<char>::empty());
    while i < s.len()
        invariant
            start <= i <= s@.len(),
            d == s@.skip(start as int),
            d == unsigned_digits(s@),
            forall|k: int| 0 <= k < i - start ==> is_digit(#[trigger] d[k]),
            acc == if dec_value(d.take(i - start)) > 65536 { 65536 } else { dec_value(d.take(i - start)) },
        decreases s@.len() - i,
    {
        if !('0' <= s[i] && s[i] <= '9') {
            assert(d[i - start] == s@[i as int]);
            assert(!is_digit(d[i - start]));
            assert(!all_digits(d));
            return None;
        }
        proof {
            let dk = d.take(i - start + 1);
            assert(dk.take(i - start) =~= d.take(i - start));
            assert(dk.take(i - start + 1) =~= dk);
            assert(is_digit(d[i - start]));
            assert forall|j: int| 0 <= j < dk.len() implies is_digit(#[trigger] dk[j]) by {
                assert(dk[j] == d[j]);
            }
            lemma_capped_value(dk, i - start, acc);
        }
        let v: u32 = acc * 10 + (s[i] as u32 - '0' as u32);
        acc = if v > 65536 { 65536 } else { v };
        i = i + 1;
    }
    assert(d.take(d.len() as int) =~= d);
    if acc > 65535 {
        None
    } else {
        Some(acc as u16)
    }
}

fn word_eq(k: &Vec<char>, w: &[char]) -> (r: bool)
    ensures
        r == (k@ == w@),
{
    chars_eq(k.as_slice(), w)
}

fn step_line_exec(st: &mut StateX, raw: &[char], user: &[char])
    ensures
        final(st).model() == step_line(old(st).model(), raw@, user@),
{
    let hash = find_char(raw, '#');
    let stripped = copy_range(raw, 0, hash);
    assert(stripped@ =~= strip_comment(raw@));
    let line = trim_chars(stripped.as_slice());
    if line.len() == 0 {
        return;
    }
    match split_kv_exec(line.as_slice()) {
        None => {},
        Some((key, value)) => {
            let k = lower_chars(key.as_slice());
            let host: [char; 4] = ['h', 'o', 's', 't'];
            let hostname: [char; 8] = ['h', 'o', 's', 't', 'n', 'a', 'm', 'e'];
            let port: [char; 4] = ['p', 'o', 'r', 't'];
            let user_kw: [char; 4] = ['u', 's', 'e', 'r'];
            let identity: [char; 12] = ['i', 'd', 'e', 'n', 't', 'i', 't', 'y', 'f', 'i', 'l', 'e'];
            assert(host@ =~= word_host());
            assert(hostname@ =~= word_hostname());
            assert(port@ =~= word_port());
            assert(user_kw@ =~= word_user());
            assert(identity@ =~= word_identityfile());
            if word_eq(&k, &host) {
                host_line_exec(st, value.as_slice(), user);
            } else if word_eq(&k, &hostname) {
                set_current_exec(st, FieldX::HostName(value));
            } else if word_eq(&k, &port) {
                match parse_u16_exec(value.as_slice()) {
                    Some(p) => set_current_exec(st, FieldX::Port(p)),
                    None => {},
                }
            } else if word_eq(&k, &user_kw) {
                set_current_exec(st, FieldX::User(value));
            } else if word_eq(&k, &identity) {
                set_current_exec(st, FieldX::IdentityFile(value));
            }
        },
    }
}

/// The host profiles of an OpenSSH client configuration. Hosts with
/// wildcards are skipped; settings outside any host and under `Host *`
/// serve as defaults for the hosts closed after them; a host without a
/// `User` gets `default_user`.
pub fn parse(content: &str, default_user: &str) -> (profiles: Vec<SshProfile>)
    ensures
        profiles_view(profiles@) == spec_parse(content@, default_user@),
{
    let text = chars_of(content);
    let user = chars_of(default_user);
    let lines = split_lines(text.as_slice());
    let ghost ls = texts_view(lines@);
    let mut st = StateX { profiles: Vec::new(), defaults: BlockX::empty(), current: None };
    assert(st.model() == initial_parse_state()) by {
        assert(profiles_view(st.profiles@) =~= Seq::<ProfileModel>::empty());
    }
    let mut i: usize = 0;
    assert(ls.take(0) =~= Seq::<Seq<char>>::empty());
    while i < lines.len()
        invariant
            i <= lines@.len(),
            ls == texts_view(lines@),
            ls == lines_of(text@),
            st.model() == run_lines(ls.take(i as int), user@),
        decreases lines@.len() - i,
    {
        step_line_exec(&mut st, lines[i].as_slice(), user.as_slice());
        assert(ls.take(i + 1).drop_last() =~= ls.take(i as int));
        assert(ls.take(i + 1).last() == lines@[i as int]@);
        i = i + 1;
    }
    assert(ls.take(ls.len() as int) =~= ls);
    flush_exec(&mut st, user.as_slice());
    st.profiles
}

} // verus!
