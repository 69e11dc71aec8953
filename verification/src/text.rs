//! Character-level text helpers shared by the configuration and status
//! parsers: line splitting, trimming, word splitting and comparisons, all
//! over `char` sequences.

use vstd::prelude::*;

verus! {

#[verifier::external_type_specification]
#[verifier::external_body]
pub struct ExFromUtf8Error(std::string::FromUtf8Error);

/// The lowercase form of `s` as `str::to_lowercase` computes it.
pub uninterp spec fn lowercased(s: Seq<char>) -> Seq<char>;

/// Whether `c` has the Unicode `White_Space` property, the whitespace of
/// `char::is_whitespace`, `str::trim` and `str::split_whitespace`.
pub open spec fn is_ws(c: char) -> bool {
    let u = c as u32;
    ||| 0x09 <= u <= 0x0D
    ||| u == 0x20 || u == 0x85 || u == 0xA0 || u == 0x1680
    ||| 0x2000 <= u <= 0x200A
    ||| u == 0x2028 || u == 0x2029 || u == 0x202F || u == 0x205F || u == 0x3000
}

/// `char::is_whitespace`.
pub(crate) fn char_is_whitespace(c: char) -> (r: bool)
    ensures
        r == is_ws(c),
{
    let u = c as u32;
    (0x09 <= u && u <= 0x0D) || u == 0x20 || u == 0x85 || u == 0xA0 || u == 0x1680
        || (0x2000 <= u && u <= 0x200A) || u == 0x2028 || u == 0x2029 || u == 0x202F || u == 0x205F
        || u == 0x3000
}

/// `c` with an ASCII capital letter turned into its small letter.
pub open spec fn ascii_lower_char(c: char) -> char {
    if 'A' <= c <= 'Z' { ((c as u32) + 32) as char } else { c }
}

/// `s` with its ASCII capital letters turned into small letters.
pub open spec fn ascii_lowercased(s: Seq<char>) -> Seq<char> {
    Seq::new(s.len(), |i: int| ascii_lower_char(s[i]))
}

/// Whether every character of `s` is ASCII.
pub open spec fn all_ascii(s: Seq<char>) -> bool {
    forall|i: int| 0 <= i < s.len() ==> (#[trigger] s[i] as u32) < 0x80
}

/// `str::to_lowercase`; what it returns is left to the name `lowercased`,
/// except for ASCII text, where it turns `A`..`Z` into `a`..`z` and keeps
/// every other character.
#[verifier::external_body]
pub(crate) fn str_to_lowercase(s: &str) -> (r: String)
    ensures
        r@ == lowercased(s@),
        all_ascii(s@) ==> r@ == ascii_lowercased(s@),
{
    s.to_lowercase()
}

/// The characters of `s`.
pub(crate) fn chars_of(s: &str) -> (v: Vec<char>)
    ensures
        v@ == s@,
{
    let mut v: Vec<char> = Vec::new();
    for c in it: s.chars()
        invariant
            v@ == it.seq().take(it.index() as int),
    {
        v.push(c);
    }
    v
}

/// The text of `bytes` when they are valid UTF-8 (`String::from_utf8`):
/// an error exactly when they are not, the decoded characters otherwise.
#[verifier::external_body]
pub(crate) fn string_from_utf8(bytes: Vec<u8>) -> (r: Result<String, std::string::FromUtf8Error>)
    ensures
        r is Ok <==> vstd::utf8::valid_utf8(bytes@),
        r matches Ok(s) ==> s@ == vstd::utf8::decode_utf8(bytes@),
{
    String::from_utf8(bytes)
}

/// `String` from its characters (`FromIterator<char>` from std).
#[verifier::external_body]
pub(crate) fn string_from_chars(chars: &[char]) -> (s: String)
    ensures
        s@ == chars@,
{
    chars.iter().collect()
}

/// The views of a sequence of character vectors.
pub open spec fn texts_view(v: Seq<Vec<char>>) -> Seq<Seq<char>> {
    Seq::new(v.len(), |k: int| v[k]@)
}

/// A copy of `s[a..b]`.
pub(crate) fn copy_range(s: &[char], a: usize, b: usize) -> (v: Vec<char>)
    requires
        a <= b <= s@.len(),
    ensures
        v@ == s@.subrange(a as int, b as int),
{
    let mut v: Vec<char> = Vec::new();
    let mut i: usize = a;
    while i < b
        invariant
            a <= i <= b <= s@.len(),
            v@ == s@.subrange(a as int, i as int),
        decreases b - i,
    {
        v.push(s[i]);
        i = i + 1;
        assert(v@ =~= s@.subrange(a as int, i as int));
    }
    v
}

/// The lowercase form of `s`: for ASCII text, `A`..`Z` turned into
/// `a`..`z`; otherwise what `str::to_lowercase` gives.
pub open spec fn lower_text(s: Seq<char>) -> Seq<char> {
    if all_ascii(s) { ascii_lowercased(s) } else { lowercased(s) }
}

/// The lowercase form of the characters `s`.
pub(crate) fn lower_chars(s: &[char]) -> (v: Vec<char>)
    ensures
        v@ == lower_text(s@),
{
    let st = string_from_chars(s);
    let low = str_to_lowercase(st.as_str());
    chars_of(low.as_str())
}

/// Whether two character sequences are equal.
pub(crate) fn chars_eq(a: &[char], b: &[char]) -> (r: bool)
    ensures
        r == (a@ == b@),
{
    if a.len() != b.len() {
        return false;
    }
    let mut i: usize = 0;
    while i < a.len()
        invariant
            a@.len() == b@.len(),
            i <= a@.len(),
            a@.take(i as int) == b@.take(i as int),
        decreases a@.len() - i,
    {
        if a[i] != b[i] {
            assert(a@[i as int] != b@[i as int]);
            return false;
        }
        i = i + 1;
        assert(a@.take(i as int) =~= b@.take(i as int)) by {
            assert(a@.take(i as int) =~= a@.take(i - 1).push(a@[i - 1]));
            assert(b@.take(i as int) =~= b@.take(i - 1).push(b@[i - 1]));
        }
    }
    assert(a@ =~= a@.take(a@.len() as int));
    assert(b@ =~= b@.take(b@.len() as int));
    true
}

/// Whether `c` occurs in `s`.
pub(crate) fn contains_char(s: &[char], c: char) -> (r: bool)
    ensures
        r == s@.contains(c),
{
    let mut i: usize = 0;
    while i < s.len()
        invariant
            i <= s@.len(),
            forall|k: int| 0 <= k < i ==> s@[k] != c,
        decreases s@.len() - i,
    {
        if s[i] == c {
            assert(s@[i as int] == c);
            return true;
        }
        i = i + 1;
    }
    false
}

/// Whether `pat` occurs in `s` at position `i`.
pub open spec fn occurs_at(s: Seq<char>, pat: Seq<char>, i: int) -> bool {
    0 <= i && i + pat.len() <= s.len() && s.subrange(i, i + pat.len()) == pat
}

/// Whether `pat` occurs in `s` (`str::contains` with a string pattern).
pub open spec fn has_substring(s: Seq<char>, pat: Seq<char>) -> bool {
    exists|i: int| occurs_at(s, pat, i)
}

/// Whether `pat` occurs in `s`.
pub(crate) fn contains_chars(s: &[char], pat: &[char]) -> (r: bool)
    ensures
        r == has_substring(s@, pat@),
{
    if pat.len() > s.len() {
        assert forall|i: int| !occurs_at(s@, pat@, i) by {}
        return false;
    }
    if pat.len() == 0 {
        assert(s@.subrange(0, 0) =~= pat@);
        assert(occurs_at(s@, pat@, 0));
        return true;
    }
    let mut i: usize = 0;
    let last: usize = s.len() - pat.len();
    while i <= last
        invariant
            0 < pat.len() <= s.len(),
            last == s.len() - pat.len(),
            i <= last + 1,
            forall|k: int| 0 <= k < i ==> !occurs_at(s@, pat@, k),
        decreases s@.len() - i,
    {
        let mut j: usize = 0;
        let mut same = true;
        assert(s@.subrange(i as int, i as int) =~= pat@.take(0));
        while j < pat.len()
            invariant
                i + pat.len() <= s.len(),
                j <= pat@.len(),
                same == (s@.subrange(i as int, i + j) == pat@.take(j as int)),
            decreases pat@.len() - j,
        {
            if same && s[i + j] != pat[j] {
                same = false;
            }
            j = j + 1;
            assert(s@.subrange(i as int, i + j) =~= s@.subrange(i as int, i + j - 1).push(s@[i + j - 1]));
            assert(pat@.take(j as int) =~= pat@.take(j - 1).push(pat@[j - 1]));
            if !same {
                assert(s@.subrange(i as int, i + j) != pat@.take(j as int)) by {
                    if s@.subrange(i as int, i + j - 1) == pat@.take(j - 1) {
                        assert(s@.subrange(i as int, i + j)[j - 1] != pat@.take(j as int)[j - 1]);
                    } else {
                        if s@.subrange(i as int, i + j) == pat@.take(j as int) {
                            assert(s@.subrange(i as int, i + j - 1) =~= s@.subrange(i as int, i + j).take(j - 1));
                            assert(pat@.take(j - 1) =~= pat@.take(j as int).take(j - 1));
                        }
                    }
                }
            }
        }
        assert(pat@.take(pat@.len() as int) =~= pat@);
        if same {
            assert(occurs_at(s@, pat@, i as int));
            return true;
        }
        i = i + 1;
    }
    assert forall|k: int| !occurs_at(s@, pat@, k) by {
        if 0 <= k < i {
        }
    }
    false
}

/// The index of the first `c` at or after `i`, or the length.
pub open spec fn find_from(s: Seq<char>, c: char, i: int) -> int
    decreases s.len() - i,
{
    if i < 0 || i >= s.len() { s.len() as int } else if s[i] == c { i } else { find_from(s, c, i + 1) }
}

/// The index of the first `c` in `s`, or the length.
pub(crate) fn find_char(s: &[char], c: char) -> (k: usize)
    ensures
        k == find_from(s@, c, 0),
        k <= s@.len(),
{
    let mut i: usize = 0;
    while i < s.len() && s[i] != c
        invariant
            i <= s@.len(),
            find_from(s@, c, 0) == find_from(s@, c, i as int),
        decreases s@.len() - i,
    {
        i = i + 1;
    }
    i
}

/// The fields of `s` separated by `sep` (`str::split` with a char
/// pattern): never empty, and empty fields are kept.
pub open spec fn split_on(s: Seq<char>, sep: char) -> Seq<Seq<char>>
    decreases s.len(),
{
    if s.len() == 0 {
        seq![Seq::empty()]
    } else {
        let init = split_on(s.drop_last(), sep);
        if s.last() == sep {
            init.push(Seq::empty())
        } else {
            init.update(init.len() - 1, init.last().push(s.last()))
        }
    }
}

pub proof fn lemma_split_on_nonempty(s: Seq<char>, sep: char)
    ensures
        split_on(s, sep).len() >= 1,
    decreases s.len(),
{
    if s.len() > 0 {
        lemma_split_on_nonempty(s.drop_last(), sep);
    }
}

/// The fields of `s` separated by `sep` (`str::split`).
pub(crate) fn split_fields(s: &[char], sep: char) -> (v: Vec<Vec<char>>)
    ensures
        texts_view(v@) == split_on(s@, sep),
{
    let ghost sv = s@;
    let mut out: Vec<Vec<char>> = Vec::new();
    let mut start: usize = 0;
    let mut i: usize = 0;
    assert(sv.take(0) =~= Seq::<char>::empty());
    assert(split_on(sv.take(0), sep) =~= texts_view(out@).push(sv.subrange(0, 0)));
    while i < s.len()
        invariant
            sv == s@,
            start <= i <= sv.len(),
            split_on(sv.take(i as int), sep) == texts_view(out@).push(sv.subrange(start as int, i as int)),
        decreases sv.len() - i,
    {
        assert(sv.take(i + 1).drop_last() =~= sv.take(i as int));
        assert(sv.take(i + 1).last() == sv[i as int]);
        let ghost init = split_on(sv.take(i as int), sep);
        assert(split_on(sv.take(i + 1), sep) == if sv[i as int] == sep {
            init.push(Seq::empty())
        } else {
            init.update(init.len() - 1, init.last().push(sv[i as int]))
        });
        if s[i] == sep {
            let f = copy_range(s, start, i);
            let ghost before = out@;
            out.push(f);
            assert(texts_view(out@) =~= texts_view(before).push(f@));
            start = i + 1;
            assert(sv.subrange(start as int, i + 1) =~= Seq::<char>::empty());
            assert(split_on(sv.take(i + 1), sep) =~= texts_view(out@).push(sv.subrange(start as int, i + 1)));
        } else {
            assert(sv.subrange(start as int, i as int).push(sv[i as int]) =~= sv.subrange(start as int, i + 1));
            assert(split_on(sv.take(i + 1), sep) =~= texts_view(out@).push(sv.subrange(start as int, i + 1)));
        }
        i = i + 1;
    }
    assert(sv.take(sv.len() as int) =~= sv);
    let f = copy_range(s, start, s.len());
    let ghost before = out@;
    out.push(f);
    assert(texts_view(out@) =~= texts_view(before).push(f@));
    out
}

// ---------------------------------------------------------------------
// Trimming
// ---------------------------------------------------------------------

/// `s` without its leading whitespace.
pub open spec fn trim_start(s: Seq<char>) -> Seq<char>
    decreases s.len(),
{
    if s.len() > 0 && is_ws(s[0]) { trim_start(s.drop_first()) } else { s }
}

/// `s` without its trailing whitespace.
pub open spec fn trim_end(s: Seq<char>) -> Seq<char>
    decreases s.len(),
{
    if s.len() > 0 && is_ws(s.last()) { trim_end(s.drop_last()) } else { s }
}

/// `s` without leading and trailing whitespace (`str::trim`).
pub open spec fn trim(s: Seq<char>) -> Seq<char> {
    trim_end(trim_start(s))
}

/// `s` with whitespace removed at both ends.
pub(crate) fn trim_chars(s: &[char]) -> (v: Vec<char>)
    ensures
        v@ == trim(s@),
{
    let mut a: usize = 0;
    assert(s@.skip(0) =~= s@);
    while a < s.len() && char_is_whitespace(s[a])
        invariant
            a <= s@.len(),
            trim_start(s@) == trim_start(s@.skip(a as int)),
        decreases s@.len() - a,
    {
        assert(s@.skip(a as int).drop_first() =~= s@.skip(a + 1));
        a = a + 1;
    }
    let ghost mid = s@.skip(a as int);
    assert(trim_start(s@) == mid);
    let mut b: usize = s.len();
    while b > a && char_is_whitespace(s[b - 1])
        invariant
            a <= b <= s@.len(),
            mid == s@.skip(a as int),
            trim_end(mid) == trim_end(s@.subrange(a as int, b as int)),
        decreases b,
    {
        assert(s@.subrange(a as int, b as int).drop_last() =~= s@.subrange(a as int, b - 1));
        b = b - 1;
    }
    assert(mid =~= s@.subrange(a as int, s@.len() as int));
    copy_range(s, a, b)
}

// ---------------------------------------------------------------------
// Lines
// ---------------------------------------------------------------------

/// The index of the first line feed at or after `i`, or the length.
pub open spec fn next_newline(s: Seq<char>, i: int) -> int
    decreases s.len() - i,
{
    if i < 0 || i >= s.len() { s.len() as int } else if s[i] == '\n' { i } else { next_newline(s, i + 1) }
}

/// A line ended by a line feed, without a carriage return before it.
pub open spec fn strip_cr(l: Seq<char>) -> Seq<char> {
    if l.len() > 0 && l.last() == '\r' { l.drop_last() } else { l }
}

/// The lines of `s` from index `start` on, as `str::lines` yields them:
/// split at line feeds, a carriage return before a line feed dropped, and
/// no empty line after a final line feed.
pub open spec fn lines_from(s: Seq<char>, start: int) -> Seq<Seq<char>>
    decreases s.len() - start,
{
    if start < 0 || start >= s.len() {
        Seq::empty()
    } else {
        let k = next_newline(s, start);
        if start <= k < s.len() {
            seq![strip_cr(s.subrange(start, k))] + lines_from(s, k + 1)
        } else {
            seq![s.subrange(start, s.len() as int)]
        }
    }
}

/// The lines of `s`.
pub open spec fn lines_of(s: Seq<char>) -> Seq<Seq<char>> {
    lines_from(s, 0)
}

proof fn lemma_next_newline_end(s: Seq<char>, i: int)
    requires
        0 <= i <= s.len(),
        forall|k: int| i <= k < s.len() ==> s[k] != '\n',
    ensures
        next_newline(s, i) == s.len(),
    decreases s.len() - i,
{
    if i < s.len() {
        lemma_next_newline_end(s, i + 1);
    }
}

proof fn lemma_next_newline_at(s: Seq<char>, i: int, j: int)
    requires
        0 <= i <= j < s.len(),
        s[j] == '\n',
        forall|k: int| i <= k < j ==> s[k] != '\n',
    ensures
        next_newline(s, i) == j,
    decreases j - i,
{
    if i < j {
        lemma_next_newline_at(s, i + 1, j);
    }
}

fn strip_cr_vec(l: Vec<char>) -> (v: Vec<char>)
    ensures
        v@ == strip_cr(l@),
{
    let mut l = l;
    if l.len() > 0 && l[l.len() - 1] == '\r' {
        l.pop();
    }
    l
}

/// The lines of `s` (`str::lines`).
pub(crate) fn split_lines(s: &[char]) -> (v: Vec<Vec<char>>)
    ensures
        texts_view(v@) == lines_of(s@),
{
    let mut out: Vec<Vec<char>> = Vec::new();
    let mut start: usize = 0;
    let mut i: usize = 0;
    while i < s.len()
        invariant
            start <= i <= s@.len(),
            forall|k: int| start <= k < i ==> s@[k] != '\n',
            lines_of(s@) == texts_view(out@) + lines_from(s@, start as int),
        decreases s@.len() - i,
    {
        if s[i] == '\n' {
            proof {
                lemma_next_newline_at(s@, start as int, i as int);
            }
            let line = strip_cr_vec(copy_range(s, start, i));
            let ghost before = out@;
            out.push(line);
            assert(texts_view(out@) =~= texts_view(before).push(line@));
            assert(lines_from(s@, start as int) == seq![line@] + lines_from(s@, i + 1));
            assert(texts_view(out@) + lines_from(s@, i + 1) =~= texts_view(before) + lines_from(s@, start as int));
            start = i + 1;
        }
        i = i + 1;
    }
    if start < s.len() {
        proof {
            lemma_next_newline_end(s@, start as int);
        }
        let line = copy_range(s, start, s.len());
        let ghost before = out@;
        out.push(line);
        assert(texts_view(out@) =~= texts_view(before).push(line@));
        assert(texts_view(out@) =~= texts_view(before) + lines_from(s@, start as int));
    } else {
        assert(texts_view(out@) =~= texts_view(out@) + lines_from(s@, start as int));
    }
    out
}

// ---------------------------------------------------------------------
// Words
// ---------------------------------------------------------------------

/// The first index at or after `i` holding a non-whitespace character,
/// or the length.
pub open spec fn skip_ws(s: Seq<char>, i: int) -> int
    decreases s.len() - i,
{
    if i < 0 || i >= s.len() { s.len() as int } else if !is_ws(s[i]) { i } else { skip_ws(s, i + 1) }
}

/// The first index at or after `i` holding whitespace, or the length.
pub open spec fn word_end(s: Seq<char>, i: int) -> int
    decreases s.len() - i,
{
    if i < 0 || i >= s.len() { s.len() as int } else if is_ws(s[i]) { i } else { word_end(s, i + 1) }
}

/// The words of `s` from index `i` on (`str::split_whitespace`): the
/// maximal runs of non-whitespace characters.
pub open spec fn words_from(s: Seq<char>, i: int) -> Seq<Seq<char>>
    decreases s.len() - i,
{
    let a = skip_ws(s, i);
    if i < 0 || a >= s.len() {
        Seq::empty()
    } else {
        let b = word_end(s, a);
        if b <= i || b > s.len() { Seq::empty() } else { seq![s.subrange(a, b)] + words_from(s, b) }
    }
}

/// The words of `s`.
pub open spec fn words_of(s: Seq<char>) -> Seq<Seq<char>> {
    words_from(s, 0)
}

proof fn lemma_skip_ws_range(s: Seq<char>, i: int)
    requires
        0 <= i <= s.len(),
    ensures
        i <= skip_ws(s, i) <= s.len(),
    decreases s.len() - i,
{
    if i < s.len() && is_ws(s[i]) {
        lemma_skip_ws_range(s, i + 1);
    }
}

proof fn lemma_word_end_range(s: Seq<char>, i: int)
    requires
        0 <= i < s.len(),
        !is_ws(s[i]),
    ensures
        i < word_end(s, i) <= s.len(),
    decreases s.len() - i,
{
    assert(word_end(s, i) == word_end(s, i + 1));
    if i + 1 < s.len() && !is_ws(s[i + 1]) {
        lemma_word_end_range(s, i + 1);
    } else {
        assert(word_end(s, i + 1) == i + 1);
    }
}

/// The words of `s` (`str::split_whitespace`).
pub(crate) fn split_words(s: &[char]) -> (v: Vec<Vec<char>>)
    ensures
        texts_view(v@) == words_of(s@),
{
    let mut out: Vec<Vec<char>> = Vec::new();
    let mut i: usize = 0;
    loop
        invariant
            i <= s@.len(),
            words_of(s@) == texts_view(out@) + words_from(s@, i as int),
        decreases s@.len() - i,
    {
        let ghost i0 = i as int;
        let mut a: usize = i;
        while a < s.len() && char_is_whitespace(s[a])
            invariant
                i0 <= a <= s@.len(),
                skip_ws(s@, i0) == skip_ws(s@, a as int),
            decreases s@.len() - a,
        {
            a = a + 1;
        }
        if a >= s.len() {
            assert(texts_view(out@) =~= texts_view(out@) + words_from(s@, i0));
            return out;
        }
        let mut b: usize = a;
        while b < s.len() && !char_is_whitespace(s[b])
            invariant
                a <= b <= s@.len(),
                a < s@.len(),
                !is_ws(s@[a as int]),
                word_end(s@, a as int) == word_end(s@, b as int),
            decreases s@.len() - b,
        {
            b = b + 1;
        }
        proof {
            lemma_word_end_range(s@, a as int);
        }
        let w = copy_range(s, a, b);
        let ghost before = out@;
        out.push(w);
        assert(texts_view(out@) =~= texts_view(before).push(w@));
        assert(words_from(s@, i0) == seq![w@] + words_from(s@, b as int));
        assert(texts_view(out@) + words_from(s@, b as int) =~= texts_view(before) + words_from(s@, i0));
        i = b;
    }
}

/// Pieces joined with `sep` between each two.
pub open spec fn join_with(ps: Seq<Seq<char>>, sep: char) -> Seq<char>
    decreases ps.len(),
{
    if ps.len() == 0 {
        Seq::empty()
    } else if ps.len() == 1 {
        ps[0]
    } else {
        join_with(ps.drop_last(), sep).push(sep) + ps.last()
    }
}

/// Splitting at a separator loses nothing and cuts only there: joining
/// the fields with the separator gives the text back, and no field holds
/// the separator.
pub proof fn lemma_split_join(s: Seq<char>, sep: char)
    ensures
        join_with(split_on(s, sep), sep) == s,
        forall|i: int| 0 <= i < split_on(s, sep).len() ==> !(#[trigger] split_on(s, sep)[i]).contains(sep),
    decreases s.len(),
{
    lemma_split_on_nonempty(s, sep);
    if s.len() == 0 {
        assert(split_on(s, sep) =~= seq![Seq::<char>::empty()]);
        assert(s =~= Seq::<char>::empty());
    } else {
        let d = s.drop_last();
        let x = s.last();
        lemma_split_join(d, sep);
        lemma_split_on_nonempty(d, sep);
        let init = split_on(d, sep);
        let now = split_on(s, sep);
        if x == sep {
            assert(now == init.push(Seq::<char>::empty()));
            assert(now.drop_last() =~= init);
            assert(join_with(now, sep) == join_with(init, sep).push(sep) + Seq::<char>::empty());
            assert(join_with(init, sep).push(sep) + Seq::<char>::empty() =~= d.push(sep));
            assert(d.push(sep) =~= s);
            assert forall|i: int| 0 <= i < now.len() implies !(#[trigger] now[i]).contains(sep) by {
                if i < init.len() {
                    assert(now[i] == init[i]);
                } else {
                    assert(now[i] =~= Seq::<char>::empty());
                }
            }
        } else {
            let k = init.len() - 1;
            let lastp = init.last().push(x);
            assert(now == init.update(k, lastp));
            if init.len() == 1 {
                assert(join_with(now, sep) == now[0]);
                assert(init[0] == d);
                assert(lastp =~= s);
            } else {
                assert(now.drop_last() =~= init.drop_last());
                assert(join_with(now, sep) == join_with(init.drop_last(), sep).push(sep) + lastp);
                assert(join_with(init, sep) == join_with(init.drop_last(), sep).push(sep) + init.last());
                assert(join_with(init.drop_last(), sep).push(sep) + lastp =~= (join_with(init.drop_last(), sep).push(sep) + init.last()).push(x));
                assert(d.push(x) =~= s);
            }
            assert forall|i: int| 0 <= i < now.len() implies !(#[trigger] now[i]).contains(sep) by {
                if i < k {
                    assert(now[i] == init[i]);
                } else {
                    assert(!init[k].contains(sep));
                    assert forall|j: int| 0 <= j < lastp.len() implies lastp[j] != sep by {
                        if j < init[k].len() {
                            assert(lastp[j] == init[k][j]);
                        }
                    }
                }
            }
        }
    }
}

/// Trimming removes only whitespace, and all of it at both ends: the text
/// is some whitespace, the trimmed text, and some whitespace, and the
/// trimmed text neither starts nor ends with whitespace.
pub proof fn lemma_trim(s: Seq<char>)
    ensures
        exists|a: int, b: int| 0 <= a <= b <= s.len() && #[trigger] s.subrange(a, b) == trim(s)
            && (forall|i: int| 0 <= i < a ==> is_ws(s[i]))
            && (forall|i: int| b <= i < s.len() ==> is_ws(s[i])),
        trim(s).len() > 0 ==> !is_ws(trim(s)[0]) && !is_ws(trim(s).last()),
{
    let a = lemma_trim_start(s);
    let t = trim_start(s);
    let b = lemma_trim_end(t);
    assert(s.subrange(a, a + b) =~= t.subrange(0, b));
    assert forall|i: int| a + b <= i < s.len() implies is_ws(s[i]) by {
        assert(s[i] == t[i - a]);
    }
    if trim(s).len() > 0 {
        assert(trim(s)[0] == t[0]);
    }
}

proof fn lemma_trim_start(s: Seq<char>) -> (a: int)
    ensures
        0 <= a <= s.len(),
        trim_start(s) == s.skip(a),
        forall|i: int| 0 <= i < a ==> is_ws(s[i]),
        trim_start(s).len() > 0 ==> !is_ws(trim_start(s)[0]),
    decreases s.len(),
{
    if s.len() > 0 && is_ws(s[0]) {
        let a1 = lemma_trim_start(s.drop_first());
        assert(s.drop_first().skip(a1) =~= s.skip(a1 + 1));
        assert forall|i: int| 0 <= i < a1 + 1 implies is_ws(s[i]) by {
            if i > 0 {
                assert(s[i] == s.drop_first()[i - 1]);
            }
        }
        a1 + 1
    } else {
        assert(s.skip(0) =~= s);
        0
    }
}

proof fn lemma_trim_end(s: Seq<char>) -> (b: int)
    ensures
        0 <= b <= s.len(),
        trim_end(s) == s.take(b),
        trim_end(s) == s.subrange(0, b),
        forall|i: int| b <= i < s.len() ==> is_ws(s[i]),
        trim_end(s).len() > 0 ==> !is_ws(trim_end(s).last()),
        trim_end(s).len() > 0 ==> trim_end(s)[0] == s[0],
    decreases s.len(),
{
    if s.len() > 0 && is_ws(s.last()) {
        let b1 = lemma_trim_end(s.drop_last());
        assert(s.drop_last().take(b1) =~= s.take(b1));
        assert forall|i: int| b1 <= i < s.len() implies is_ws(s[i]) by {
            if i < s.len() - 1 {
                assert(s[i] == s.drop_last()[i]);
            }
        }
        b1
    } else {
        assert(s.take(s.len() as int) =~= s);
        s.len() as int
    }
}

} // verus!
