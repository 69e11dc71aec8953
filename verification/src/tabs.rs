//! The tabs of a window: which are open, in what order, which one is
//! active, and what they are called.

use vstd::prelude::*;
use crate::text::string_from_chars;

verus! {

/// The open tabs, in display order, and the active one.
pub struct Tabs<T> {
    tabs: Vec<T>,
    active: usize,
}

/// The active index lies within the tabs (and is 0 when there are none).
pub open spec fn tabs_wf(len: nat, active: nat) -> bool {
    if len == 0 { active == 0 } else { active < len }
}

impl<T> Tabs<T> {
    /// The tabs in display order.
    pub closed spec fn items(&self) -> Seq<T> {
        self.tabs@
    }

    /// The index of the active tab.
    pub closed spec fn active_index(&self) -> nat {
        self.active as nat
    }

    /// The active index lies within the tabs.
    pub open spec fn wf(&self) -> bool {
        tabs_wf(self.items().len(), self.active_index())
    }

    /// No tabs yet.
    pub fn new() -> (t: Self)
        ensures
            t.wf(),
            t.items() == Seq::<T>::empty(),
            t.active_index() == 0,
    {
        Tabs { tabs: Vec::new(), active: 0 }
    }

    pub fn len(&self) -> (n: usize)
        ensures
            n == self.items().len(),
    {
        self.tabs.len()
    }

    /// The index of the active tab.
    pub fn active(&self) -> (i: usize)
        ensures
            i == self.active_index(),
    {
        self.active
    }

    /// Tab `i`.
    pub fn get(&self, i: usize) -> (t: &T)
        requires
            i < self.items().len(),
        ensures
            *t == self.items()[i as int],
    {
        &self.tabs[i]
    }

    /// Tab `i`, to change it.
    pub fn get_mut(&mut self, i: usize) -> (t: &mut T)
        requires
            i < old(self).items().len(),
        ensures
            *t == old(self).items()[i as int],
            final(self).items() == old(self).items().update(i as int, *final(t)),
            final(self).active_index() == old(self).active_index(),
            final(self).wf() == old(self).wf(),
    {
        &mut self.tabs[i]
    }

    /// Adds a tab at the end and makes it active.
    pub fn push(&mut self, tab: T)
        requires
            old(self).wf(),
        ensures
            final(self).wf(),
            final(self).items() == old(self).items().push(tab),
            final(self).active_index() == old(self).items().len(),
    {
        self.tabs.push(tab);
        self.active = self.tabs.len() - 1;
    }

    /// Closes tab `index` (out of range: nothing happens); the active index
    /// stays unless it ran past the end. Returns whether the last tab
    /// closed, after which the window should quit.
    pub fn close(&mut self, index: usize) -> (now_empty: bool)
        requires
            old(self).wf(),
        ensures
            final(self).wf(),
            index < old(self).items().len() ==> final(self).items() == old(self).items().remove(index as int),
            index >= old(self).items().len() ==> final(self).items() == old(self).items(),
            final(self).active_index() == if index < old(self).items().len() && final(self).items().len() > 0
                && old(self).active_index() >= final(self).items().len() {
                (final(self).items().len() - 1) as nat
            } else if final(self).items().len() == 0 {
                0
            } else {
                old(self).active_index()
            },
            now_empty == (index < old(self).items().len() && final(self).items().len() == 0),
    {
        if index < self.tabs.len() {
            self.tabs.remove(index);
            if self.tabs.len() == 0 {
                self.active = 0;
                return true;
            }
            if self.active >= self.tabs.len() {
                self.active = self.tabs.len() - 1;
            }
        }
        false
    }

    /// Makes tab `index` active, if it exists.
    pub fn switch(&mut self, index: usize)
        requires
            old(self).wf(),
        ensures
            final(self).wf(),
            final(self).items() == old(self).items(),
            final(self).active_index() == if index < old(self).items().len() {
                index as nat
            } else {
                old(self).active_index()
            },
    {
        if index < self.tabs.len() {
            self.active = index;
        }
    }

    /// Activates the next tab, wrapping around to the first.
    pub fn next(&mut self)
        requires
            old(self).wf(),
            old(self).items().len() > 0,
        ensures
            final(self).wf(),
            final(self).items() == old(self).items(),
            final(self).active_index() == (old(self).active_index() + 1) % old(self).items().len(),
    {
        let len = self.tabs.len();
        let next = if self.active == len - 1 { 0 } else { self.active + 1 };
        proof {
            if self.active == len - 1 {
                vstd::arithmetic::div_mod::lemma_mod_self_0(len as int);
            } else {
                vstd::arithmetic::div_mod::lemma_small_mod((self.active + 1) as nat, len as nat);
            }
        }
        self.switch(next);
    }

    /// Activates the previous tab, wrapping around to the last.
    pub fn prev(&mut self)
        requires
            old(self).wf(),
            old(self).items().len() > 0,
        ensures
            final(self).wf(),
            final(self).items() == old(self).items(),
            final(self).active_index() == if old(self).active_index() == 0 {
                (old(self).items().len() - 1) as nat
            } else {
                (old(self).active_index() - 1) as nat
            },
    {
        let prev = if self.active == 0 { self.tabs.len() - 1 } else { self.active - 1 };
        self.switch(prev);
    }

    /// Moves the active tab one place to the left, keeping it active.
    pub fn move_left(&mut self)
        requires
            old(self).wf(),
        ensures
            final(self).wf(),
            old(self).active_index() > 0 ==> final(self).items() == swapped(old(self).items(), old(self).active_index() - 1)
                && final(self).active_index() == old(self).active_index() - 1,
            old(self).active_index() == 0 ==> final(self).items() == old(self).items() && final(self).active_index() == 0,
    {
        if self.active > 0 {
            let i = self.active;
            let t = self.tabs.remove(i);
            self.tabs.insert(i - 1, t);
            self.active = i - 1;
            assert(self.tabs@ =~= swapped(old(self).items(), i - 1));
        }
    }

    /// Moves the active tab one place to the right, keeping it active.
    pub fn move_right(&mut self)
        requires
            old(self).wf(),
        ensures
            final(self).wf(),
            old(self).active_index() + 1 < old(self).items().len() ==> final(self).items() == swapped(old(self).items(), old(self).active_index() as int)
                && final(self).active_index() == old(self).active_index() + 1,
            old(self).active_index() + 1 >= old(self).items().len() ==> final(self).items() == old(self).items()
                && final(self).active_index() == old(self).active_index(),
    {
        if self.tabs.len() > 0 && self.active < self.tabs.len() - 1 {
            let i = self.active;
            let t = self.tabs.remove(i);
            self.tabs.insert(i + 1, t);
            self.active = i + 1;
            assert(self.tabs@ =~= swapped(old(self).items(), i as int));
        }
    }
}

/// `s` with elements `i` and `i + 1` exchanged.
pub open spec fn swapped<T>(s: Seq<T>, i: int) -> Seq<T> {
    s.update(i, s[i + 1]).update(i + 1, s[i])
}

/// Moving a tab right and then left again restores the order and the
/// active tab.
pub proof fn lemma_swap_twice<T>(s: Seq<T>, i: int)
    requires
        0 <= i && i + 1 < s.len(),
    ensures
        swapped(swapped(s, i), i) == s,
{
    assert(swapped(swapped(s, i), i) =~= s);
}

/// Going to the next tab `n` times from tab `a` lands on tab
/// `(a + n) % len`; after `len` steps it is back where it started.
pub proof fn lemma_next_cycles(a: nat, n: nat, len: nat)
    requires
        len > 0,
        a < len,
    ensures
        next_n(a, n, len) == (a + n) % len,
        next_n(a, len, len) == a,
{
    lemma_next_n_mod(a, n, len);
    lemma_next_n_mod(a, len, len);
    vstd::arithmetic::div_mod::lemma_mod_add_multiples_vanish(a as int, len as int);
    vstd::arithmetic::div_mod::lemma_small_mod(a, len);
}

/// The active index after `n` steps to the next tab.
pub open spec fn next_n(a: nat, n: nat, len: nat) -> int
    decreases n,
{
    if n == 0 { a as int } else { (next_n(a, (n - 1) as nat, len) + 1) % (len as int) }
}

proof fn lemma_next_n_mod(a: nat, n: nat, len: nat)
    requires
        len > 0,
        a < len,
    ensures
        next_n(a, n, len) == (a + n) % len,
    decreases n,
{
    if n == 0 {
        vstd::arithmetic::div_mod::lemma_small_mod(a, len);
    } else {
        lemma_next_n_mod(a, (n - 1) as nat, len);
        vstd::arithmetic::div_mod::lemma_add_mod_noop((a + n - 1) as int, 1, len as int);
        vstd::arithmetic::div_mod::lemma_mod_twice((a + n - 1) as int, len as int);
        if len > 1 {
            vstd::arithmetic::div_mod::lemma_small_mod(1, len);
        } else {
            assert(1int % 1int == 0) by (nonlinear_arith);
        }
    }
}

// ---------------------------------------------------------------------
// Titles
// ---------------------------------------------------------------------

/// The decimal digits of `n`.
pub open spec fn dec_chars(n: nat) -> Seq<char>
    decreases n,
{
    if n < 10 { seq![(48 + n) as char] } else { dec_chars(n / 10).push((48 + n % 10) as char) }
}

fn push_dec(out: &mut Vec<char>, n: usize)
    ensures
        final(out)@ == old(out)@ + dec_chars(n as nat),
    decreases n,
{
    if n >= 10 {
        push_dec(out, n / 10);
    }
    let d = (n % 10) as u8;
    out.push((48 + d) as char);
    assert(final(out)@ =~= old(out)@ + dec_chars(n as nat));
}

/// The title a tab shows: its terminal's title, or "Tab n" (1-based)
/// while that is empty.
pub open spec fn spec_tab_title(title: Seq<char>, index: nat) -> Seq<char> {
    if title.len() == 0 { seq!['T', 'a', 'b', ' '] + dec_chars(index + 1) } else { title }
}

/// The title a tab shows.
pub fn tab_title(title: &str, index: usize) -> (s: String)
    requires
        index < usize::MAX,
    ensures
        s@ == spec_tab_title(title@, index as nat),
{
    let cs = crate::text::chars_of(title);
    if cs.len() == 0 {
        let mut v: Vec<char> = Vec::new();
        v.push('T');
        v.push('a');
        v.push('b');
        v.push(' ');
        push_dec(&mut v, index + 1);
        assert(v@ =~= seq!['T', 'a', 'b', ' '] + dec_chars((index + 1) as nat));
        string_from_chars(v.as_slice())
    } else {
        string_from_chars(cs.as_slice())
    }
}

pub open spec fn app_name() -> Seq<char> {
    seq!['T', 'e', 'r', 'm', 'i', 'n', 'a', 'l']
}

/// The window title: "Terminal", or "<title> - Terminal".
pub open spec fn spec_window_title(title: Seq<char>) -> Seq<char> {
    if title.len() == 0 { app_name() } else { title + seq![' ', '-', ' '] + app_name() }
}

/// The window title for the active tab's terminal title.
pub fn window_title(title: &str) -> (s: String)
    ensures
        s@ == spec_window_title(title@),
{
    let mut v = crate::text::chars_of(title);
    if v.len() > 0 {
        v.push(' ');
        v.push('-');
        v.push(' ');
    }
    v.push('T');
    v.push('e');
    v.push('r');
    v.push('m');
    v.push('i');
    v.push('n');
    v.push('a');
    v.push('l');
    assert(v@ =~= spec_window_title(title@));
    string_from_chars(v.as_slice())
}

// ---------------------------------------------------------------------
// Favorites
// ---------------------------------------------------------------------

/// The index of the first entry equal to `key`, or the length.
pub open spec fn index_of_key(favs: Seq<Seq<char>>, key: Seq<char>, i: int) -> int
    decreases favs.len() - i,
{
    if i < 0 || i >= favs.len() { favs.len() as int } else if favs[i] == key { i } else { index_of_key(favs, key, i + 1) }
}

/// A favorite toggled: its first occurrence removed, or appended when
/// absent.
pub open spec fn spec_toggle(favs: Seq<Seq<char>>, key: Seq<char>) -> Seq<Seq<char>> {
    let p = index_of_key(favs, key, 0);
    if p < favs.len() { favs.remove(p) } else { favs.push(key) }
}

pub open spec fn strings_view(v: Seq<String>) -> Seq<Seq<char>> {
    Seq::new(v.len(), |k: int| v[k]@)
}

/// Toggles `key` among the favorites.
pub fn toggle_favorite(favs: &mut Vec<String>, key: &str)
    ensures
        strings_view(final(favs)@) == spec_toggle(strings_view(old(favs)@), key@),
{
    let ghost fv = strings_view(favs@);
    let k = string_from_chars(crate::text::chars_of(key).as_slice());
    let mut i: usize = 0;
    while i < favs.len()
        invariant
            i <= favs@.len(),
            favs@ == old(favs)@,
            fv == strings_view(favs@),
            k@ == key@,
            index_of_key(fv, key@, 0) == index_of_key(fv, key@, i as int),
        decreases favs@.len() - i,
    {
        if favs[i] == k {
            favs.remove(i);
            assert(strings_view(favs@) =~= fv.remove(i as int));
            return;
        }
        i = i + 1;
    }
    favs.push(k);
    assert(strings_view(favs@) =~= fv.push(key@));
}

/// Toggling a key that is not a favorite twice leaves the favorites as
/// they were.
pub proof fn lemma_toggle_twice(favs: Seq<Seq<char>>, key: Seq<char>)
    requires
        forall|i: int| 0 <= i < favs.len() ==> favs[i] != key,
    ensures
        spec_toggle(spec_toggle(favs, key), key) == favs,
{
    lemma_index_absent(favs, key, 0);
    let f1 = favs.push(key);
    lemma_index_found(f1, key, 0, favs.len() as int);
    assert(f1.remove(favs.len() as int) =~= favs);
}

proof fn lemma_index_absent(favs: Seq<Seq<char>>, key: Seq<char>, i: int)
    requires
        0 <= i <= favs.len(),
        forall|k: int| 0 <= k < favs.len() ==> favs[k] != key,
    ensures
        index_of_key(favs, key, i) == favs.len(),
    decreases favs.len() - i,
{
    if i < favs.len() {
        lemma_index_absent(favs, key, i + 1);
    }
}

proof fn lemma_index_found(favs: Seq<Seq<char>>, key: Seq<char>, i: int, j: int)
    requires
        0 <= i <= j < favs.len(),
        favs[j] == key,
        forall|k: int| i <= k < j ==> favs[k] != key,
    ensures
        index_of_key(favs, key, i) == j,
    decreases j - i,
{
    if i < j {
        lemma_index_found(favs, key, i + 1, j);
    }
}

/// The digits of a tab number are its decimal numeral: only digits, no
/// leading zero, and their value is the number.
pub proof fn lemma_dec_chars(n: nat)
    ensures
        crate::pty::ssh_config::dec_value(dec_chars(n)) == n,
        crate::pty::ssh_config::all_digits(dec_chars(n)),
        dec_chars(n).len() >= 1,
        n > 0 ==> dec_chars(n)[0] != '0',
    decreases n,
{
    if n >= 10 {
        lemma_dec_chars(n / 10);
        let d = dec_chars(n / 10);
        let s = d.push((48 + n % 10) as char);
        assert(s.drop_last() =~= d);
        assert(s.last() == (48 + n % 10) as char);
        assert(((48 + n % 10) as char) as int == 48 + n % 10);
        assert((n / 10) * 10 + n % 10 == n);
        assert(crate::pty::ssh_config::dec_value(s) == crate::pty::ssh_config::dec_value(d) * 10 + (s.last() as int - '0' as int));
        assert(s[0] == d[0]);
        assert forall|i: int| 0 <= i < s.len() implies crate::pty::ssh_config::is_digit(#[trigger] s[i]) by {
            if i < d.len() {
                assert(s[i] == d[i]);
            }
        }
    } else {
        let s = dec_chars(n);
        assert(s.drop_last() =~= Seq::<char>::empty());
        assert(((48 + n) as char) as int == 48 + n);
        assert(crate::pty::ssh_config::dec_value(s) == crate::pty::ssh_config::dec_value(s.drop_last()) * 10 + (s.last() as int - '0' as int));
    }
}

/// A tab shows its terminal's title; a tab whose terminal has set none is
/// "Tab " and its 1-based position. The window shows "Terminal", or the
/// active tab's title, " - " and "Terminal".
pub proof fn lemma_titles(title: Seq<char>, index: nat)
    ensures
        title.len() > 0 ==> spec_tab_title(title, index) == title,
        title.len() == 0 ==> {
            let t = spec_tab_title(title, index);
            &&& t.take(4) == seq!['T', 'a', 'b', ' ']
            &&& crate::pty::ssh_config::all_digits(t.skip(4))
            &&& crate::pty::ssh_config::dec_value(t.skip(4)) == index + 1
        },
        spec_window_title(title) == if title.len() == 0 {
            seq!['T', 'e', 'r', 'm', 'i', 'n', 'a', 'l']
        } else {
            title + seq![' ', '-', ' ', 'T', 'e', 'r', 'm', 'i', 'n', 'a', 'l']
        },
{
    lemma_dec_chars(index + 1);
    let t = seq!['T', 'a', 'b', ' '] + dec_chars(index + 1);
    assert(t.take(4) =~= seq!['T', 'a', 'b', ' ']);
    assert(t.skip(4) =~= dec_chars(index + 1));
    assert(title + seq![' ', '-', ' '] + app_name() =~= title + seq![' ', '-', ' ', 'T', 'e', 'r', 'm', 'i', 'n', 'a', 'l']);
}

proof fn lemma_index_of_key_props(favs: Seq<Seq<char>>, key: Seq<char>, i: int)
    requires
        0 <= i <= favs.len(),
    ensures
        i <= index_of_key(favs, key, i) <= favs.len(),
        index_of_key(favs, key, i) < favs.len() ==> favs[index_of_key(favs, key, i)] == key,
        forall|j: int| i <= j < index_of_key(favs, key, i) ==> favs[j] != key,
    decreases favs.len() - i,
{
    if i < favs.len() && favs[i] != key {
        lemma_index_of_key_props(favs, key, i + 1);
    }
}

/// Toggling a key that is not a favorite appends it; toggling one that is
/// removes it (its first occurrence), the others keeping their order.
pub proof fn lemma_toggle(favs: Seq<Seq<char>>, key: Seq<char>)
    ensures
        !favs.contains(key) ==> spec_toggle(favs, key) == favs.push(key),
        favs.contains(key) ==> exists|k: int| 0 <= k < favs.len() && favs[k] == key
            && (forall|j: int| 0 <= j < k ==> favs[j] != key)
            && spec_toggle(favs, key) == favs.take(k) + favs.skip(k + 1),
{
    lemma_index_of_key_props(favs, key, 0);
    let p = index_of_key(favs, key, 0);
    if favs.contains(key) {
        let j = choose|j: int| 0 <= j < favs.len() && favs[j] == key;
        assert(p < favs.len());
        assert(favs.remove(p) =~= favs.take(p) + favs.skip(p + 1));
    } else {
        if p < favs.len() {
            assert(favs.contains(favs[p]));
        }
    }
}

} // verus!
