//! The new-tab menu: its entries (shells, bookmarks, SSH profiles and
//! tailnet peers), favorites, and the profiles its entries launch.

use vstd::prelude::*;
use crate::config::{Bookmark, BookmarkModel};
use crate::pty::{SshProfile, ProfileModel, opt_text, key_word, default_auth, default_port};
use crate::tailscale::{TailscalePeer, PeerModel};
use crate::text::{chars_of, string_from_chars};

verus! {

/// What choosing a menu entry does.
pub enum MenuAction {
    NoAction,
    NewLocalTab,
    Shell(String),
    SshProfileName(String),
    Tailscale { host: String },
}

/// A menu entry: its label, its key in the favorites list (if it can be
/// a favorite), and its action.
pub struct MenuItem {
    pub label: String,
    pub fav_key: Option<String>,
    pub action: MenuAction,
}

pub enum ActionModel {
    NoAction,
    NewLocalTab,
    Shell(Seq<char>),
    SshProfileName(Seq<char>),
    Tailscale(Seq<char>),
}

pub struct ItemModel {
    pub label: Seq<char>,
    pub fav_key: Option<Seq<char>>,
    pub action: ActionModel,
}

impl View for MenuAction {
    type V = ActionModel;

    open spec fn view(&self) -> ActionModel {
        match self {
            MenuAction::NoAction => ActionModel::NoAction,
            MenuAction::NewLocalTab => ActionModel::NewLocalTab,
            MenuAction::Shell(c) => ActionModel::Shell(c@),
            MenuAction::SshProfileName(n) => ActionModel::SshProfileName(n@),
            MenuAction::Tailscale { host } => ActionModel::Tailscale(host@),
        }
    }
}

impl View for MenuItem {
    type V = ItemModel;

    open spec fn view(&self) -> ItemModel {
        ItemModel { label: self.label@, fav_key: opt_text(self.fav_key), action: self.action@ }
    }
}

pub open spec fn items_view(v: Seq<MenuItem>) -> Seq<ItemModel> {
    Seq::new(v.len(), |k: int| v[k]@)
}

pub open spec fn new_tab_item() -> ItemModel {
    ItemModel { label: seq!['N', 'e', 'w', ' ', 'T', 'a', 'b'], fav_key: None, action: ActionModel::NewLocalTab }
}

pub open spec fn shell_item(name: Seq<char>, cmd: Seq<char>) -> ItemModel {
    ItemModel {
        label: name,
        fav_key: Some(seq!['s', 'h', 'e', 'l', 'l', ':'] + cmd),
        action: ActionModel::Shell(cmd),
    }
}

pub open spec fn bookmark_item(b: BookmarkModel) -> ItemModel {
    ItemModel {
        label: b.name,
        fav_key: Some(seq!['b', 'o', 'o', 'k', 'm', 'a', 'r', 'k', ':'] + b.name),
        action: match b.shell {
            Some(s) => ActionModel::Shell(s),
            None => match b.ssh {
                Some(n) => ActionModel::SshProfileName(n),
                None => ActionModel::NoAction,
            },
        },
    }
}

pub open spec fn profile_item(p: ProfileModel) -> ItemModel {
    ItemModel {
        label: p.name + seq![' ', ' ', '['] + p.user + seq!['@'] + p.host + seq![']'],
        fav_key: Some(seq!['s', 's', 'h', ':'] + p.name),
        action: ActionModel::SshProfileName(p.name),
    }
}

pub open spec fn peer_item(p: PeerModel) -> ItemModel {
    ItemModel {
        label: p.host + seq![' ', ' '] + p.ip + (if p.online {
            Seq::empty()
        } else {
            seq![' ', '(', 'o', 'f', 'f', 'l', 'i', 'n', 'e', ')']
        }),
        fav_key: Some(seq!['t', 'a', 'i', 'l', 's', 'c', 'a', 'l', 'e', ':'] + p.host),
        action: ActionModel::Tailscale(p.host),
    }
}

/// The menu: "New Tab", then the shells, the bookmarks, the SSH profiles
/// and the tailnet peers, in that order.
pub open spec fn spec_menu_items(
    shells: Seq<(Seq<char>, Seq<char>)>,
    bookmarks: Seq<BookmarkModel>,
    profiles: Seq<ProfileModel>,
    peers: Seq<PeerModel>,
) -> Seq<ItemModel> {
    seq![new_tab_item()]
        + Seq::new(shells.len(), |i: int| shell_item(shells[i].0, shells[i].1))
        + Seq::new(bookmarks.len(), |i: int| bookmark_item(bookmarks[i]))
        + Seq::new(profiles.len(), |i: int| profile_item(profiles[i]))
        + Seq::new(peers.len(), |i: int| peer_item(peers[i]))
}

fn append(v: &mut Vec<char>, s: &[char])
    ensures
        final(v)@ == old(v)@ + s@,
{
    let mut i: usize = 0;
    while i < s.len()
        invariant
            i <= s@.len(),
            v@ == old(v)@ + s@.take(i as int),
        decreases s@.len() - i,
    {
        v.push(s[i]);
        i = i + 1;
        assert(v@ =~= old(v)@ + s@.take(i as int));
    }
    assert(s@.take(s@.len() as int) =~= s@);
}

fn text(s: &String) -> (v: Vec<char>)
    ensures
        v@ == s@,
{
    chars_of(s.as_str())
}

fn copy_string(s: &String) -> (r: String)
    ensures
        r@ == s@,
{
    s.clone()
}

fn copy_opt(o: &Option<String>) -> (r: Option<String>)
    ensures
        opt_text(r) == opt_text(*o),
{
    match o {
        Some(s) => Some(s.clone()),
        None => None,
    }
}

/// `prefix` and then `s`, as a string.
fn prefixed(prefix: &[char], s: &String) -> (r: String)
    ensures
        r@ == prefix@ + s@,
{
    let mut v: Vec<char> = Vec::new();
    append(&mut v, prefix);
    append(&mut v, text(s).as_slice());
    assert(v@ =~= prefix@ + s@);
    string_from_chars(v.as_slice())
}

fn shell_entry(name: &String, cmd: &String) -> (m: MenuItem)
    ensures
        m@ == shell_item(name@, cmd@),
{
    let p: [char; 6] = ['s', 'h', 'e', 'l', 'l', ':'];
    assert(p@ =~= seq!['s', 'h', 'e', 'l', 'l', ':']);
    MenuItem { label: copy_string(name), fav_key: Some(prefixed(&p, cmd)), action: MenuAction::Shell(copy_string(cmd)) }
}

fn bookmark_entry(b: &Bookmark) -> (m: MenuItem)
    ensures
        m@ == bookmark_item(b@),
{
    let p: [char; 9] = ['b', 'o', 'o', 'k', 'm', 'a', 'r', 'k', ':'];
    assert(p@ =~= seq!['b', 'o', 'o', 'k', 'm', 'a', 'r', 'k', ':']);
    let action = match &b.shell {
        Some(s) => MenuAction::Shell(copy_string(s)),
        None => match &b.ssh {
            Some(n) => MenuAction::SshProfileName(copy_string(n)),
            None => MenuAction::NoAction,
        },
    };
    MenuItem { label: copy_string(&b.name), fav_key: Some(prefixed(&p, &b.name)), action }
}

fn profile_entry(pr: &SshProfile) -> (m: MenuItem)
    ensures
        m@ == profile_item(pr@),
{
    let p: [char; 4] = ['s', 's', 'h', ':'];
    assert(p@ =~= seq!['s', 's', 'h', ':']);
    let mut v: Vec<char> = text(&pr.name);
    append(&mut v, &[' ', ' ', '[']);
    append(&mut v, text(&pr.user).as_slice());
    append(&mut v, &['@']);
    append(&mut v, text(&pr.host).as_slice());
    append(&mut v, &[']']);
    assert(v@ =~= profile_item(pr@).label);
    MenuItem {
        label: string_from_chars(v.as_slice()),
        fav_key: Some(prefixed(&p, &pr.name)),
        action: MenuAction::SshProfileName(copy_string(&pr.name)),
    }
}

fn peer_entry(pe: &TailscalePeer) -> (m: MenuItem)
    ensures
        m@ == peer_item(pe@),
{
    let p: [char; 10] = ['t', 'a', 'i', 'l', 's', 'c', 'a', 'l', 'e', ':'];
    assert(p@ =~= seq!['t', 'a', 'i', 'l', 's', 'c', 'a', 'l', 'e', ':']);
    let mut v: Vec<char> = text(&pe.host);
    append(&mut v, &[' ', ' ']);
    append(&mut v, text(&pe.ip).as_slice());
    if !pe.online {
        append(&mut v, &[' ', '(', 'o', 'f', 'f', 'l', 'i', 'n', 'e', ')']);
    }
    assert(v@ =~= peer_item(pe@).label);
    MenuItem {
        label: string_from_chars(v.as_slice()),
        fav_key: Some(prefixed(&p, &pe.host)),
        action: MenuAction::Tailscale { host: copy_string(&pe.host) },
    }
}

pub open spec fn shells_view(v: Seq<(String, String)>) -> Seq<(Seq<char>, Seq<char>)> {
    Seq::new(v.len(), |k: int| (v[k].0@, v[k].1@))
}

pub open spec fn bookmarks_view(v: Seq<Bookmark>) -> Seq<BookmarkModel> {
    Seq::new(v.len(), |k: int| v[k]@)
}

pub open spec fn profiles_view(v: Seq<SshProfile>) -> Seq<ProfileModel> {
    Seq::new(v.len(), |k: int| v[k]@)
}

pub open spec fn peers_view(v: Seq<TailscalePeer>) -> Seq<PeerModel> {
    Seq::new(v.len(), |k: int| v[k]@)
}

/// The menu entries for the detected shells (display name, command), the
/// bookmarks, the SSH profiles and the tailnet peers.
pub fn build_menu_items(
    shells: &[(String, String)],
    bookmarks: &[Bookmark],
    profiles: &[SshProfile],
    peers: &[TailscalePeer],
) -> (items: Vec<MenuItem>)
    ensures
        items_view(items@) == spec_menu_items(shells_view(shells@), bookmarks_view(bookmarks@), profiles_view(profiles@), peers_view(peers@)),
{
    let mut items: Vec<MenuItem> = Vec::new();
    let label: [char; 7] = ['N', 'e', 'w', ' ', 'T', 'a', 'b'];
    assert(label@ =~= seq!['N', 'e', 'w', ' ', 'T', 'a', 'b']);
    items.push(MenuItem { label: string_from_chars(&label), fav_key: None, action: MenuAction::NewLocalTab });
    let ghost s_part = Seq::new(shells@.len(), |i: int| shell_item(shells_view(shells@)[i].0, shells_view(shells@)[i].1));
    let ghost b_part = Seq::new(bookmarks@.len(), |i: int| bookmark_item(bookmarks_view(bookmarks@)[i]));
    let ghost p_part = Seq::new(profiles@.len(), |i: int| profile_item(profiles_view(profiles@)[i]));
    let ghost e_part = Seq::new(peers@.len(), |i: int| peer_item(peers_view(peers@)[i]));
    assert(items_view(items@) =~= seq![new_tab_item()]);
    let ghost head = items_view(items@);
    let mut i: usize = 0;
    while i < shells.len()
        invariant
            i <= shells@.len(),
            items_view(items@) == head + s_part.take(i as int),
            s_part == Seq::new(shells@.len(), |i: int| shell_item(shells_view(shells@)[i].0, shells_view(shells@)[i].1)),
        decreases shells@.len() - i,
    {
        let m = shell_entry(&shells[i].0, &shells[i].1);
        let ghost before = items@;
        assert(m@ == s_part[i as int]);
        items.push(m);
        assert(items_view(items@) =~= items_view(before).push(m@));
        assert(s_part.take(i + 1) =~= s_part.take(i as int).push(s_part[i as int]));
        i = i + 1;
        assert(items_view(items@) =~= head + s_part.take(i as int));
    }
    assert(s_part.take(s_part.len() as int) =~= s_part);
    let ghost head = items_view(items@);
    let mut i: usize = 0;
    while i < bookmarks.len()
        invariant
            i <= bookmarks@.len(),
            items_view(items@) == head + b_part.take(i as int),
            b_part == Seq::new(bookmarks@.len(), |i: int| bookmark_item(bookmarks_view(bookmarks@)[i])),
        decreases bookmarks@.len() - i,
    {
        let m = bookmark_entry(&bookmarks[i]);
        let ghost before = items@;
        assert(m@ == b_part[i as int]);
        items.push(m);
        assert(items_view(items@) =~= items_view(before).push(m@));
        assert(b_part.take(i + 1) =~= b_part.take(i as int).push(b_part[i as int]));
        i = i + 1;
        assert(items_view(items@) =~= head + b_part.take(i as int));
    }
    assert(b_part.take(b_part.len() as int) =~= b_part);
    let ghost head = items_view(items@);
    let mut i: usize = 0;
    while i < profiles.len()
        invariant
            i <= profiles@.len(),
            items_view(items@) == head + p_part.take(i as int),
            p_part == Seq::new(profiles@.len(), |i: int| profile_item(profiles_view(profiles@)[i])),
        decreases profiles@.len() - i,
    {
        let m = profile_entry(&profiles[i]);
        let ghost before = items@;
        assert(m@ == p_part[i as int]);
        items.push(m);
        assert(items_view(items@) =~= items_view(before).push(m@));
        assert(p_part.take(i + 1) =~= p_part.take(i as int).push(p_part[i as int]));
        i = i + 1;
        assert(items_view(items@) =~= head + p_part.take(i as int));
    }
    assert(p_part.take(p_part.len() as int) =~= p_part);
    let ghost head = items_view(items@);
    let mut i: usize = 0;
    while i < peers.len()
        invariant
            i <= peers@.len(),
            items_view(items@) == head + e_part.take(i as int),
            e_part == Seq::new(peers@.len(), |i: int| peer_item(peers_view(peers@)[i])),
        decreases peers@.len() - i,
    {
        let m = peer_entry(&peers[i]);
        let ghost before = items@;
        assert(m@ == e_part[i as int]);
        items.push(m);
        assert(items_view(items@) =~= items_view(before).push(m@));
        assert(e_part.take(i + 1) =~= e_part.take(i as int).push(e_part[i as int]));
        i = i + 1;
        assert(items_view(items@) =~= head + e_part.take(i as int));
    }
    assert(e_part.take(e_part.len() as int) =~= e_part);
    items
}

/// Whether `key` is among the favorites.
pub open spec fn is_favorite(favorites: Seq<Seq<char>>, key: Seq<char>) -> bool {
    exists|j: int| 0 <= j < favorites.len() && favorites[j] == key
}

/// The entries among the first `n` that are favorites, by index.
pub open spec fn favorite_indices(items: Seq<ItemModel>, favorites: Seq<Seq<char>>, n: int) -> Seq<usize>
    decreases n,
{
    if n <= 0 {
        Seq::empty()
    } else {
        let before = favorite_indices(items, favorites, n - 1);
        match items[n - 1].fav_key {
            Some(k) => if is_favorite(favorites, k) { before.push((n - 1) as usize) } else { before },
            None => before,
        }
    }
}

fn contains_string(v: &[String], s: &String) -> (r: bool)
    ensures
        r == is_favorite(crate::tabs::strings_view(v@), s@),
{
    let ghost fv = crate::tabs::strings_view(v@);
    let mut i: usize = 0;
    while i < v.len()
        invariant
            i <= v@.len(),
            fv == crate::tabs::strings_view(v@),
            forall|j: int| 0 <= j < i ==> fv[j] != s@,
        decreases v@.len() - i,
    {
        if v[i] == *s {
            assert(fv[i as int] == s@);
            return true;
        }
        i = i + 1;
    }
    false
}

/// The indices of the entries that are favorites, in menu order.
pub fn menu_favorites(items: &[MenuItem], favorites: &[String]) -> (r: Vec<usize>)
    ensures
        r@ == favorite_indices(items_view(items@), crate::tabs::strings_view(favorites@), items@.len() as int),
{
    let mut r: Vec<usize> = Vec::new();
    let mut i: usize = 0;
    while i < items.len()
        invariant
            i <= items@.len(),
            r@ == favorite_indices(items_view(items@), crate::tabs::strings_view(favorites@), i as int),
        decreases items@.len() - i,
    {
        match &items[i].fav_key {
            Some(k) => {
                if contains_string(favorites, k) {
                    r.push(i);
                }
            },
            None => {},
        }
        i = i + 1;
    }
    r
}

// ---------------------------------------------------------------------
// Layout
// ---------------------------------------------------------------------

/// The sections of the menu, each under its own header.
#[derive(Clone, Copy, Debug, PartialEq, Eq, Structural)]
pub enum MenuSection {
    Favorites,
    Shells,
    Bookmarks,
    Ssh,
    Tailscale,
}

/// One line of the menu as shown: a separator, a section header, or entry
/// `index` of the menu items (its command is `index + 1`), indented under a
/// header or not.
#[derive(Clone, Copy, Debug, PartialEq, Eq, Structural)]
pub enum MenuLine {
    Separator,
    Header(MenuSection),
    Entry { index: usize, indented: bool },
}

/// Entries `start .. start + count`, indented.
pub open spec fn entry_run(start: int, count: nat) -> Seq<MenuLine>
    decreases count,
{
    if count == 0 {
        Seq::empty()
    } else {
        entry_run(start, (count - 1) as nat).push(MenuLine::Entry { index: (start + count - 1) as usize, indented: true })
    }
}

/// The favorite entries, indented.
pub open spec fn favorite_run(favs: Seq<usize>) -> Seq<MenuLine>
    decreases favs.len(),
{
    if favs.len() == 0 {
        Seq::empty()
    } else {
        favorite_run(favs.drop_last()).push(MenuLine::Entry { index: favs.last(), indented: true })
    }
}

/// A section of `count` entries from `start`: a separator, its header and
/// the entries; nothing when it is empty.
pub open spec fn section(kind: MenuSection, start: int, count: nat) -> Seq<MenuLine> {
    if count == 0 {
        Seq::empty()
    } else {
        seq![MenuLine::Separator, MenuLine::Header(kind)] + entry_run(start, count)
    }
}

/// The menu for `n` items laid out as `build_menu_items` makes them (new
/// tab, then `shells` shells, `bookmarks` bookmarks, `ssh` profiles and
/// the tailnet peers): the favorites first under their header and closed
/// by a separator, then "new tab" on its own, then each non-empty section.
pub open spec fn spec_menu_layout(n: nat, favs: Seq<usize>, shells: nat, bookmarks: nat, ssh: nat) -> Seq<MenuLine> {
    let fav_part = if favs.len() == 0 {
        Seq::empty()
    } else {
        seq![MenuLine::Header(MenuSection::Favorites)] + favorite_run(favs) + seq![MenuLine::Separator]
    };
    let b: int = 1 + shells as int;
    let c: int = b + bookmarks;
    let d: int = c + ssh;
    fav_part + seq![MenuLine::Entry { index: 0, indented: false }] + section(MenuSection::Shells, 1, shells)
        + section(MenuSection::Bookmarks, b, bookmarks) + section(MenuSection::Ssh, c, ssh)
        + section(MenuSection::Tailscale, d, (n - d) as nat)
}

fn push_section(out: &mut Vec<MenuLine>, kind: MenuSection, start: usize, count: usize)
    requires
        start + count <= usize::MAX,
    ensures
        final(out)@ == old(out)@ + section(kind, start as int, count as nat),
{
    if count == 0 {
        assert(old(out)@ + Seq::<MenuLine>::empty() =~= old(out)@);
        return;
    }
    let ghost base = out@;
    out.push(MenuLine::Separator);
    out.push(MenuLine::Header(kind));
    let mut k: usize = 0;
    assert(out@ =~= base + seq![MenuLine::Separator, MenuLine::Header(kind)] + entry_run(start as int, 0));
    while k < count
        invariant
            k <= count,
            start + count <= usize::MAX,
            out@ == base + seq![MenuLine::Separator, MenuLine::Header(kind)] + entry_run(start as int, k as nat),
        decreases count - k,
    {
        out.push(MenuLine::Entry { index: start + k, indented: true });
        k = k + 1;
        assert(out@ =~= base + seq![MenuLine::Separator, MenuLine::Header(kind)] + entry_run(start as int, k as nat));
    }
    assert(out@ =~= base + section(kind, start as int, count as nat));
}

/// The lines of the menu, from the number of items, the favorites'
/// indices (as `menu_favorites` gives them) and the sizes of the
/// sections. Items past the SSH profiles are the tailnet peers.
pub fn menu_layout(n: usize, favs: &[usize], shells: usize, bookmarks: usize, ssh: usize) -> (r: Vec<MenuLine>)
    requires
        1 + shells + bookmarks + ssh <= n,
    ensures
        r@ == spec_menu_layout(n as nat, favs@, shells as nat, bookmarks as nat, ssh as nat),
{
    let mut out: Vec<MenuLine> = Vec::new();
    if favs.len() > 0 {
        out.push(MenuLine::Header(MenuSection::Favorites));
        let mut i: usize = 0;
        assert(favs@.take(0) =~= Seq::<usize>::empty());
        assert(out@ =~= seq![MenuLine::Header(MenuSection::Favorites)] + favorite_run(favs@.take(0)));
        while i < favs.len()
            invariant
                i <= favs@.len(),
                out@ == seq![MenuLine::Header(MenuSection::Favorites)] + favorite_run(favs@.take(i as int)),
            decreases favs@.len() - i,
        {
            out.push(MenuLine::Entry { index: favs[i], indented: true });
            assert(favs@.take(i + 1).drop_last() =~= favs@.take(i as int));
            assert(favs@.take(i + 1).last() == favs@[i as int]);
            i = i + 1;
            assert(out@ =~= seq![MenuLine::Header(MenuSection::Favorites)] + favorite_run(favs@.take(i as int)));
        }
        assert(favs@.take(favs@.len() as int) =~= favs@);
        out.push(MenuLine::Separator);
    }
    out.push(MenuLine::Entry { index: 0, indented: false });
    let b = 1 + shells;
    let c = b + bookmarks;
    let d = c + ssh;
    push_section(&mut out, MenuSection::Shells, 1, shells);
    push_section(&mut out, MenuSection::Bookmarks, b, bookmarks);
    push_section(&mut out, MenuSection::Ssh, c, ssh);
    push_section(&mut out, MenuSection::Tailscale, d, n - d);
    proof {
        let fav_part = if favs@.len() == 0 {
            Seq::<MenuLine>::empty()
        } else {
            seq![MenuLine::Header(MenuSection::Favorites)] + favorite_run(favs@) + seq![MenuLine::Separator]
        };
        assert(out@ =~= fav_part + seq![MenuLine::Entry { index: 0, indented: false }]
            + section(MenuSection::Shells, 1, shells as nat) + section(MenuSection::Bookmarks, b as int, bookmarks as nat)
            + section(MenuSection::Ssh, c as int, ssh as nat) + section(MenuSection::Tailscale, d as int, (n - d) as nat));
    }
    out
}

// ---------------------------------------------------------------------
// Profiles
// ---------------------------------------------------------------------

/// A copy of a profile.
pub fn clone_profile(p: &SshProfile) -> (r: SshProfile)
    ensures
        r@ == p@,
{
    SshProfile {
        name: copy_string(&p.name),
        host: copy_string(&p.host),
        port: p.port,
        user: copy_string(&p.user),
        auth: copy_string(&p.auth),
        password: copy_opt(&p.password),
        key_path: copy_opt(&p.key_path),
    }
}

/// Whether some profile is called `name`.
pub open spec fn has_name(ps: Seq<ProfileModel>, name: Seq<char>) -> bool {
    exists|j: int| 0 <= j < ps.len() && ps[j].name == name
}

/// The configured profiles whose names the loaded ones do not already
/// use, in order.
pub open spec fn new_profiles(loaded: Seq<ProfileModel>, configured: Seq<ProfileModel>) -> Seq<ProfileModel>
    decreases configured.len(),
{
    if configured.len() == 0 {
        Seq::empty()
    } else {
        let before = new_profiles(loaded, configured.drop_last());
        if has_name(loaded, configured.last().name) { before } else { before.push(configured.last()) }
    }
}

fn has_name_exec(ps: &Vec<SshProfile>, upto: usize, name: &String) -> (r: bool)
    requires
        upto <= ps@.len(),
    ensures
        r == has_name(profiles_view(ps@.take(upto as int)), name@),
{
    let ghost pv = profiles_view(ps@.take(upto as int));
    let mut i: usize = 0;
    while i < upto
        invariant
            i <= upto <= ps@.len(),
            pv == profiles_view(ps@.take(upto as int)),
            forall|j: int| 0 <= j < i ==> pv[j].name != name@,
        decreases upto - i,
    {
        if ps[i].name == *name {
            assert(pv[i as int].name == name@);
            return true;
        }
        i = i + 1;
    }
    false
}

/// The profiles from the SSH configuration, followed by the configured
/// profiles whose names they do not already use.
pub fn merge_profiles(loaded: Vec<SshProfile>, configured: &[SshProfile]) -> (r: Vec<SshProfile>)
    ensures
        profiles_view(r@) == profiles_view(loaded@) + new_profiles(profiles_view(loaded@), profiles_view(configured@)),
{
    let mut r = loaded;
    let n = r.len();
    let ghost lv = profiles_view(r@);
    let ghost cv = profiles_view(configured@);
    assert(r@.take(n as int) =~= r@);
    let mut i: usize = 0;
    assert(cv.take(0) =~= Seq::<ProfileModel>::empty());
    assert(profiles_view(r@) =~= lv + new_profiles(lv, cv.take(0)));
    while i < configured.len()
        invariant
            i <= configured@.len(),
            n <= r@.len(),
            lv == profiles_view(r@.take(n as int)),
            cv == profiles_view(configured@),
            profiles_view(r@) == lv + new_profiles(lv, cv.take(i as int)),
        decreases configured@.len() - i,
    {
        let found = has_name_exec(&r, n, &configured[i].name);
        assert(cv.take(i + 1).drop_last() =~= cv.take(i as int));
        assert(cv.take(i + 1).last() == configured@[i as int]@);
        if !found {
            let c = clone_profile(&configured[i]);
            let ghost before = r@;
            r.push(c);
            assert(r@.take(n as int) =~= before.take(n as int));
            assert(profiles_view(r@) =~= profiles_view(before).push(c@));
        }
        i = i + 1;
    }
    assert(cv.take(cv.len() as int) =~= cv);
    r
}

/// The first profile called `name`.
pub open spec fn first_named(ps: Seq<ProfileModel>, name: Seq<char>) -> Option<ProfileModel>
    decreases ps.len(),
{
    if ps.len() == 0 { None } else if ps[0].name == name { Some(ps[0]) } else { first_named(ps.drop_first(), name) }
}

/// A copy of the first profile called `name`.
pub fn find_profile(profiles: &[SshProfile], name: &String) -> (r: Option<SshProfile>)
    ensures
        match first_named(profiles_view(profiles@), name@) {
            None => r is None,
            Some(p) => r matches Some(q) && q@ == p,
        },
{
    let ghost pv = profiles_view(profiles@);
    let mut i: usize = 0;
    assert(pv.skip(0) =~= pv);
    while i < profiles.len()
        invariant
            i <= profiles@.len(),
            pv == profiles_view(profiles@),
            first_named(pv, name@) == first_named(pv.skip(i as int), name@),
        decreases profiles@.len() - i,
    {
        assert(pv.skip(i as int)[0] == profiles@[i as int]@);
        assert(pv.skip(i as int).drop_first() =~= pv.skip(i + 1));
        if profiles[i].name == *name {
            return Some(clone_profile(&profiles[i]));
        }
        i = i + 1;
    }
    None
}

/// The first profile whose name or host is `host`.
pub open spec fn first_for_host(ps: Seq<ProfileModel>, host: Seq<char>) -> Option<ProfileModel>
    decreases ps.len(),
{
    if ps.len() == 0 {
        None
    } else if ps[0].name == host || ps[0].host == host {
        Some(ps[0])
    } else {
        first_for_host(ps.drop_first(), host)
    }
}

/// The profile a tailnet peer opens: a profile named after it or for its
/// host, else a fresh one for `host` on port 22 with key authentication,
/// `user` and `key_path`.
pub open spec fn spec_peer_profile(ps: Seq<ProfileModel>, host: Seq<char>, user: Seq<char>, key_path: Option<Seq<char>>) -> ProfileModel {
    match first_for_host(ps, host) {
        Some(p) => p,
        None => ProfileModel { name: host, host, port: 22, user, auth: key_word(), password: None, key_path },
    }
}

/// The profile to connect to a tailnet peer with.
pub fn peer_profile(profiles: &[SshProfile], host: &String, user: &String, key_path: Option<String>) -> (r: SshProfile)
    ensures
        r@ == spec_peer_profile(profiles_view(profiles@), host@, user@, opt_text(key_path)),
{
    let ghost pv = profiles_view(profiles@);
    let mut i: usize = 0;
    assert(pv.skip(0) =~= pv);
    while i < profiles.len()
        invariant
            i <= profiles@.len(),
            pv == profiles_view(profiles@),
            first_for_host(pv, host@) == first_for_host(pv.skip(i as int), host@),
        decreases profiles@.len() - i,
    {
        assert(pv.skip(i as int)[0] == profiles@[i as int]@);
        assert(pv.skip(i as int).drop_first() =~= pv.skip(i + 1));
        if profiles[i].name == *host || profiles[i].host == *host {
            return clone_profile(&profiles[i]);
        }
        i = i + 1;
    }
    SshProfile {
        name: copy_string(host),
        host: copy_string(host),
        port: default_port(),
        user: copy_string(user),
        auth: default_auth(),
        password: None,
        key_path,
    }
}

/// Merging keeps every profile from the SSH configuration and adds the
/// configured profiles whose names those do not use, and only those: each
/// added profile is a configured one with a new name, and every configured
/// profile with a new name is added.
pub proof fn lemma_new_profiles(loaded: Seq<ProfileModel>, configured: Seq<ProfileModel>)
    ensures
        forall|i: int| 0 <= i < new_profiles(loaded, configured).len() ==> {
            &&& configured.contains(#[trigger] new_profiles(loaded, configured)[i])
            &&& !has_name(loaded, new_profiles(loaded, configured)[i].name)
        },
        forall|j: int| 0 <= j < configured.len() && !has_name(loaded, #[trigger] configured[j].name)
            ==> new_profiles(loaded, configured).contains(configured[j]),
    decreases configured.len(),
{
    if configured.len() > 0 {
        let d = configured.drop_last();
        lemma_new_profiles(loaded, d);
        let before = new_profiles(loaded, d);
        let now = new_profiles(loaded, configured);
        assert forall|i: int| 0 <= i < now.len() implies {
            &&& configured.contains(#[trigger] now[i])
            &&& !has_name(loaded, now[i].name)
        } by {
            if i < before.len() {
                assert(now[i] == before[i]);
                let k = choose|k: int| 0 <= k < d.len() && d[k] == before[i];
                assert(configured[k] == d[k]);
            } else {
                assert(now[i] == configured.last());
                assert(configured[configured.len() - 1] == configured.last());
            }
        }
        assert forall|j: int| 0 <= j < configured.len() && !has_name(loaded, #[trigger] configured[j].name)
            implies now.contains(configured[j]) by {
            if j < d.len() {
                assert(d[j] == configured[j]);
                let k = choose|k: int| 0 <= k < before.len() && before[k] == d[j];
                assert(now[k] == before[k]);
            } else {
                assert(configured[j] == configured.last());
                assert(now[now.len() - 1] == configured.last());
            }
        }
    }
}

/// Looking a profile up by name finds the first profile with that name,
/// and finds nothing exactly when no profile has it.
pub proof fn lemma_first_named(ps: Seq<ProfileModel>, name: Seq<char>)
    ensures
        first_named(ps, name) is None <==> !has_name(ps, name),
        first_named(ps, name) matches Some(p) ==> exists|k: int| 0 <= k < ps.len() && ps[k] == p && p.name == name
            && forall|j: int| 0 <= j < k ==> (#[trigger] ps[j]).name != name,
    decreases ps.len(),
{
    if ps.len() > 0 {
        let t = ps.drop_first();
        lemma_first_named(t, name);
        if ps[0].name != name {
            if has_name(ps, name) {
                let j = choose|j: int| 0 <= j < ps.len() && ps[j].name == name;
                assert(t[j - 1] == ps[j]);
            }
            if has_name(t, name) {
                let j = choose|j: int| 0 <= j < t.len() && t[j].name == name;
                assert(ps[j + 1] == t[j]);
            }
            if first_named(t, name) is Some {
                let p = first_named(t, name)->Some_0;
                let k = choose|k: int| 0 <= k < t.len() && t[k] == p && p.name == name
                    && forall|j: int| 0 <= j < k ==> (#[trigger] t[j]).name != name;
                assert(ps[k + 1] == p);
                assert forall|j: int| 0 <= j < k + 1 implies (#[trigger] ps[j]).name != name by {
                    if j > 0 {
                        assert(ps[j] == t[j - 1]);
                    }
                }
            }
        }
    }
}

/// A tailnet peer opens the first profile named after it or for its host;
/// without one, a fresh profile named and addressed by the host, on port
/// 22, with key authentication, the given user and key file and no
/// password.
pub proof fn lemma_peer_profile(ps: Seq<ProfileModel>, host: Seq<char>, user: Seq<char>, key_path: Option<Seq<char>>)
    ensures
        (forall|j: int| 0 <= j < ps.len() ==> (#[trigger] ps[j]).name != host && ps[j].host != host) ==> spec_peer_profile(ps, host, user, key_path)
            == (ProfileModel { name: host, host, port: 22, user, auth: seq!['k', 'e', 'y'], password: None, key_path }),
        (exists|j: int| 0 <= j < ps.len() && ((#[trigger] ps[j]).name == host || ps[j].host == host)) ==> {
            let p = spec_peer_profile(ps, host, user, key_path);
            exists|k: int| 0 <= k < ps.len() && ps[k] == p && (p.name == host || p.host == host)
                && forall|j: int| 0 <= j < k ==> (#[trigger] ps[j]).name != host && ps[j].host != host
        },
    decreases ps.len(),
{
    assert(key_word() =~= seq!['k', 'e', 'y']);
    if ps.len() > 0 {
        let t = ps.drop_first();
        lemma_peer_profile(t, host, user, key_path);
        if !(ps[0].name == host || ps[0].host == host) {
            assert(first_for_host(ps, host) == first_for_host(t, host));
            if forall|j: int| 0 <= j < ps.len() ==> (#[trigger] ps[j]).name != host && ps[j].host != host {
                assert forall|j: int| 0 <= j < t.len() implies (#[trigger] t[j]).name != host && t[j].host != host by {
                    assert(t[j] == ps[j + 1]);
                }
            }
            if exists|j: int| 0 <= j < ps.len() && ((#[trigger] ps[j]).name == host || ps[j].host == host) {
                let j = choose|j: int| 0 <= j < ps.len() && ((#[trigger] ps[j]).name == host || ps[j].host == host);
                assert(t[j - 1] == ps[j]);
                let p = spec_peer_profile(ps, host, user, key_path);
                let k = choose|k: int| 0 <= k < t.len() && t[k] == p && (p.name == host || p.host == host)
                    && forall|i: int| 0 <= i < k ==> (#[trigger] t[i]).name != host && t[i].host != host;
                assert(ps[k + 1] == p);
                assert forall|i: int| 0 <= i < k + 1 implies (#[trigger] ps[i]).name != host && ps[i].host != host by {
                    if i > 0 {
                        assert(ps[i] == t[i - 1]);
                    }
                }
            }
        }
    }
}

/// The menu lists "New Tab" first (opening a local tab), then one entry
/// per shell (running it), per bookmark (its shell, else its SSH profile,
/// else nothing), per SSH profile (connecting to it, shown as
/// `name  [user@host]`) and per tailnet peer (connecting to its host,
/// shown as `host  ip`, marked ` (offline)` when offline), in that order;
/// each entry but "New Tab" can be a favorite under a key naming its kind.
pub proof fn lemma_menu_items(
    shells: Seq<(Seq<char>, Seq<char>)>,
    bookmarks: Seq<BookmarkModel>,
    profiles: Seq<ProfileModel>,
    peers: Seq<PeerModel>,
)
    ensures
        ({
            let items = spec_menu_items(shells, bookmarks, profiles, peers);
            let b0 = 1 + shells.len();
            let p0 = b0 + bookmarks.len();
            let t0 = p0 + profiles.len();
            &&& items.len() == t0 + peers.len()
            &&& items[0].action == ActionModel::NewLocalTab && items[0].fav_key is None
            &&& forall|i: int| 0 <= i < shells.len() ==> {
                &&& (#[trigger] items[1 + i]).action == ActionModel::Shell(shells[i].1)
                &&& items[1 + i].label == shells[i].0
                &&& items[1 + i].fav_key == Some(seq!['s', 'h', 'e', 'l', 'l', ':'] + shells[i].1)
            }
            &&& forall|i: int| 0 <= i < bookmarks.len() ==> {
                &&& (#[trigger] items[b0 + i]).action == (if bookmarks[i].shell is Some {
                    ActionModel::Shell(bookmarks[i].shell->Some_0)
                } else if bookmarks[i].ssh is Some {
                    ActionModel::SshProfileName(bookmarks[i].ssh->Some_0)
                } else {
                    ActionModel::NoAction
                })
                &&& items[b0 + i].label == bookmarks[i].name
            }
            &&& forall|i: int| 0 <= i < profiles.len() ==> {
                &&& (#[trigger] items[p0 + i]).action == ActionModel::SshProfileName(profiles[i].name)
                &&& items[p0 + i].label == profiles[i].name + seq![' ', ' ', '['] + profiles[i].user + seq!['@']
                    + profiles[i].host + seq![']']
            }
            &&& forall|i: int| 0 <= i < peers.len() ==> {
                &&& (#[trigger] items[t0 + i]).action == ActionModel::Tailscale(peers[i].host)
                &&& items[t0 + i].label == peers[i].host + seq![' ', ' '] + peers[i].ip
                    + (if peers[i].online { Seq::empty() } else { seq![' ', '(', 'o', 'f', 'f', 'l', 'i', 'n', 'e', ')'] })
            }
        }),
{
    let items = spec_menu_items(shells, bookmarks, profiles, peers);
    let a = seq![new_tab_item()];
    let sh = Seq::new(shells.len(), |i: int| shell_item(shells[i].0, shells[i].1));
    let bk = Seq::new(bookmarks.len(), |i: int| bookmark_item(bookmarks[i]));
    let pr = Seq::new(profiles.len(), |i: int| profile_item(profiles[i]));
    let pe = Seq::new(peers.len(), |i: int| peer_item(peers[i]));
    assert(items == a + sh + bk + pr + pe);
    let b0 = 1 + shells.len();
    let p0 = b0 + bookmarks.len();
    let t0 = p0 + profiles.len();
    assert forall|i: int| 0 <= i < shells.len() implies (#[trigger] items[1 + i]) == sh[i] by {}
    assert forall|i: int| 0 <= i < bookmarks.len() implies (#[trigger] items[b0 + i]) == bk[i] by {}
    assert forall|i: int| 0 <= i < profiles.len() implies (#[trigger] items[p0 + i]) == pr[i] by {}
    assert forall|i: int| 0 <= i < peers.len() implies (#[trigger] items[t0 + i]) == pe[i] by {}
}

} // verus!
