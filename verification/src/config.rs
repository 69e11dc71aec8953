//! The parts of the user configuration that the library interprets: the
//! global hotkey, bookmarks, remembered window positions and colours.

use vstd::prelude::*;
use vstd::string::{StringExecFns, StringSliceAdditionalSpecFns};
use crate::text::{chars_of, trim_chars, lower_chars, chars_eq, lower_text, trim, split_on, split_fields, texts_view, all_ascii};

verus! {

/// A bookmark for quick launch from the tab bar menu: either a local shell
/// command or the name of an SSH profile.
#[derive(Clone, Debug)]
pub struct Bookmark {
    pub name: String,
    /// Local shell command to spawn (exclusive with `ssh`).
    pub shell: Option<String>,
    /// Name of the SSH profile to launch (exclusive with `shell`).
    pub ssh: Option<String>,
}

/// A bookmark as character sequences.
pub struct BookmarkModel {
    pub name: Seq<char>,
    pub shell: Option<Seq<char>>,
    pub ssh: Option<Seq<char>>,
}

impl View for Bookmark {
    type V = BookmarkModel;

    open spec fn view(&self) -> BookmarkModel {
        BookmarkModel {
            name: self.name@,
            shell: crate::pty::opt_text(self.shell),
            ssh: crate::pty::opt_text(self.ssh),
        }
    }
}

/// A remembered window rectangle.
#[derive(Clone, Copy, Debug, PartialEq, Eq, Structural)]
pub struct WindowPosition {
    pub x: i32,
    pub y: i32,
    pub width: i32,
    pub height: i32,
}

/// The global show/hide hotkey.
#[derive(Clone, Debug)]
pub struct HotkeyConfig {
    pub enabled: bool,
    /// "ctrl", "alt", "shift", "win", comma-separated.
    pub modifiers: String,
    /// Key name: "grave", "space", "f12", a letter or a digit, ...
    pub key: String,
}

impl Default for HotkeyConfig {
    /// Alt+Shift+V, enabled.
    fn default() -> (r: Self)
        ensures
            r.enabled,
            r.modifiers@ == "alt,shift"@,
            r.key@ == "v"@,
    {
        HotkeyConfig { enabled: true, modifiers: String::from_str("alt,shift"), key: String::from_str("v") }
    }
}

/// The registration flag of one modifier name (already trimmed and
/// lowercased): Alt 1, Ctrl 2, Shift 4, Win 8, anything else 0.
pub open spec fn modifier_bit(w: Seq<char>) -> u32 {
    if w == seq!['a', 'l', 't'] {
        1
    } else if w == seq!['c', 't', 'r', 'l'] {
        2
    } else if w == seq!['s', 'h', 'i', 'f', 't'] {
        4
    } else if w == seq!['w', 'i', 'n'] {
        8
    } else {
        0
    }
}

/// The flags of a list of modifier fields, each trimmed and lowercased.
pub open spec fn flags_of(fields: Seq<Seq<char>>) -> u32
    decreases fields.len(),
{
    if fields.len() == 0 {
        0
    } else {
        flags_of(fields.drop_last()) | modifier_bit(lower_text(trim(fields.last())))
    }
}

fn modifier_bit_exec(w: &[char]) -> (b: u32)
    ensures
        b == modifier_bit(w@),
{
    let alt: [char; 3] = ['a', 'l', 't'];
    let ctrl: [char; 4] = ['c', 't', 'r', 'l'];
    let shift: [char; 5] = ['s', 'h', 'i', 'f', 't'];
    let win: [char; 3] = ['w', 'i', 'n'];
    assert(alt@ =~= seq!['a', 'l', 't']);
    assert(ctrl@ =~= seq!['c', 't', 'r', 'l']);
    assert(shift@ =~= seq!['s', 'h', 'i', 'f', 't']);
    assert(win@ =~= seq!['w', 'i', 'n']);
    if chars_eq(w, &alt) {
        1
    } else if chars_eq(w, &ctrl) {
        2
    } else if chars_eq(w, &shift) {
        4
    } else if chars_eq(w, &win) {
        8
    } else {
        0
    }
}

/// The key whose code names a letter or digit (ASCII).
pub open spec fn is_ascii_alnum(c: char) -> bool {
    ('0' <= c <= '9') || ('A' <= c <= 'Z') || ('a' <= c <= 'z')
}

/// The ASCII uppercase form of `c`.
pub open spec fn ascii_upper(c: char) -> char {
    if 'a' <= c <= 'z' { ((c as u32) - 32) as char } else { c }
}

/// The virtual-key code of a lowercased key name; 0 when unknown.
pub open spec fn key_code(w: Seq<char>) -> u32 {
    if w == seq!['g', 'r', 'a', 'v', 'e'] || w == seq!['o', 'e', 'm', '3'] || w == seq!['`'] {
        0xC0
    } else if w == seq!['s', 'p', 'a', 'c', 'e'] {
        0x20
    } else if w == seq!['t', 'a', 'b'] {
        0x09
    } else if w.len() == 2 && w[0] == 'f' && '1' <= w[1] <= '9' {
        (0x70 + (w[1] as u32 - '1' as u32)) as u32
    } else if w.len() == 3 && w[0] == 'f' && w[1] == '1' && '0' <= w[2] <= '2' {
        (0x79 + (w[2] as u32 - '0' as u32)) as u32
    } else if w.len() == 1 && (w[0] as u32) < 128 {
        if is_ascii_alnum(ascii_upper(w[0])) { ascii_upper(w[0]) as u32 } else { 0 }
    } else {
        0
    }
}

impl HotkeyConfig {
    /// The hotkey registration flags of `modifiers`: each comma-separated
    /// field, trimmed and lowercased, adds Alt 1, Ctrl 2, Shift 4 or Win 8;
    /// other fields add nothing.
    pub fn modifier_flags(&self) -> (flags: u32)
        ensures
            flags == flags_of(split_on(self.modifiers@, ',')),
    {
        let s = chars_of(self.modifiers.as_str());
        let fields = split_fields(s.as_slice(), ',');
        let ghost fv = texts_view(fields@);
        let mut flags: u32 = 0;
        let mut i: usize = 0;
        assert(fv.take(0) =~= Seq::<Seq<char>>::empty());
        while i < fields.len()
            invariant
                i <= fields@.len(),
                fv == texts_view(fields@),
                flags == flags_of(fv.take(i as int)),
            decreases fields@.len() - i,
        {
            let t = trim_chars(fields[i].as_slice());
            let low = lower_chars(t.as_slice());
            let bit = modifier_bit_exec(low.as_slice());
            assert(fv.take(i + 1).drop_last() =~= fv.take(i as int));
            assert(fv.take(i + 1).last() == fields@[i as int]@);
            flags = flags | bit;
            i = i + 1;
        }
        assert(fv.take(fv.len() as int) =~= fv);
        flags
    }

    /// The virtual-key code of `key` (case-insensitive): "grave", "oem3"
    /// and "`" give 0xC0, "space" 0x20, "tab" 0x09, "f1".."f12"
    /// 0x70..0x7B, a single ASCII letter or digit its uppercase code;
    /// anything else 0.
    pub fn virtual_key(&self) -> (vk: u32)
        ensures
            vk == key_code(lower_text(self.key@)),
    {
        let raw = chars_of(self.key.as_str());
        let w = lower_chars(raw.as_slice());
        let grave: [char; 5] = ['g', 'r', 'a', 'v', 'e'];
        let oem3: [char; 4] = ['o', 'e', 'm', '3'];
        let tick: [char; 1] = ['`'];
        let space: [char; 5] = ['s', 'p', 'a', 'c', 'e'];
        let tab: [char; 3] = ['t', 'a', 'b'];
        assert(grave@ =~= seq!['g', 'r', 'a', 'v', 'e']);
        assert(oem3@ =~= seq!['o', 'e', 'm', '3']);
        assert(tick@ =~= seq!['`']);
        assert(space@ =~= seq!['s', 'p', 'a', 'c', 'e']);
        assert(tab@ =~= seq!['t', 'a', 'b']);
        if chars_eq(w.as_slice(), &grave) || chars_eq(w.as_slice(), &oem3) || chars_eq(w.as_slice(), &tick) {
            0xC0
        } else if chars_eq(w.as_slice(), &space) {
            0x20
        } else if chars_eq(w.as_slice(), &tab) {
            0x09
        } else if w.len() == 2 && w[0] == 'f' && '1' <= w[1] && w[1] <= '9' {
            0x70 + (w[1] as u32 - '1' as u32)
        } else if w.len() == 3 && w[0] == 'f' && w[1] == '1' && '0' <= w[2] && w[2] <= '2' {
            0x79 + (w[2] as u32 - '0' as u32)
        } else if w.len() == 1 && (w[0] as u32) < 128 {
            let c = w[0];
            let up: char = if 'a' <= c && c <= 'z' { ((c as u32) - 32) as u8 as char } else { c };
            assert(up == ascii_upper(c));
            if ('0' <= up && up <= '9') || ('A' <= up && up <= 'Z') || ('a' <= up && up <= 'z') {
                up as u32
            } else {
                0
            }
        } else {
            0
        }
    }
}

// ---------------------------------------------------------------------
// Colours
// ---------------------------------------------------------------------

/// The value of an ASCII hex digit.
pub open spec fn hex_digit(b: u8) -> Option<u8> {
    if 0x30 <= b <= 0x39 {
        Some((b - 0x30) as u8)
    } else if 0x61 <= b <= 0x66 {
        Some((b - 0x61 + 10) as u8)
    } else if 0x41 <= b <= 0x46 {
        Some((b - 0x41 + 10) as u8)
    } else {
        None
    }
}

/// A two-byte component parsed as `u8::from_str_radix(.., 16)` does (an
/// optional leading `+`, then hex digits), 204 when that fails.
pub open spec fn component(x: u8, y: u8) -> u8 {
    match (hex_digit(x), hex_digit(y)) {
        (Some(a), Some(b)) => (a * 16 + b) as u8,
        (None, Some(b)) => if x == 0x2B { b } else { 204 },
        _ => 204,
    }
}

/// `b` without its leading `#` bytes.
pub open spec fn strip_hashes(b: Seq<u8>) -> Seq<u8>
    decreases b.len(),
{
    if b.len() > 0 && b[0] == 0x23 { strip_hashes(b.drop_first()) } else { b }
}

/// The colour `#RRGGBB` names: each component from its two hex digits
/// (204 where they do not parse), and (204, 204, 204) when fewer than six
/// bytes follow the leading `#`s.
pub open spec fn spec_parse_color(b: Seq<u8>) -> (u8, u8, u8) {
    let h = strip_hashes(b);
    if h.len() >= 6 {
        (component(h[0], h[1]), component(h[2], h[3]), component(h[4], h[5]))
    } else {
        (204, 204, 204)
    }
}

/// Byte `i` of `b` starts a character (or is the end).
pub open spec fn starts_char(b: Seq<u8>, i: int) -> bool {
    i == b.len() || (0 <= i < b.len() && !(0x80 <= b[i] <= 0xBF))
}

fn hex_digit_exec(b: u8) -> (r: Option<u8>)
    ensures
        r == hex_digit(b),
{
    if 0x30 <= b && b <= 0x39 {
        Some(b - 0x30)
    } else if 0x61 <= b && b <= 0x66 {
        Some(b - 0x61 + 10)
    } else if 0x41 <= b && b <= 0x46 {
        Some(b - 0x41 + 10)
    } else {
        None
    }
}

fn component_exec(x: u8, y: u8) -> (r: u8)
    ensures
        r == component(x, y),
{
    match (hex_digit_exec(x), hex_digit_exec(y)) {
        (Some(a), Some(b)) => a * 16 + b,
        (None, Some(b)) => if x == 0x2B { b } else { 204 },
        _ => 204,
    }
}

/// Parses a `#RRGGBB` colour; components that do not parse, or a string
/// too short, give 204 (the default foreground grey).
pub fn parse_color(hex: &str) -> (c: (u8, u8, u8))
    requires
        ({
            let h = strip_hashes(hex.spec_bytes());
            h.len() >= 6 ==> starts_char(h, 2) && starts_char(h, 4) && starts_char(h, 6)
        }),
    ensures
        c == spec_parse_color(hex.spec_bytes()),
{
    let b = hex.as_bytes();
    let mut k: usize = 0;
    assert(b@.skip(0) =~= b@);
    while k < b.len() && b[k] == 0x23
        invariant
            k <= b@.len(),
            strip_hashes(b@) == strip_hashes(b@.skip(k as int)),
        decreases b@.len() - k,
    {
        assert(b@.skip(k as int).drop_first() =~= b@.skip(k + 1));
        k = k + 1;
    }
    let ghost h = b@.skip(k as int);
    assert(strip_hashes(h) == h);
    if b.len() - k >= 6 {
        assert(h[0] == b@[k as int] && h[1] == b@[k + 1] && h[2] == b@[k + 2]);
        assert(h[3] == b@[k + 3] && h[4] == b@[k + 4] && h[5] == b@[k + 5]);
        (component_exec(b[k], b[k + 1]), component_exec(b[k + 2], b[k + 3]), component_exec(b[k + 4], b[k + 5]))
    } else {
        (204, 204, 204)
    }
}

// ---------------------------------------------------------------------
// Window placement
// ---------------------------------------------------------------------

/// `v / 2` rounded toward zero, as `i32` division does.
pub open spec fn half_toward_zero(v: int) -> int {
    if v >= 0 { v / 2 } else { -((-v) / 2) }
}

/// Where a `width` x `height` window goes to be centred in the work area
/// from (`left`, `top`) to (`right`, `bottom`).
pub open spec fn centred_origin(left: int, top: int, right: int, bottom: int, width: int, height: int) -> (int, int) {
    (left + half_toward_zero((right - left) - width), top + half_toward_zero((bottom - top) - height))
}

/// The placement can be computed in `i32`.
pub open spec fn placement_fits(left: int, top: int, right: int, bottom: int, width: int, height: int) -> bool {
    &&& i32::MIN <= right - left <= i32::MAX
    &&& i32::MIN <= bottom - top <= i32::MAX
    &&& i32::MIN <= (right - left) - width <= i32::MAX
    &&& i32::MIN <= (bottom - top) - height <= i32::MAX
    &&& i32::MIN <= centred_origin(left, top, right, bottom, width, height).0 <= i32::MAX
    &&& i32::MIN <= centred_origin(left, top, right, bottom, width, height).1 <= i32::MAX
}

fn half_i32(v: i32) -> (r: i32)
    ensures
        r == half_toward_zero(v as int),
{
    if v >= 0 {
        v / 2
    } else {
        let m: i64 = -(v as i64);
        let h: i64 = m / 2;
        (-h) as i32
    }
}

fn centred(left: i32, top: i32, right: i32, bottom: i32, width: i32, height: i32) -> (r: (i32, i32))
    requires
        placement_fits(left as int, top as int, right as int, bottom as int, width as int, height as int),
    ensures
        (r.0 as int, r.1 as int) == centred_origin(left as int, top as int, right as int, bottom as int, width as int, height as int),
{
    let x = left + half_i32((right - left) - width);
    let y = top + half_i32((bottom - top) - height);
    (x, y)
}

/// The window size used where no position was saved for the display.
pub const DEFAULT_WINDOW_WIDTH: i32 = 900;
pub const DEFAULT_WINDOW_HEIGHT: i32 = 600;

/// The placement where no position was saved for the display: a 900 x 600
/// window centred in the work area from (`left`, `top`) to (`right`,
/// `bottom`).
pub fn default_window_rect(left: i32, top: i32, right: i32, bottom: i32) -> (r: WindowPosition)
    requires
        placement_fits(left as int, top as int, right as int, bottom as int, 900, 600),
    ensures
        (r.x as int, r.y as int) == centred_origin(left as int, top as int, right as int, bottom as int, 900, 600),
        r.width == 900,
        r.height == 600,
{
    let (x, y) = centred(left, top, right, bottom, DEFAULT_WINDOW_WIDTH, DEFAULT_WINDOW_HEIGHT);
    WindowPosition { x, y, width: DEFAULT_WINDOW_WIDTH, height: DEFAULT_WINDOW_HEIGHT }
}

/// The placement of a saved window whose display is gone: its size, cut
/// down to the work area from (`left`, `top`) to (`right`, `bottom`) where
/// larger, centred in that work area.
pub fn fallback_window_rect(pos: &WindowPosition, left: i32, top: i32, right: i32, bottom: i32) -> (r: WindowPosition)
    requires
        i32::MIN <= right - left <= i32::MAX,
        i32::MIN <= bottom - top <= i32::MAX,
        placement_fits(
            left as int,
            top as int,
            right as int,
            bottom as int,
            if pos.width < right - left { pos.width as int } else { right - left },
            if pos.height < bottom - top { pos.height as int } else { bottom - top },
        ),
    ensures
        r.width == if pos.width < right - left { pos.width as int } else { right - left },
        r.height == if pos.height < bottom - top { pos.height as int } else { bottom - top },
        (r.x as int, r.y as int) == centred_origin(left as int, top as int, right as int, bottom as int, r.width as int, r.height as int),
{
    let aw = right - left;
    let ah = bottom - top;
    let width = if pos.width < aw { pos.width } else { aw };
    let height = if pos.height < ah { pos.height } else { ah };
    let (x, y) = centred(left, top, right, bottom, width, height);
    WindowPosition { x, y, width, height }
}

// ---------------------------------------------------------------------
// Colour references (0x00BBGGRR)
// ---------------------------------------------------------------------

/// The uppercase hex digit of `n` (below 16).
pub open spec fn upper_hex(n: int) -> char {
    if n < 10 { (0x30 + n) as char } else { (0x41 + n - 10) as char }
}

/// Two uppercase hex digits of `v` (below 256).
pub open spec fn hex_pair(v: int) -> Seq<char> {
    seq![upper_hex(v / 16), upper_hex(v % 16)]
}

/// `#RRGGBB` for a colour reference whose low three bytes are red, green
/// and blue.
pub open spec fn spec_colorref_to_hex(c: u32) -> Seq<char> {
    seq!['#'] + hex_pair((c % 256) as int) + hex_pair(((c / 256) % 256) as int) + hex_pair(((c / 65536) % 256) as int)
}

/// The colour reference of red, green and blue components.
pub open spec fn colorref(rgb: (u8, u8, u8)) -> u32 {
    (rgb.0 + rgb.1 * 256 + rgb.2 * 65536) as u32
}

fn upper_hex_exec(n: u32) -> (c: char)
    requires
        n < 16,
    ensures
        c == upper_hex(n as int),
{
    if n < 10 { ((0x30 + n) as u8) as char } else { ((0x41 + n - 10) as u8) as char }
}

/// `#RRGGBB` (uppercase) for a colour reference.
pub fn colorref_to_hex(c: u32) -> (s: String)
    ensures
        s@ == spec_colorref_to_hex(c),
{
    let r = c % 256;
    let g = (c / 256) % 256;
    let b = (c / 65536) % 256;
    let v: [char; 7] = [
        '#',
        upper_hex_exec(r / 16),
        upper_hex_exec(r % 16),
        upper_hex_exec(g / 16),
        upper_hex_exec(g % 16),
        upper_hex_exec(b / 16),
        upper_hex_exec(b % 16),
    ];
    assert(v@ =~= spec_colorref_to_hex(c));
    crate::text::string_from_chars(&v)
}

/// The colour reference a `#RRGGBB` setting names.
pub fn parse_hex_to_colorref(hex: &str) -> (c: u32)
    requires
        ({
            let h = strip_hashes(hex.spec_bytes());
            h.len() >= 6 ==> starts_char(h, 2) && starts_char(h, 4) && starts_char(h, 6)
        }),
    ensures
        c == colorref(spec_parse_color(hex.spec_bytes())),
{
    let (r, g, b) = parse_color(hex);
    r as u32 + g as u32 * 256 + b as u32 * 65536
}

proof fn lemma_hex_digit_of_upper(n: int)
    requires
        0 <= n < 16,
    ensures
        hex_digit(upper_hex(n) as u32 as u8) == Some(n as u8),
{
}

/// Writing a colour reference as `#RRGGBB` and reading it back gives the
/// same colour (its low three bytes).
pub proof fn lemma_colorref_hex_round_trip(c: u32)
    ensures
        colorref(spec_parse_color(vstd::utf8::encode_utf8(spec_colorref_to_hex(c)))) == c % 0x1000000,
{
    let s = spec_colorref_to_hex(c);
    let r = (c % 256) as int;
    let g = ((c / 256) % 256) as int;
    let b = ((c / 65536) % 256) as int;
    assert(vstd::utf8::is_ascii_chars(s)) by {
        assert forall|i: int| 0 <= i < s.len() implies '\0' <= #[trigger] s[i] <= '\u{7f}' by {}
    }
    vstd::utf8::is_ascii_chars_encode_utf8(s);
    let bytes = vstd::utf8::encode_utf8(s);
    assert(bytes.len() == 7);
    assert(bytes[0] == 0x23);
    let h = bytes.drop_first();
    assert(strip_hashes(bytes) == strip_hashes(h));
    assert(h[0] != 0x23) by {
        assert(bytes[1] == s[1] as u8);
    }
    assert(strip_hashes(h) == h);
    lemma_hex_digit_of_upper(r / 16);
    lemma_hex_digit_of_upper(r % 16);
    lemma_hex_digit_of_upper(g / 16);
    lemma_hex_digit_of_upper(g % 16);
    lemma_hex_digit_of_upper(b / 16);
    lemma_hex_digit_of_upper(b % 16);
    assert(h[0] == s[1] as u8 && h[1] == s[2] as u8 && h[2] == s[3] as u8);
    assert(h[3] == s[4] as u8 && h[4] == s[5] as u8 && h[5] == s[6] as u8);
    assert(component(h[0], h[1]) == r);
    assert(component(h[2], h[3]) == g);
    assert(component(h[4], h[5]) == b);
    assert(r + g * 256 + b * 65536 == c % 0x1000000) by (nonlinear_arith)
        requires
            r == c as int % 256,
            g == (c as int / 256) % 256,
            b == (c as int / 65536) % 256,
            c >= 0,
    {
    }
}

/// Whether `b` is an ASCII hex digit (either case).
pub open spec fn is_hex_byte(b: u8) -> bool {
    (0x30 <= b <= 0x39) || (0x41 <= b <= 0x46) || (0x61 <= b <= 0x66)
}

/// The value of an ASCII hex digit: `0`-`9`, then `a`-`f` or `A`-`F` for
/// 10-15.
pub open spec fn hex_value(b: u8) -> int {
    if b <= 0x39 { b - 0x30 } else if b >= 0x61 { b - 0x61 + 10 } else { b - 0x41 + 10 }
}

/// `#RRGGBB` with six hex digits (either case, any number of leading `#`)
/// names the colour whose components are the three two-digit hex numbers;
/// with fewer than six bytes after the `#`s it is the default grey
/// (204, 204, 204).
pub proof fn lemma_parse_hex_digits(hashes: nat, d: Seq<u8>)
    ensures
        ({
            let b = Seq::new(hashes, |i: int| 0x23u8) + d;
            &&& (d.len() >= 6 && (forall|i: int| 0 <= i < 6 ==> is_hex_byte(#[trigger] d[i]))) ==> spec_parse_color(b) == (
                (hex_value(d[0]) * 16 + hex_value(d[1])) as u8,
                (hex_value(d[2]) * 16 + hex_value(d[3])) as u8,
                (hex_value(d[4]) * 16 + hex_value(d[5])) as u8,
            )
            &&& (d.len() < 6 && (d.len() == 0 || d[0] != 0x23)) ==> spec_parse_color(b) == (204u8, 204u8, 204u8)
        }),
    decreases hashes,
{
    let b = Seq::new(hashes, |i: int| 0x23u8) + d;
    if hashes == 0 {
        assert(b =~= d);
        if d.len() > 0 && d[0] != 0x23 {
            assert(strip_hashes(d) == d);
        }
        if d.len() == 0 {
            assert(strip_hashes(d) == d);
        }
        if d.len() >= 6 && (forall|i: int| 0 <= i < 6 ==> is_hex_byte(#[trigger] d[i])) {
            assert(is_hex_byte(d[0]));
            assert(strip_hashes(d) == d);
            assert(is_hex_byte(d[1]) && is_hex_byte(d[2]) && is_hex_byte(d[3]) && is_hex_byte(d[4]) && is_hex_byte(d[5]));
        }
    } else {
        lemma_parse_hex_digits((hashes - 1) as nat, d);
        let b1 = Seq::new((hashes - 1) as nat, |i: int| 0x23u8) + d;
        assert(b.drop_first() =~= b1);
        assert(b[0] == 0x23u8);
    }
}

/// The modifier name whose flag is `m` (Alt 1, Ctrl 2, Shift 4, Win 8).
pub open spec fn modifier_name(m: u32) -> Seq<char> {
    if m == 1 {
        seq!['a', 'l', 't']
    } else if m == 2 {
        seq!['c', 't', 'r', 'l']
    } else if m == 4 {
        seq!['s', 'h', 'i', 'f', 't']
    } else {
        seq!['w', 'i', 'n']
    }
}

/// The hotkey flags hold Alt (1), Ctrl (2), Shift (4) or Win (8) exactly
/// when some field, trimmed and lowercased, names that modifier, whatever
/// the order of the fields or what else they hold; no other flag is ever
/// set.
pub proof fn lemma_modifier_flags(fields: Seq<Seq<char>>, m: u32)
    requires
        m == 1 || m == 2 || m == 4 || m == 8,
    ensures
        (flags_of(fields) & m != 0) <==> exists|i: int| 0 <= i < fields.len()
            && #[trigger] lower_text(trim(fields[i])) == modifier_name(m),
        flags_of(fields) & !15u32 == 0,
    decreases fields.len(),
{
    if fields.len() > 0 {
        let d = fields.drop_last();
        lemma_modifier_flags(d, m);
        let a = flags_of(d);
        let w = lower_text(trim(fields.last()));
        let bit = modifier_bit(w);
        assert(bit == 0 || bit == 1 || bit == 2 || bit == 4 || bit == 8);
        assert((a | bit) & m != 0 <==> (a & m != 0 || bit & m != 0)) by (bit_vector);
        assert(a & !15u32 == 0 && (bit == 0 || bit == 1 || bit == 2 || bit == 4 || bit == 8) ==> (a | bit) & !15u32 == 0) by (bit_vector);
        assert((m == 1 || m == 2 || m == 4 || m == 8) && (bit == 0 || bit == 1 || bit == 2 || bit == 4 || bit == 8)
            ==> (bit & m != 0 <==> bit == m)) by (bit_vector);
        assert(bit == m <==> w == modifier_name(m));
        if exists|i: int| 0 <= i < fields.len() && #[trigger] lower_text(trim(fields[i])) == modifier_name(m) {
            let i = choose|i: int| 0 <= i < fields.len() && #[trigger] lower_text(trim(fields[i])) == modifier_name(m);
            if i < d.len() {
                assert(d[i] == fields[i]);
            } else {
                assert(fields[i] == fields.last());
            }
        }
        if exists|i: int| 0 <= i < d.len() && #[trigger] lower_text(trim(d[i])) == modifier_name(m) {
            let i = choose|i: int| 0 <= i < d.len() && #[trigger] lower_text(trim(d[i])) == modifier_name(m);
            assert(fields[i] == d[i]);
        }
        assert(w == lower_text(trim(fields[fields.len() - 1])));
    } else {
        assert(flags_of(fields) == 0);
        assert(0u32 & m == 0 && 0u32 & !15u32 == 0) by (bit_vector);
    }
}

/// Hotkey key names are read in either case: `F1`..`F9` name the codes
/// 0x70..0x78 and `F10`..`F12` 0x79..0x7B; `space`, `tab` and `grave`
/// (or `` ` ``) name 0x20, 0x09 and 0xC0.
pub proof fn lemma_key_names(f: char, d: char, e: char)
    ensures
        (f == 'f' || f == 'F') && '1' <= d <= '9' ==> key_code(lower_text(seq![f, d])) == 0x70 + (d as u32 - '1' as u32),
        (f == 'f' || f == 'F') && '0' <= e <= '2' ==> key_code(lower_text(seq![f, '1', e])) == 0x79 + (e as u32 - '0' as u32),
        key_code(lower_text(seq!['S', 'p', 'a', 'c', 'e'])) == 0x20 && key_code(lower_text(seq!['s', 'p', 'a', 'c', 'e'])) == 0x20,
        key_code(lower_text(seq!['t', 'a', 'b'])) == 0x09 && key_code(lower_text(seq!['T', 'a', 'b'])) == 0x09,
        key_code(lower_text(seq!['g', 'r', 'a', 'v', 'e'])) == 0xC0 && key_code(lower_text(seq!['`'])) == 0xC0,
{
    let l1 = lower_text(seq![f, d]);
    let l2 = lower_text(seq![f, '1', e]);
    if (f == 'f' || f == 'F') && '1' <= d <= '9' {
        assert(all_ascii(seq![f, d]));
        assert(l1 =~= seq!['f', d]);
    }
    if (f == 'f' || f == 'F') && '0' <= e <= '2' {
        assert(all_ascii(seq![f, '1', e]));
        assert(l2 =~= seq!['f', '1', e]);
    }
    assert(all_ascii(seq!['S', 'p', 'a', 'c', 'e']));
    assert(lower_text(seq!['S', 'p', 'a', 'c', 'e']) =~= seq!['s', 'p', 'a', 'c', 'e']);
    assert(all_ascii(seq!['s', 'p', 'a', 'c', 'e']));
    assert(lower_text(seq!['s', 'p', 'a', 'c', 'e']) =~= seq!['s', 'p', 'a', 'c', 'e']);
    assert(all_ascii(seq!['t', 'a', 'b']));
    assert(lower_text(seq!['t', 'a', 'b']) =~= seq!['t', 'a', 'b']);
    assert(all_ascii(seq!['T', 'a', 'b']));
    assert(lower_text(seq!['T', 'a', 'b']) =~= seq!['t', 'a', 'b']);
    assert(all_ascii(seq!['g', 'r', 'a', 'v', 'e']));
    assert(lower_text(seq!['g', 'r', 'a', 'v', 'e']) =~= seq!['g', 'r', 'a', 'v', 'e']);
    assert(all_ascii(seq!['`']));
    assert(lower_text(seq!['`']) =~= seq!['`']);
}

} // verus!
