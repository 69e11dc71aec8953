use vstd::prelude::*;

verus! {

/// A cell colour: the terminal default, an index into the 256-colour
/// palette, or a direct RGB value.
#[derive(Clone, Copy, PartialEq, Eq, Structural, Debug)]
pub enum Color {
    Default,
    Indexed(u8),
    Rgb(u8, u8, u8),
}

impl Default for Color {
    fn default() -> (c: Self)
        ensures
            c == Color::Default,
    {
        Color::Default
    }
}

/// Rendition flags of a cell.
#[derive(Clone, Copy, PartialEq, Eq, Structural, Debug)]
pub struct CellAttrs {
    pub bold: bool,
    pub dim: bool,
    pub italic: bool,
    pub underline: bool,
    pub inverse: bool,
    pub hidden: bool,
    pub strikethrough: bool,
}

/// All rendition flags cleared.
pub open spec fn plain_attrs() -> CellAttrs {
    CellAttrs {
        bold: false,
        dim: false,
        italic: false,
        underline: false,
        inverse: false,
        hidden: false,
        strikethrough: false,
    }
}

impl Default for CellAttrs {
    fn default() -> (a: Self)
        ensures
            a == plain_attrs(),
    {
        CellAttrs {
            bold: false,
            dim: false,
            italic: false,
            underline: false,
            inverse: false,
            hidden: false,
            strikethrough: false,
        }
    }
}

/// One character cell of the screen. `width` is 1 for a normal glyph,
/// 2 for the first half of a wide glyph and 0 for its continuation cell.
#[derive(Clone, Copy, PartialEq, Eq, Structural, Debug)]
pub struct Cell {
    pub ch: char,
    pub fg: Color,
    pub bg: Color,
    pub attrs: CellAttrs,
    pub width: u8,
}

/// The blank cell: a space in default colours, width 1.
pub open spec fn blank_cell() -> Cell {
    Cell { ch: ' ', fg: Color::Default, bg: Color::Default, attrs: plain_attrs(), width: 1 }
}

impl Cell {
    /// The blank cell (same value as `Cell::default()`).
    pub fn blank() -> (c: Cell)
        ensures
            c == blank_cell(),
    {
        Cell {
            ch: ' ',
            fg: Color::Default,
            bg: Color::Default,
            attrs: CellAttrs::default(),
            width: 1,
        }
    }
}

impl Default for Cell {
    fn default() -> (c: Self)
        ensures
            c == blank_cell(),
    {
        Cell::blank()
    }
}

/// The 16 base ANSI colours (palette entries 0 to 15).
pub open spec fn spec_ansi_color(index: u8) -> (u8, u8, u8) {
    if index == 0 { (12, 12, 12) }
    else if index == 1 { (205, 49, 49) }
    else if index == 2 { (13, 188, 121) }
    else if index == 3 { (229, 229, 16) }
    else if index == 4 { (36, 114, 200) }
    else if index == 5 { (188, 63, 188) }
    else if index == 6 { (17, 168, 205) }
    else if index == 7 { (204, 204, 204) }
    else if index == 8 { (118, 118, 118) }
    else if index == 9 { (241, 76, 76) }
    else if index == 10 { (35, 209, 139) }
    else if index == 11 { (245, 245, 67) }
    else if index == 12 { (59, 142, 234) }
    else if index == 13 { (214, 112, 214) }
    else if index == 14 { (41, 184, 219) }
    else { (242, 242, 242) }
}

/// The level of one axis of the 6x6x6 colour cube: 0, or 55 + 40 * k.
pub open spec fn cube_level(k: int) -> int {
    if k > 0 { k * 40 + 55 } else { 0 }
}

/// The xterm 256-colour palette.
pub open spec fn spec_indexed_color(index: u8) -> (u8, u8, u8) {
    if index < 16 {
        spec_ansi_color(index)
    } else if index < 232 {
        let i = index - 16;
        (
            cube_level(i / 36) as u8,
            cube_level((i % 36) / 6) as u8,
            cube_level(i % 6) as u8,
        )
    } else {
        let v = 8 + (index - 232) * 10;
        (v as u8, v as u8, v as u8)
    }
}

/// The RGB value a colour stands for, with the default foreground
/// (204, 204, 204) and default background (12, 12, 12).
pub open spec fn spec_color_to_rgb(color: Color, is_fg: bool) -> (u8, u8, u8) {
    match color {
        Color::Default => if is_fg { (204, 204, 204) } else { (12, 12, 12) },
        Color::Indexed(i) => spec_indexed_color(i),
        Color::Rgb(r, g, b) => (r, g, b),
    }
}

fn ansi_color(index: u8) -> (rgb: (u8, u8, u8))
    requires
        index < 16,
    ensures
        rgb == spec_ansi_color(index),
{
    match index {
        0 => (12, 12, 12),
        1 => (205, 49, 49),
        2 => (13, 188, 121),
        3 => (229, 229, 16),
        4 => (36, 114, 200),
        5 => (188, 63, 188),
        6 => (17, 168, 205),
        7 => (204, 204, 204),
        8 => (118, 118, 118),
        9 => (241, 76, 76),
        10 => (35, 209, 139),
        11 => (245, 245, 67),
        12 => (59, 142, 234),
        13 => (214, 112, 214),
        14 => (41, 184, 219),
        _ => (242, 242, 242),
    }
}

/// Resolve a colour to RGB; `is_fg` picks the default for `Color::Default`.
pub fn color_to_rgb(color: &Color, is_fg: bool) -> (rgb: (u8, u8, u8))
    ensures
        rgb == spec_color_to_rgb(*color, is_fg),
{
    match color {
        Color::Default => {
            if is_fg {
                (204, 204, 204)
            } else {
                (12, 12, 12)
            }
        },
        Color::Indexed(i) => indexed_color(*i),
        Color::Rgb(r, g, b) => (*r, *g, *b),
    }
}

fn indexed_color(index: u8) -> (rgb: (u8, u8, u8))
    ensures
        rgb == spec_indexed_color(index),
{
    if index < 16 {
        ansi_color(index)
    } else if index < 232 {
        let i = index - 16;
        let r = if i / 36 > 0 { (i / 36) * 40 + 55 } else { 0 };
        let g = if (i % 36) / 6 > 0 { ((i % 36) / 6) * 40 + 55 } else { 0 };
        let b = if i % 6 > 0 { (i % 6) * 40 + 55 } else { 0 };
        (r, g, b)
    } else {
        let v = 8 + (index - 232) * 10;
        (v, v, v)
    }
}

/// The xterm 256-colour palette beyond the 16 base colours: entry
/// `16 + 36 r + 6 g + b` (each of r, g, b below 6) is the colour cube
/// point whose components are 0 for level 0 and 55 + 40 * level otherwise,
/// and entry `232 + k` (k below 24) is the grey 8 + 10 k. Direct RGB
/// colours stand for themselves; the defaults are (204, 204, 204) in the
/// foreground and (12, 12, 12) in the background.
pub proof fn lemma_palette(r: u8, g: u8, b: u8, k: u8, is_fg: bool)
    ensures
        (r < 6 && g < 6 && b < 6) ==> {
            let lvl = |x: u8| if x == 0 { 0u8 } else { (55 + 40 * x) as u8 };
            spec_color_to_rgb(Color::Indexed((16 + 36 * r + 6 * g + b) as u8), is_fg) == (lvl(r), lvl(g), lvl(b))
        },
        k < 24 ==> spec_color_to_rgb(Color::Indexed((232 + k) as u8), is_fg)
            == ((8 + 10 * k) as u8, (8 + 10 * k) as u8, (8 + 10 * k) as u8),
        spec_color_to_rgb(Color::Rgb(r, g, b), is_fg) == (r, g, b),
        spec_color_to_rgb(Color::Default, true) == (204u8, 204u8, 204u8),
        spec_color_to_rgb(Color::Default, false) == (12u8, 12u8, 12u8),
{
    if r < 6 && g < 6 && b < 6 {
        let i: int = 36 * r + 6 * g + b;
        assert(i / 36 == r as int && (i % 36) / 6 == g as int && i % 6 == b as int) by (nonlinear_arith)
            requires
                i == 36 * r + 6 * g + b,
                r < 6,
                g < 6,
                b < 6,
        ;
    }
}

} // verus!
