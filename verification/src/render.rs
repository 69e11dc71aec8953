//! Glyph tables for the box-drawing (U+2500..U+257F) and block-element
//! (U+2580..U+259F) characters, which the renderer draws as primitives so
//! that adjacent cells join without gaps.

use vstd::prelude::*;
use crate::terminal::cell::{Cell, Color, color_to_rgb, spec_color_to_rgb};

verus! {

/// The line weight on one side of a box-drawing character.
#[derive(Clone, Copy, Debug, PartialEq, Eq, Structural)]
pub enum LW {
    Empty,
    Light,
    Heavy,
    Double,
}

/// The line weight on each of the four sides (up, right, down, left).
#[derive(Clone, Copy, Debug, PartialEq, Eq, Structural)]
pub struct BoxEdges {
    pub u: LW,
    pub r: LW,
    pub d: LW,
    pub l: LW,
}

/// Whether code point `c` is a box-drawing or block-element character.
pub open spec fn is_box_code(c: u32) -> bool {
    0x2500 <= c <= 0x259F
}

/// Box Drawing (U+2500..U+257F) and Block Elements (U+2580..U+259F).
pub fn is_box_glyph(ch: char) -> (r: bool)
    ensures
        r == is_box_code(ch as u32),
{
    '\u{2500}' <= ch && ch <= '\u{259F}'
}

/// The side weights of each line-based box-drawing character.
pub open spec fn edges_table(c: u32) -> Option<BoxEdges> {
    match c {
        0x2500u32 => Some(BoxEdges { u: LW::Empty, r: LW::Light, d: LW::Empty, l: LW::Light }),
        0x2501u32 => Some(BoxEdges { u: LW::Empty, r: LW::Heavy, d: LW::Empty, l: LW::Heavy }),
        0x2502u32 => Some(BoxEdges { u: LW::Light, r: LW::Empty, d: LW::Light, l: LW::Empty }),
        0x2503u32 => Some(BoxEdges { u: LW::Heavy, r: LW::Empty, d: LW::Heavy, l: LW::Empty }),
        0x250Cu32 => Some(BoxEdges { u: LW::Empty, r: LW::Light, d: LW::Light, l: LW::Empty }),
        0x250Du32 => Some(BoxEdges { u: LW::Empty, r: LW::Heavy, d: LW::Light, l: LW::Empty }),
        0x250Eu32 => Some(BoxEdges { u: LW::Empty, r: LW::Light, d: LW::Heavy, l: LW::Empty }),
        0x250Fu32 => Some(BoxEdges { u: LW::Empty, r: LW::Heavy, d: LW::Heavy, l: LW::Empty }),
        0x2510u32 => Some(BoxEdges { u: LW::Empty, r: LW::Empty, d: LW::Light, l: LW::Light }),
        0x2511u32 => Some(BoxEdges { u: LW::Empty, r: LW::Empty, d: LW::Light, l: LW::Heavy }),
        0x2512u32 => Some(BoxEdges { u: LW::Empty, r: LW::Empty, d: LW::Heavy, l: LW::Light }),
        0x2513u32 => Some(BoxEdges { u: LW::Empty, r: LW::Empty, d: LW::Heavy, l: LW::Heavy }),
        0x2514u32 => Some(BoxEdges { u: LW::Light, r: LW::Light, d: LW::Empty, l: LW::Empty }),
        0x2515u32 => Some(BoxEdges { u: LW::Light, r: LW::Heavy, d: LW::Empty, l: LW::Empty }),
        0x2516u32 => Some(BoxEdges { u: LW::Heavy, r: LW::Light, d: LW::Empty, l: LW::Empty }),
        0x2517u32 => Some(BoxEdges { u: LW::Heavy, r: LW::Heavy, d: LW::Empty, l: LW::Empty }),
        0x2518u32 => Some(BoxEdges { u: LW::Light, r: LW::Empty, d: LW::Empty, l: LW::Light }),
        0x2519u32 => Some(BoxEdges { u: LW::Light, r: LW::Empty, d: LW::Empty, l: LW::Heavy }),
        0x251Au32 => Some(BoxEdges { u: LW::Heavy, r: LW::Empty, d: LW::Empty, l: LW::Light }),
        0x251Bu32 => Some(BoxEdges { u: LW::Heavy, r: LW::Empty, d: LW::Empty, l: LW::Heavy }),
        0x251Cu32 => Some(BoxEdges { u: LW::Light, r: LW::Light, d: LW::Light, l: LW::Empty }),
        0x251Du32 => Some(BoxEdges { u: LW::Light, r: LW::Heavy, d: LW::Light, l: LW::Empty }),
        0x251Eu32 => Some(BoxEdges { u: LW::Heavy, r: LW::Light, d: LW::Light, l: LW::Empty }),
        0x251Fu32 => Some(BoxEdges { u: LW::Light, r: LW::Light, d: LW::Heavy, l: LW::Empty }),
        0x2520u32 => Some(BoxEdges { u: LW::Heavy, r: LW::Light, d: LW::Heavy, l: LW::Empty }),
        0x2521u32 => Some(BoxEdges { u: LW::Heavy, r: LW::Heavy, d: LW::Light, l: LW::Empty }),
        0x2522u32 => Some(BoxEdges { u: LW::Light, r: LW::Heavy, d: LW::Heavy, l: LW::Empty }),
        0x2523u32 => Some(BoxEdges { u: LW::Heavy, r: LW::Heavy, d: LW::Heavy, l: LW::Empty }),
        0x2524u32 => Some(BoxEdges { u: LW::Light, r: LW::Empty, d: LW::Light, l: LW::Light }),
        0x2525u32 => Some(BoxEdges { u: LW::Light, r: LW::Empty, d: LW::Light, l: LW::Heavy }),
        0x2526u32 => Some(BoxEdges { u: LW::Heavy, r: LW::Empty, d: LW::Light, l: LW::Light }),
        0x2527u32 => Some(BoxEdges { u: LW::Light, r: LW::Empty, d: LW::Heavy, l: LW::Light }),
        0x2528u32 => Some(BoxEdges { u: LW::Heavy, r: LW::Empty, d: LW::Heavy, l: LW::Light }),
        0x2529u32 => Some(BoxEdges { u: LW::Heavy, r: LW::Empty, d: LW::Light, l: LW::Heavy }),
        0x252Au32 => Some(BoxEdges { u: LW::Light, r: LW::Empty, d: LW::Heavy, l: LW::Heavy }),
        0x252Bu32 => Some(BoxEdges { u: LW::Heavy, r: LW::Empty, d: LW::Heavy, l: LW::Heavy }),
        0x252Cu32 => Some(BoxEdges { u: LW::Empty, r: LW::Light, d: LW::Light, l: LW::Light }),
        0x252Du32 => Some(BoxEdges { u: LW::Empty, r: LW::Light, d: LW::Light, l: LW::Heavy }),
        0x252Eu32 => Some(BoxEdges { u: LW::Empty, r: LW::Heavy, d: LW::Light, l: LW::Light }),
        0x252Fu32 => Some(BoxEdges { u: LW::Empty, r: LW::Heavy, d: LW::Light, l: LW::Heavy }),
        0x2530u32 => Some(BoxEdges { u: LW::Empty, r: LW::Light, d: LW::Heavy, l: LW::Light }),
        0x2531u32 => Some(BoxEdges { u: LW::Empty, r: LW::Light, d: LW::Heavy, l: LW::Heavy }),
        0x2532u32 => Some(BoxEdges { u: LW::Empty, r: LW::Heavy, d: LW::Heavy, l: LW::Light }),
        0x2533u32 => Some(BoxEdges { u: LW::Empty, r: LW::Heavy, d: LW::Heavy, l: LW::Heavy }),
        0x2534u32 => Some(BoxEdges { u: LW::Light, r: LW::Light, d: LW::Empty, l: LW::Light }),
        0x2535u32 => Some(BoxEdges { u: LW::Light, r: LW::Light, d: LW::Empty, l: LW::Heavy }),
        0x2536u32 => Some(BoxEdges { u: LW::Light, r: LW::Heavy, d: LW::Empty, l: LW::Light }),
        0x2537u32 => Some(BoxEdges { u: LW::Light, r: LW::Heavy, d: LW::Empty, l: LW::Heavy }),
        0x2538u32 => Some(BoxEdges { u: LW::Heavy, r: LW::Light, d: LW::Empty, l: LW::Light }),
        0x2539u32 => Some(BoxEdges { u: LW::Heavy, r: LW::Light, d: LW::Empty, l: LW::Heavy }),
        0x253Au32 => Some(BoxEdges { u: LW::Heavy, r: LW::Heavy, d: LW::Empty, l: LW::Light }),
        0x253Bu32 => Some(BoxEdges { u: LW::Heavy, r: LW::Heavy, d: LW::Empty, l: LW::Heavy }),
        0x253Cu32 => Some(BoxEdges { u: LW::Light, r: LW::Light, d: LW::Light, l: LW::Light }),
        0x253Du32 => Some(BoxEdges { u: LW::Light, r: LW::Light, d: LW::Light, l: LW::Heavy }),
        0x253Eu32 => Some(BoxEdges { u: LW::Light, r: LW::Heavy, d: LW::Light, l: LW::Light }),
        0x253Fu32 => Some(BoxEdges { u: LW::Light, r: LW::Heavy, d: LW::Light, l: LW::Heavy }),
        0x2540u32 => Some(BoxEdges { u: LW::Heavy, r: LW::Light, d: LW::Light, l: LW::Light }),
        0x2541u32 => Some(BoxEdges { u: LW::Light, r: LW::Light, d: LW::Heavy, l: LW::Light }),
        0x2542u32 => Some(BoxEdges { u: LW::Heavy, r: LW::Light, d: LW::Heavy, l: LW::Light }),
        0x2543u32 => Some(BoxEdges { u: LW::Heavy, r: LW::Light, d: LW::Light, l: LW::Heavy }),
        0x2544u32 => Some(BoxEdges { u: LW::Heavy, r: LW::Heavy, d: LW::Light, l: LW::Light }),
        0x2545u32 => Some(BoxEdges { u: LW::Light, r: LW::Light, d: LW::Heavy, l: LW::Heavy }),
        0x2546u32 => Some(BoxEdges { u: LW::Light, r: LW::Heavy, d: LW::Heavy, l: LW::Light }),
        0x2547u32 => Some(BoxEdges { u: LW::Heavy, r: LW::Heavy, d: LW::Light, l: LW::Heavy }),
        0x2548u32 => Some(BoxEdges { u: LW::Light, r: LW::Heavy, d: LW::Heavy, l: LW::Heavy }),
        0x2549u32 => Some(BoxEdges { u: LW::Heavy, r: LW::Light, d: LW::Heavy, l: LW::Heavy }),
        0x254Au32 => Some(BoxEdges { u: LW::Heavy, r: LW::Heavy, d: LW::Heavy, l: LW::Light }),
        0x254Bu32 => Some(BoxEdges { u: LW::Heavy, r: LW::Heavy, d: LW::Heavy, l: LW::Heavy }),
        0x2550u32 => Some(BoxEdges { u: LW::Empty, r: LW::Double, d: LW::Empty, l: LW::Double }),
        0x2551u32 => Some(BoxEdges { u: LW::Double, r: LW::Empty, d: LW::Double, l: LW::Empty }),
        0x2552u32 => Some(BoxEdges { u: LW::Empty, r: LW::Double, d: LW::Light, l: LW::Empty }),
        0x2553u32 => Some(BoxEdges { u: LW::Empty, r: LW::Light, d: LW::Double, l: LW::Empty }),
        0x2554u32 => Some(BoxEdges { u: LW::Empty, r: LW::Double, d: LW::Double, l: LW::Empty }),
        0x2555u32 => Some(BoxEdges { u: LW::Empty, r: LW::Empty, d: LW::Light, l: LW::Double }),
        0x2556u32 => Some(BoxEdges { u: LW::Empty, r: LW::Empty, d: LW::Double, l: LW::Light }),
        0x2557u32 => Some(BoxEdges { u: LW::Empty, r: LW::Empty, d: LW::Double, l: LW::Double }),
        0x2558u32 => Some(BoxEdges { u: LW::Light, r: LW::Double, d: LW::Empty, l: LW::Empty }),
        0x2559u32 => Some(BoxEdges { u: LW::Double, r: LW::Light, d: LW::Empty, l: LW::Empty }),
        0x255Au32 => Some(BoxEdges { u: LW::Double, r: LW::Double, d: LW::Empty, l: LW::Empty }),
        0x255Bu32 => Some(BoxEdges { u: LW::Light, r: LW::Empty, d: LW::Empty, l: LW::Double }),
        0x255Cu32 => Some(BoxEdges { u: LW::Double, r: LW::Empty, d: LW::Empty, l: LW::Light }),
        0x255Du32 => Some(BoxEdges { u: LW::Double, r: LW::Empty, d: LW::Empty, l: LW::Double }),
        0x255Eu32 => Some(BoxEdges { u: LW::Light, r: LW::Double, d: LW::Light, l: LW::Empty }),
        0x255Fu32 => Some(BoxEdges { u: LW::Double, r: LW::Light, d: LW::Double, l: LW::Empty }),
        0x2560u32 => Some(BoxEdges { u: LW::Double, r: LW::Double, d: LW::Double, l: LW::Empty }),
        0x2561u32 => Some(BoxEdges { u: LW::Light, r: LW::Empty, d: LW::Light, l: LW::Double }),
        0x2562u32 => Some(BoxEdges { u: LW::Double, r: LW::Empty, d: LW::Double, l: LW::Light }),
        0x2563u32 => Some(BoxEdges { u: LW::Double, r: LW::Empty, d: LW::Double, l: LW::Double }),
        0x2564u32 => Some(BoxEdges { u: LW::Empty, r: LW::Double, d: LW::Light, l: LW::Double }),
        0x2565u32 => Some(BoxEdges { u: LW::Empty, r: LW::Light, d: LW::Double, l: LW::Light }),
        0x2566u32 => Some(BoxEdges { u: LW::Empty, r: LW::Double, d: LW::Double, l: LW::Double }),
        0x2567u32 => Some(BoxEdges { u: LW::Light, r: LW::Double, d: LW::Empty, l: LW::Double }),
        0x2568u32 => Some(BoxEdges { u: LW::Double, r: LW::Light, d: LW::Empty, l: LW::Light }),
        0x2569u32 => Some(BoxEdges { u: LW::Double, r: LW::Double, d: LW::Empty, l: LW::Double }),
        0x256Au32 => Some(BoxEdges { u: LW::Light, r: LW::Double, d: LW::Light, l: LW::Double }),
        0x256Bu32 => Some(BoxEdges { u: LW::Double, r: LW::Light, d: LW::Double, l: LW::Light }),
        0x256Cu32 => Some(BoxEdges { u: LW::Double, r: LW::Double, d: LW::Double, l: LW::Double }),
        0x2574u32 => Some(BoxEdges { u: LW::Empty, r: LW::Empty, d: LW::Empty, l: LW::Light }),
        0x2575u32 => Some(BoxEdges { u: LW::Light, r: LW::Empty, d: LW::Empty, l: LW::Empty }),
        0x2576u32 => Some(BoxEdges { u: LW::Empty, r: LW::Light, d: LW::Empty, l: LW::Empty }),
        0x2577u32 => Some(BoxEdges { u: LW::Empty, r: LW::Empty, d: LW::Light, l: LW::Empty }),
        0x2578u32 => Some(BoxEdges { u: LW::Empty, r: LW::Empty, d: LW::Empty, l: LW::Heavy }),
        0x2579u32 => Some(BoxEdges { u: LW::Heavy, r: LW::Empty, d: LW::Empty, l: LW::Empty }),
        0x257Au32 => Some(BoxEdges { u: LW::Empty, r: LW::Heavy, d: LW::Empty, l: LW::Empty }),
        0x257Bu32 => Some(BoxEdges { u: LW::Empty, r: LW::Empty, d: LW::Heavy, l: LW::Empty }),
        0x257Cu32 => Some(BoxEdges { u: LW::Empty, r: LW::Heavy, d: LW::Empty, l: LW::Light }),
        0x257Du32 => Some(BoxEdges { u: LW::Light, r: LW::Empty, d: LW::Heavy, l: LW::Empty }),
        0x257Eu32 => Some(BoxEdges { u: LW::Empty, r: LW::Light, d: LW::Empty, l: LW::Heavy }),
        0x257Fu32 => Some(BoxEdges { u: LW::Heavy, r: LW::Empty, d: LW::Light, l: LW::Empty }),
        _ => None,
    }
}

/// The characters that `edges_table` covers: the straight lines and their
/// joints. Arcs (U+256D..U+2570), diagonals (U+2571..U+2573) and dashed
/// lines are not among them.
pub open spec fn is_line_code(c: u32) -> bool {
    ||| 0x2500 <= c <= 0x2503
    ||| 0x250C <= c <= 0x254B
    ||| 0x2550 <= c <= 0x256C
    ||| 0x2574 <= c <= 0x257F
}

fn edges(u: LW, r: LW, d: LW, l: LW) -> (e: Option<BoxEdges>)
    ensures
        e == Some(BoxEdges { u, r, d, l }),
{
    Some(BoxEdges { u, r, d, l })
}

/// The line weight on each side of a line-based box-drawing character;
/// `None` for every other character.
#[verifier::rlimit(50)]
pub fn box_edges(ch: char) -> (e: Option<BoxEdges>)
    ensures
        e == edges_table(ch as u32),
        e.is_some() <==> is_line_code(ch as u32),
{
    match ch {
        '\u{2500}' => edges(LW::Empty, LW::Light, LW::Empty, LW::Light),
        '\u{2501}' => edges(LW::Empty, LW::Heavy, LW::Empty, LW::Heavy),
        '\u{2502}' => edges(LW::Light, LW::Empty, LW::Light, LW::Empty),
        '\u{2503}' => edges(LW::Heavy, LW::Empty, LW::Heavy, LW::Empty),
        '\u{250C}' => edges(LW::Empty, LW::Light, LW::Light, LW::Empty),
        '\u{250D}' => edges(LW::Empty, LW::Heavy, LW::Light, LW::Empty),
        '\u{250E}' => edges(LW::Empty, LW::Light, LW::Heavy, LW::Empty),
        '\u{250F}' => edges(LW::Empty, LW::Heavy, LW::Heavy, LW::Empty),
        '\u{2510}' => edges(LW::Empty, LW::Empty, LW::Light, LW::Light),
        '\u{2511}' => edges(LW::Empty, LW::Empty, LW::Light, LW::Heavy),
        '\u{2512}' => edges(LW::Empty, LW::Empty, LW::Heavy, LW::Light),
        '\u{2513}' => edges(LW::Empty, LW::Empty, LW::Heavy, LW::Heavy),
        '\u{2514}' => edges(LW::Light, LW::Light, LW::Empty, LW::Empty),
        '\u{2515}' => edges(LW::Light, LW::Heavy, LW::Empty, LW::Empty),
        '\u{2516}' => edges(LW::Heavy, LW::Light, LW::Empty, LW::Empty),
        '\u{2517}' => edges(LW::Heavy, LW::Heavy, LW::Empty, LW::Empty),
        '\u{2518}' => edges(LW::Light, LW::Empty, LW::Empty, LW::Light),
        '\u{2519}' => edges(LW::Light, LW::Empty, LW::Empty, LW::Heavy),
        '\u{251A}' => edges(LW::Heavy, LW::Empty, LW::Empty, LW::Light),
        '\u{251B}' => edges(LW::Heavy, LW::Empty, LW::Empty, LW::Heavy),
        '\u{251C}' => edges(LW::Light, LW::Light, LW::Light, LW::Empty),
        '\u{251D}' => edges(LW::Light, LW::Heavy, LW::Light, LW::Empty),
        '\u{251E}' => edges(LW::Heavy, LW::Light, LW::Light, LW::Empty),
        '\u{251F}' => edges(LW::Light, LW::Light, LW::Heavy, LW::Empty),
        '\u{2520}' => edges(LW::Heavy, LW::Light, LW::Heavy, LW::Empty),
        '\u{2521}' => edges(LW::Heavy, LW::Heavy, LW::Light, LW::Empty),
        '\u{2522}' => edges(LW::Light, LW::Heavy, LW::Heavy, LW::Empty),
        '\u{2523}' => edges(LW::Heavy, LW::Heavy, LW::Heavy, LW::Empty),
        '\u{2524}' => edges(LW::Light, LW::Empty, LW::Light, LW::Light),
        '\u{2525}' => edges(LW::Light, LW::Empty, LW::Light, LW::Heavy),
        '\u{2526}' => edges(LW::Heavy, LW::Empty, LW::Light, LW::Light),
        '\u{2527}' => edges(LW::Light, LW::Empty, LW::Heavy, LW::Light),
        '\u{2528}' => edges(LW::Heavy, LW::Empty, LW::Heavy, LW::Light),
        '\u{2529}' => edges(LW::Heavy, LW::Empty, LW::Light, LW::Heavy),
        '\u{252A}' => edges(LW::Light, LW::Empty, LW::Heavy, LW::Heavy),
        '\u{252B}' => edges(LW::Heavy, LW::Empty, LW::Heavy, LW::Heavy),
        '\u{252C}' => edges(LW::Empty, LW::Light, LW::Light, LW::Light),
        '\u{252D}' => edges(LW::Empty, LW::Light, LW::Light, LW::Heavy),
        '\u{252E}' => edges(LW::Empty, LW::Heavy, LW::Light, LW::Light),
        '\u{252F}' => edges(LW::Empty, LW::Heavy, LW::Light, LW::Heavy),
        '\u{2530}' => edges(LW::Empty, LW::Light, LW::Heavy, LW::Light),
        '\u{2531}' => edges(LW::Empty, LW::Light, LW::Heavy, LW::Heavy),
        '\u{2532}' => edges(LW::Empty, LW::Heavy, LW::Heavy, LW::Light),
        '\u{2533}' => edges(LW::Empty, LW::Heavy, LW::Heavy, LW::Heavy),
        '\u{2534}' => edges(LW::Light, LW::Light, LW::Empty, LW::Light),
        '\u{2535}' => edges(LW::Light, LW::Light, LW::Empty, LW::Heavy),
        '\u{2536}' => edges(LW::Light, LW::Heavy, LW::Empty, LW::Light),
        '\u{2537}' => edges(LW::Light, LW::Heavy, LW::Empty, LW::Heavy),
        '\u{2538}' => edges(LW::Heavy, LW::Light, LW::Empty, LW::Light),
        '\u{2539}' => edges(LW::Heavy, LW::Light, LW::Empty, LW::Heavy),
        '\u{253A}' => edges(LW::Heavy, LW::Heavy, LW::Empty, LW::Light),
        '\u{253B}' => edges(LW::Heavy, LW::Heavy, LW::Empty, LW::Heavy),
        '\u{253C}' => edges(LW::Light, LW::Light, LW::Light, LW::Light),
        '\u{253D}' => edges(LW::Light, LW::Light, LW::Light, LW::Heavy),
        '\u{253E}' => edges(LW::Light, LW::Heavy, LW::Light, LW::Light),
        '\u{253F}' => edges(LW::Light, LW::Heavy, LW::Light, LW::Heavy),
        '\u{2540}' => edges(LW::Heavy, LW::Light, LW::Light, LW::Light),
        '\u{2541}' => edges(LW::Light, LW::Light, LW::Heavy, LW::Light),
        '\u{2542}' => edges(LW::Heavy, LW::Light, LW::Heavy, LW::Light),
        '\u{2543}' => edges(LW::Heavy, LW::Light, LW::Light, LW::Heavy),
        '\u{2544}' => edges(LW::Heavy, LW::Heavy, LW::Light, LW::Light),
        '\u{2545}' => edges(LW::Light, LW::Light, LW::Heavy, LW::Heavy),
        '\u{2546}' => edges(LW::Light, LW::Heavy, LW::Heavy, LW::Light),
        '\u{2547}' => edges(LW::Heavy, LW::Heavy, LW::Light, LW::Heavy),
        '\u{2548}' => edges(LW::Light, LW::Heavy, LW::Heavy, LW::Heavy),
        '\u{2549}' => edges(LW::Heavy, LW::Light, LW::Heavy, LW::Heavy),
        '\u{254A}' => edges(LW::Heavy, LW::Heavy, LW::Heavy, LW::Light),
        '\u{254B}' => edges(LW::Heavy, LW::Heavy, LW::Heavy, LW::Heavy),
        '\u{2550}' => edges(LW::Empty, LW::Double, LW::Empty, LW::Double),
        '\u{2551}' => edges(LW::Double, LW::Empty, LW::Double, LW::Empty),
        '\u{2552}' => edges(LW::Empty, LW::Double, LW::Light, LW::Empty),
        '\u{2553}' => edges(LW::Empty, LW::Light, LW::Double, LW::Empty),
        '\u{2554}' => edges(LW::Empty, LW::Double, LW::Double, LW::Empty),
        '\u{2555}' => edges(LW::Empty, LW::Empty, LW::Light, LW::Double),
        '\u{2556}' => edges(LW::Empty, LW::Empty, LW::Double, LW::Light),
        '\u{2557}' => edges(LW::Empty, LW::Empty, LW::Double, LW::Double),
        '\u{2558}' => edges(LW::Light, LW::Double, LW::Empty, LW::Empty),
        '\u{2559}' => edges(LW::Double, LW::Light, LW::Empty, LW::Empty),
        '\u{255A}' => edges(LW::Double, LW::Double, LW::Empty, LW::Empty),
        '\u{255B}' => edges(LW::Light, LW::Empty, LW::Empty, LW::Double),
        '\u{255C}' => edges(LW::Double, LW::Empty, LW::Empty, LW::Light),
        '\u{255D}' => edges(LW::Double, LW::Empty, LW::Empty, LW::Double),
        '\u{255E}' => edges(LW::Light, LW::Double, LW::Light, LW::Empty),
        '\u{255F}' => edges(LW::Double, LW::Light, LW::Double, LW::Empty),
        '\u{2560}' => edges(LW::Double, LW::Double, LW::Double, LW::Empty),
        '\u{2561}' => edges(LW::Light, LW::Empty, LW::Light, LW::Double),
        '\u{2562}' => edges(LW::Double, LW::Empty, LW::Double, LW::Light),
        '\u{2563}' => edges(LW::Double, LW::Empty, LW::Double, LW::Double),
        '\u{2564}' => edges(LW::Empty, LW::Double, LW::Light, LW::Double),
        '\u{2565}' => edges(LW::Empty, LW::Light, LW::Double, LW::Light),
        '\u{2566}' => edges(LW::Empty, LW::Double, LW::Double, LW::Double),
        '\u{2567}' => edges(LW::Light, LW::Double, LW::Empty, LW::Double),
        '\u{2568}' => edges(LW::Double, LW::Light, LW::Empty, LW::Light),
        '\u{2569}' => edges(LW::Double, LW::Double, LW::Empty, LW::Double),
        '\u{256A}' => edges(LW::Light, LW::Double, LW::Light, LW::Double),
        '\u{256B}' => edges(LW::Double, LW::Light, LW::Double, LW::Light),
        '\u{256C}' => edges(LW::Double, LW::Double, LW::Double, LW::Double),
        '\u{2574}' => edges(LW::Empty, LW::Empty, LW::Empty, LW::Light),
        '\u{2575}' => edges(LW::Light, LW::Empty, LW::Empty, LW::Empty),
        '\u{2576}' => edges(LW::Empty, LW::Light, LW::Empty, LW::Empty),
        '\u{2577}' => edges(LW::Empty, LW::Empty, LW::Light, LW::Empty),
        '\u{2578}' => edges(LW::Empty, LW::Empty, LW::Empty, LW::Heavy),
        '\u{2579}' => edges(LW::Heavy, LW::Empty, LW::Empty, LW::Empty),
        '\u{257A}' => edges(LW::Empty, LW::Heavy, LW::Empty, LW::Empty),
        '\u{257B}' => edges(LW::Empty, LW::Empty, LW::Heavy, LW::Empty),
        '\u{257C}' => edges(LW::Empty, LW::Heavy, LW::Empty, LW::Light),
        '\u{257D}' => edges(LW::Light, LW::Empty, LW::Heavy, LW::Empty),
        '\u{257E}' => edges(LW::Empty, LW::Light, LW::Empty, LW::Heavy),
        '\u{257F}' => edges(LW::Heavy, LW::Empty, LW::Light, LW::Empty),
        _ => None,
    }
}

/// Dash count, orientation and weight of each dashed-line character.
pub open spec fn dash_table(c: u32) -> Option<(usize, bool, bool)> {
    match c {
        0x2504u32 => Some((3usize, false, false)),
        0x2505u32 => Some((3usize, false, true)),
        0x2506u32 => Some((3usize, true, false)),
        0x2507u32 => Some((3usize, true, true)),
        0x2508u32 => Some((4usize, false, false)),
        0x2509u32 => Some((4usize, false, true)),
        0x250Au32 => Some((4usize, true, false)),
        0x250Bu32 => Some((4usize, true, true)),
        0x254Cu32 => Some((2usize, false, false)),
        0x254Du32 => Some((2usize, false, true)),
        0x254Eu32 => Some((2usize, true, false)),
        0x254Fu32 => Some((2usize, true, true)),
        _ => None,
    }
}

/// Dashed-line spec `(dash_count, vertical, heavy)`; `None` for every
/// character that is not a dashed line.
pub fn box_dash_spec(ch: char) -> (r: Option<(usize, bool, bool)>)
    ensures
        r == dash_table(ch as u32),
        r.is_some() <==> (0x2504 <= ch as u32 <= 0x250B || 0x254C <= ch as u32 <= 0x254F),
{
    match ch {
        '\u{2504}' => Some((3, false, false)),
        '\u{2505}' => Some((3, false, true)),
        '\u{2506}' => Some((3, true, false)),
        '\u{2507}' => Some((3, true, true)),
        '\u{2508}' => Some((4, false, false)),
        '\u{2509}' => Some((4, false, true)),
        '\u{250A}' => Some((4, true, false)),
        '\u{250B}' => Some((4, true, true)),
        '\u{254C}' => Some((2, false, false)),
        '\u{254D}' => Some((2, false, true)),
        '\u{254E}' => Some((2, true, false)),
        '\u{254F}' => Some((2, true, true)),
        _ => None,
    }
}

/// The line table and the dash table never claim the same character, and
/// both lie within the box-drawing block.
pub proof fn lemma_box_tables_disjoint(c: u32)
    ensures
        !(edges_table(c) is Some && dash_table(c) is Some),
        edges_table(c) is Some ==> is_box_code(c) && c < 0x2580,
        dash_table(c) is Some ==> is_box_code(c) && c < 0x2580,
{
}

/// Every line character has a line on at least two sides, except the
/// half lines U+2574..U+257B, which have exactly one.
pub proof fn lemma_line_sides(c: u32)
    requires
        edges_table(c) is Some,
    ensures
        ({
            let e = edges_table(c)->0;
            let n = (if e.u != LW::Empty { 1int } else { 0 }) + (if e.r != LW::Empty { 1int } else { 0 })
                + (if e.d != LW::Empty { 1int } else { 0 }) + (if e.l != LW::Empty { 1int } else { 0 });
            if 0x2574 <= c <= 0x257B { n == 1 } else { n >= 2 }
        }),
{
}

// ---------------------------------------------------------------------
// Cell colours
// ---------------------------------------------------------------------

/// How one cell is painted.
#[derive(Clone, Copy, Debug)]
pub struct CellStyle {
    /// The background fill; none where the window's background shows.
    pub background: Option<(u8, u8, u8)>,
    /// The colour of the character.
    pub foreground: (u8, u8, u8),
    pub bold: bool,
    /// Drawn at half strength.
    pub dim: bool,
    /// The underline's colour, when the cell is underlined.
    pub underline: Option<(u8, u8, u8)>,
    /// Whether there is a character to draw (not a space or NUL).
    pub has_text: bool,
}

/// A cell colour as RGB: the default colour is the configured one.
pub open spec fn resolve_color(c: Color, is_fg: bool, default: (u8, u8, u8)) -> (u8, u8, u8) {
    match c {
        Color::Default => default,
        _ => spec_color_to_rgb(c, is_fg),
    }
}

/// How a cell is painted with the configured default colours: a selected
/// cell is drawn in reverse default colours; an inverse cell swaps its
/// colours; the background is filled only where it differs from the
/// default (or the cell is selected); a selected cell is neither dim nor
/// underlined.
pub open spec fn spec_cell_style(cell: Cell, selected: bool, fg_default: (u8, u8, u8), bg_default: (u8, u8, u8)) -> CellStyle {
    let inv = cell.attrs.inverse;
    let bg = if selected {
        fg_default
    } else if inv {
        resolve_color(cell.fg, true, fg_default)
    } else {
        resolve_color(cell.bg, false, bg_default)
    };
    let fg = if selected {
        bg_default
    } else if inv {
        resolve_color(cell.bg, false, bg_default)
    } else {
        resolve_color(cell.fg, true, fg_default)
    };
    CellStyle {
        background: if bg != bg_default || selected { Some(bg) } else { None },
        foreground: fg,
        bold: cell.attrs.bold,
        dim: cell.attrs.dim && !selected,
        underline: if cell.attrs.underline && !selected {
            Some(if inv { resolve_color(cell.bg, false, bg_default) } else { resolve_color(cell.fg, true, fg_default) })
        } else {
            None
        },
        has_text: cell.ch != ' ' && cell.ch != '\0',
    }
}

fn resolve(c: &Color, is_fg: bool, default: (u8, u8, u8)) -> (r: (u8, u8, u8))
    ensures
        r == resolve_color(*c, is_fg, default),
{
    match c {
        Color::Default => default,
        _ => color_to_rgb(c, is_fg),
    }
}

/// How `cell` is painted, selected or not, with the configured default
/// foreground and background.
pub fn cell_style(cell: &Cell, selected: bool, fg_default: (u8, u8, u8), bg_default: (u8, u8, u8)) -> (s: CellStyle)
    ensures
        s == spec_cell_style(*cell, selected, fg_default, bg_default),
{
    let inv = cell.attrs.inverse;
    let bg = if selected {
        fg_default
    } else if inv {
        resolve(&cell.fg, true, fg_default)
    } else {
        resolve(&cell.bg, false, bg_default)
    };
    let fg = if selected {
        bg_default
    } else if inv {
        resolve(&cell.bg, false, bg_default)
    } else {
        resolve(&cell.fg, true, fg_default)
    };
    let differs = bg.0 != bg_default.0 || bg.1 != bg_default.1 || bg.2 != bg_default.2;
    let underline = if cell.attrs.underline && !selected {
        Some(if inv { resolve(&cell.bg, false, bg_default) } else { resolve(&cell.fg, true, fg_default) })
    } else {
        None
    };
    CellStyle {
        background: if differs || selected { Some(bg) } else { None },
        foreground: fg,
        bold: cell.attrs.bold,
        dim: cell.attrs.dim && !selected,
        underline,
        has_text: cell.ch != ' ' && cell.ch != '\0',
    }
}

// ---------------------------------------------------------------------
// Block elements
// ---------------------------------------------------------------------

/// How a block element (U+2580..U+259F) fills its cell: a shade over the
/// whole cell at 1, 2 or 3 quarters of full strength, or rectangles given
/// in eighths of the cell as (left, top, right, bottom).
#[derive(Debug)]
pub enum BlockFill {
    Shade(u8),
    Rects(Vec<(u8, u8, u8, u8)>),
}

/// The rectangles of block element `c`, in eighths of the cell.
pub open spec fn block_rects(c: u32) -> Seq<(u8, u8, u8, u8)> {
    if c == 0x2580 { seq![(0u8, 0u8, 8u8, 4u8)] }
    else if 0x2581 <= c <= 0x2587 { seq![(0u8, (0x2588 - c) as u8, 8u8, 8u8)] }
    else if c == 0x2588 { seq![(0u8, 0u8, 8u8, 8u8)] }
    else if 0x2589 <= c <= 0x258F { seq![(0u8, 0u8, (0x2590 - c) as u8, 8u8)] }
    else if c == 0x2590 { seq![(4u8, 0u8, 8u8, 8u8)] }
    else if c == 0x2594 { seq![(0u8, 0u8, 8u8, 1u8)] }
    else if c == 0x2595 { seq![(7u8, 0u8, 8u8, 8u8)] }
    else if c == 0x2596 { seq![(0u8, 4u8, 4u8, 8u8)] }
    else if c == 0x2597 { seq![(4u8, 4u8, 8u8, 8u8)] }
    else if c == 0x2598 { seq![(0u8, 0u8, 4u8, 4u8)] }
    else if c == 0x2599 { seq![(0u8, 0u8, 4u8, 4u8), (0u8, 4u8, 8u8, 8u8)] }
    else if c == 0x259A { seq![(0u8, 0u8, 4u8, 4u8), (4u8, 4u8, 8u8, 8u8)] }
    else if c == 0x259B { seq![(0u8, 0u8, 8u8, 4u8), (0u8, 4u8, 4u8, 8u8)] }
    else if c == 0x259C { seq![(0u8, 0u8, 8u8, 4u8), (4u8, 4u8, 8u8, 8u8)] }
    else if c == 0x259D { seq![(4u8, 0u8, 8u8, 4u8)] }
    else if c == 0x259E { seq![(4u8, 0u8, 8u8, 4u8), (0u8, 4u8, 4u8, 8u8)] }
    else if c == 0x259F { seq![(4u8, 0u8, 8u8, 4u8), (0u8, 4u8, 8u8, 8u8)] }
    else { Seq::empty() }
}

/// How block element `ch` fills its cell: the shades U+2591..U+2593 at 1,
/// 2 and 3 quarters; the other block elements as rectangles; nothing for
/// any other character.
pub fn block_fill(ch: char) -> (f: BlockFill)
    ensures
        0x2591 <= ch as u32 <= 0x2593 ==> (f matches BlockFill::Shade(q) && q == ch as u32 - 0x2590),
        !(0x2591 <= ch as u32 <= 0x2593) ==> (f matches BlockFill::Rects(v) && v@ == block_rects(ch as u32)),
{
    let c = ch as u32;
    if 0x2591 <= c && c <= 0x2593 {
        return BlockFill::Shade((c - 0x2590) as u8);
    }
    let v: Vec<(u8, u8, u8, u8)> = if c == 0x2580 {
        vec![(0, 0, 8, 4)]
    } else if 0x2581 <= c && c <= 0x2587 {
        let top = (0x2588 - c) as u8;
        vec![(0, top, 8, 8)]
    } else if c == 0x2588 {
        vec![(0, 0, 8, 8)]
    } else if 0x2589 <= c && c <= 0x258F {
        let right = (0x2590 - c) as u8;
        vec![(0, 0, right, 8)]
    } else if c == 0x2590 {
        vec![(4, 0, 8, 8)]
    } else if c == 0x2594 {
        vec![(0, 0, 8, 1)]
    } else if c == 0x2595 {
        vec![(7, 0, 8, 8)]
    } else if c == 0x2596 {
        vec![(0, 4, 4, 8)]
    } else if c == 0x2597 {
        vec![(4, 4, 8, 8)]
    } else if c == 0x2598 {
        vec![(0, 0, 4, 4)]
    } else if c == 0x2599 {
        vec![(0, 0, 4, 4), (0, 4, 8, 8)]
    } else if c == 0x259A {
        vec![(0, 0, 4, 4), (4, 4, 8, 8)]
    } else if c == 0x259B {
        vec![(0, 0, 8, 4), (0, 4, 4, 8)]
    } else if c == 0x259C {
        vec![(0, 0, 8, 4), (4, 4, 8, 8)]
    } else if c == 0x259D {
        vec![(4, 0, 8, 4)]
    } else if c == 0x259E {
        vec![(4, 0, 8, 4), (0, 4, 4, 8)]
    } else if c == 0x259F {
        vec![(4, 0, 8, 4), (0, 4, 8, 8)]
    } else {
        Vec::new()
    };
    assert(v@ =~= block_rects(c));
    BlockFill::Rects(v)
}

/// The colour a style paints its background with: its fill, or the
/// default background where there is none.
pub open spec fn shown_background(st: CellStyle, bg_default: (u8, u8, u8)) -> (u8, u8, u8) {
    match st.background {
        Some(c) => c,
        None => bg_default,
    }
}

/// Inverse video swaps a cell's colours: with `inverse` set, the cell's
/// text takes the colour its background had, and its background the
/// colour its text had. A selected cell is drawn in the reverse default
/// colours (default foreground behind default background text), never dim
/// and never underlined. Only cells holding something other than a space
/// or NUL have text to draw.
pub proof fn lemma_cell_style_colours(cell: Cell, fg_default: (u8, u8, u8), bg_default: (u8, u8, u8))
    ensures
        ({
            let plain = spec_cell_style(
                Cell { attrs: crate::terminal::cell::CellAttrs { inverse: false, ..cell.attrs }, ..cell },
                false,
                fg_default,
                bg_default,
            );
            let inv = spec_cell_style(
                Cell { attrs: crate::terminal::cell::CellAttrs { inverse: true, ..cell.attrs }, ..cell },
                false,
                fg_default,
                bg_default,
            );
            let sel = spec_cell_style(cell, true, fg_default, bg_default);
            &&& inv.foreground == shown_background(plain, bg_default)
            &&& shown_background(inv, bg_default) == plain.foreground
            &&& sel.background == Some(fg_default) && sel.foreground == bg_default
            &&& !sel.dim && sel.underline is None
            &&& plain.has_text == (cell.ch != ' ' && cell.ch != '\0')
        }),
{
}

/// The block elements fill eighths of the cell: U+2581..U+2587 the lower
/// 1..7 eighths, U+2589..U+258F the left 7..1 eighths, U+2588 all of it,
/// U+2580 the upper half, U+2590 the right half, U+2594 the upper eighth,
/// U+2595 the right eighth; U+2591..U+2593 shade the whole cell at 1, 2
/// and 3 quarters.
pub proof fn lemma_block_eighths(c: u32)
    ensures
        0x2581 <= c <= 0x2587 ==> block_rects(c) == seq![(0u8, (8 - (c - 0x2580)) as u8, 8u8, 8u8)],
        0x2589 <= c <= 0x258F ==> block_rects(c) == seq![(0u8, 0u8, (8 - (c - 0x2588)) as u8, 8u8)],
        c == 0x2588 ==> block_rects(c) == seq![(0u8, 0u8, 8u8, 8u8)],
        c == 0x2580 ==> block_rects(c) == seq![(0u8, 0u8, 8u8, 4u8)],
        c == 0x2590 ==> block_rects(c) == seq![(4u8, 0u8, 8u8, 8u8)],
        c == 0x2594 ==> block_rects(c) == seq![(0u8, 0u8, 8u8, 1u8)],
        c == 0x2595 ==> block_rects(c) == seq![(7u8, 0u8, 8u8, 8u8)],
        (c < 0x2580 || c > 0x259F) ==> block_rects(c).len() == 0,
{
}

} // verus!
