use vstd::prelude::*;

verus! {

pub type Rgb = (u8, u8, u8);

pub type Rgba = (u8, u8, u8, u8);

/// Base palette entry `i` (0..16), in percent.
pub open spec fn default_percent(i: int) -> (int, int, int) {
    if i == 0 { (0, 0, 0) }
    else if i == 1 { (20, 20, 80) }
    else if i == 2 { (80, 13, 13) }
    else if i == 3 { (20, 80, 20) }
    else if i == 4 { (80, 20, 80) }
    else if i == 5 { (20, 80, 80) }
    else if i == 6 { (80, 80, 20) }
    else if i == 7 { (53, 53, 53) }
    else if i == 8 { (26, 26, 26) }
    else if i == 9 { (33, 33, 100) }
    else if i == 10 { (100, 26, 26) }
    else if i == 11 { (33, 100, 33) }
    else if i == 12 { (100, 33, 100) }
    else if i == 13 { (33, 100, 100) }
    else if i == 14 { (100, 100, 33) }
    else { (100, 100, 100) }
}

/// A colour component given in percent (0..100), scaled to 0..255 and
/// truncated to a byte.
pub open spec fn scale_percent(v: int) -> u8 {
    (v * 255 / 100) as u8
}

/// The initial palette: 16 base colours, the other 240 entries black.
pub open spec fn initial_palette() -> Seq<Rgb> {
    Seq::new(256, |i: int| if i < 16 {
        let (r, g, b) = default_percent(i);
        (scale_percent(r), scale_percent(g), scale_percent(b))
    } else {
        (0u8, 0u8, 0u8)
    })
}

/// The decimal number at `data[i..]` (capped at `i32::MAX`; 0 when no digit
/// stands there) and the index after its digits.
pub open spec fn number_at(data: Seq<u8>, i: int) -> (i32, int) {
    number_from(data, i, 0)
}

/// Digits from `i` on, accumulated onto `acc`.
pub open spec fn number_from(data: Seq<u8>, i: int, acc: i32) -> (i32, int)
    decreases data.len() - i,
{
    if 0 <= i < data.len() && 48 <= data[i] <= 57 {
        let d = data[i] - 48;
        let next = if acc * 10 + d > i32::MAX { i32::MAX } else { (acc * 10 + d) as i32 };
        number_from(data, i + 1, next)
    } else {
        (acc, i)
    }
}

/// The decoder's state between two commands.
pub struct SixelState {
    pub colors: Seq<Rgb>,
    pub pixels: Seq<Seq<Rgba>>,
    pub cur_color: usize,
    pub x: usize,
    pub sixel_row: usize,
    pub max_x: usize,
}

pub open spec fn initial_state() -> SixelState {
    SixelState {
        colors: initial_palette(),
        pixels: Seq::empty(),
        cur_color: 0,
        x: 0,
        sixel_row: 0,
        max_x: 0,
    }
}

pub open spec fn sat_add(a: usize, b: int) -> usize {
    if a + b > usize::MAX { usize::MAX } else { (a + b) as usize }
}

/// Pixel (`x`, `y`) set to `c` (opaque); missing rows are added empty and
/// a short row is padded with transparent pixels.
pub open spec fn set_pixel(p: Seq<Seq<Rgba>>, x: int, y: int, c: Rgb) -> Seq<Seq<Rgba>> {
    let p1 = if p.len() <= y { p + Seq::new((y + 1 - p.len()) as nat, |k: int| Seq::<Rgba>::empty()) } else { p };
    let row = p1[y];
    let row1 = if row.len() <= x { row + Seq::new((x + 1 - row.len()) as nat, |k: int| (0u8, 0u8, 0u8, 0u8)) } else { row };
    p1.update(y, row1.update(x, (c.0, c.1, c.2, 255u8)))
}

/// The colour used for drawing: the palette entry, white past its end.
pub open spec fn draw_color(colors: Seq<Rgb>, idx: usize) -> Rgb {
    if idx < colors.len() { colors[idx as int] } else { (255u8, 255u8, 255u8) }
}

/// `row * 6`, capped at `usize::MAX`.
pub open spec fn sat_mul6(row: usize) -> usize {
    if row * 6 > usize::MAX { usize::MAX } else { (row * 6) as usize }
}

/// Bits `0..bits` of sixel `s` drawn at column `x` of sixel row `row`.
/// A coordinate that has reached `usize::MAX` is never drawn.
pub open spec fn draw_bits(p: Seq<Seq<Rgba>>, c: Rgb, s: u8, x: usize, row: usize, bits: nat) -> Seq<Seq<Rgba>>
    decreases bits,
{
    if bits == 0 {
        p
    } else {
        let p1 = draw_bits(p, c, s, x, row, (bits - 1) as nat);
        let bit = (bits - 1) as u8;
        let y = sat_add(sat_mul6(row), bit as int);
        if s & (1u8 << bit) != 0 && x < usize::MAX && y < usize::MAX {
            set_pixel(p1, x as int, y as int, c)
        } else {
            p1
        }
    }
}

/// A sixel (six vertical pixels) drawn `count` times, advancing `x`.
pub open spec fn draw_repeat(st: SixelState, s: u8, count: nat) -> SixelState
    decreases count,
{
    if count == 0 {
        st
    } else {
        let st1 = draw_repeat(st, s, (count - 1) as nat);
        SixelState {
            pixels: draw_bits(st1.pixels, draw_color(st1.colors, st1.cur_color), s, st1.x, st1.sixel_row, 6),
            x: sat_add(st1.x, 1),
            ..st1
        }
    }
}

pub open spec fn widen(st: SixelState) -> SixelState {
    if st.x > st.max_x { SixelState { max_x: st.x, ..st } } else { st }
}

/// Index after an optional `;` at `i`.
pub open spec fn skip_semicolon(data: Seq<u8>, i: int) -> int {
    if 0 <= i < data.len() && data[i] == 0x3B { i + 1 } else { i }
}

/// `#Pc;Pu;Px;Py;Pz`: select colour `Pc`, and with `Pu` = 2 define it
/// from RGB percentages.
pub open spec fn color_command(st: SixelState, data: Seq<u8>, i: int) -> (SixelState, int) {
    let (idx, i1) = number_at(data, i + 1);
    if 0 <= i1 < data.len() && data[i1] == 0x3B {
        let (ctype, i2) = number_at(data, i1 + 1);
        let (v1, i3) = number_at(data, skip_semicolon(data, i2));
        let (v2, i4) = number_at(data, skip_semicolon(data, i3));
        let (v3, i5) = number_at(data, skip_semicolon(data, i4));
        let colors = if ctype == 2 && (idx as usize) < st.colors.len() {
            st.colors.update(idx as usize as int, (scale_percent(v1 as int), scale_percent(v2 as int), scale_percent(v3 as int)))
        } else {
            st.colors
        };
        (SixelState { colors, cur_color: idx as usize, ..st }, i5)
    } else {
        (SixelState { cur_color: idx as usize, ..st }, i1)
    }
}

/// One command at `data[i]`: the new state and the index of the next one.
pub open spec fn sixel_step(st: SixelState, data: Seq<u8>, i: int) -> (SixelState, int) {
    let b = data[i];
    if b == 0x23 {
        color_command(st, data, i)
    } else if b == 0x21 {
        let (count, j) = number_at(data, i + 1);
        if 0 <= j < data.len() && 0x3F <= data[j] <= 0x7E {
            (widen(draw_repeat(st, (data[j] - 0x3F) as u8, count as nat)), j + 1)
        } else {
            (st, if j < data.len() { j + 1 } else { j })
        }
    } else if b == 0x24 {
        (SixelState { x: 0, ..st }, i + 1)
    } else if b == 0x2D {
        (SixelState { sixel_row: sat_add(st.sixel_row, 1), x: 0, ..st }, i + 1)
    } else if 0x3F <= b <= 0x7E {
        (widen(draw_repeat(st, (b - 0x3F) as u8, 1)), i + 1)
    } else {
        (st, i + 1)
    }
}

/// The decoder run over `data[i..]`.
pub open spec fn sixel_run(st: SixelState, data: Seq<u8>, i: int) -> SixelState
    decreases data.len() - i,
{
    if i < 0 || i >= data.len() {
        st
    } else {
        let (st1, j) = sixel_step(st, data, i);
        if i < j < data.len() { sixel_run(st1, data, j) } else { st1 }
    }
}

/// The four bytes of a pixel.
pub open spec fn pixel_bytes(p: Rgba) -> Seq<u8> {
    seq![p.0, p.1, p.2, p.3]
}

/// The first `w` pixels of `row` as RGBA bytes (transparent past its end).
pub open spec fn row_bytes(row: Seq<Rgba>, w: nat) -> Seq<u8>
    decreases w,
{
    if w == 0 {
        Seq::empty()
    } else {
        row_bytes(row, (w - 1) as nat) + pixel_bytes(
            if w - 1 < row.len() { row[w - 1] } else { (0u8, 0u8, 0u8, 0u8) },
        )
    }
}

/// Rows `0..h` of `pixels`, `w` pixels each, as RGBA bytes.
pub open spec fn image_bytes(pixels: Seq<Seq<Rgba>>, w: nat, h: nat) -> Seq<u8>
    decreases h,
{
    if h == 0 { Seq::empty() } else { image_bytes(pixels, w, (h - 1) as nat) + row_bytes(pixels[h - 1], w) }
}

/// What `decode` returns: `None` when nothing was drawn, otherwise the
/// width (the furthest column reached), the height (the rows touched) and
/// the RGBA bytes.
pub open spec fn spec_decode(data: Seq<u8>) -> Option<(u32, u32, Seq<u8>)> {
    let st = sixel_run(initial_state(), data, 0);
    if st.pixels.len() == 0 || st.max_x == 0 {
        None
    } else {
        Some((st.max_x as u32, st.pixels.len() as u32, image_bytes(st.pixels, st.max_x as nat, st.pixels.len())))
    }
}

/// The image's byte size fits in `u32`, as `decode` computes it.
pub open spec fn dims_fit(data: Seq<u8>) -> bool {
    let st = sixel_run(initial_state(), data, 0);
    st.max_x * st.pixels.len() * 4 <= u32::MAX
}

/// The rows of an exec pixel buffer as sequences.
pub open spec fn rows_view(v: Seq<Vec<Rgba>>) -> Seq<Seq<Rgba>> {
    Seq::new(v.len(), |k: int| v[k]@)
}

/// Decoder state held in exec memory.
struct Decoder {
    colors: Vec<Rgb>,
    pixels: Vec<Vec<Rgba>>,
    cur_color: usize,
    x: usize,
    sixel_row: usize,
    max_x: usize,
}

impl Decoder {
    spec fn model(&self) -> SixelState {
        SixelState {
            colors: self.colors@,
            pixels: rows_view(self.pixels@),
            cur_color: self.cur_color,
            x: self.x,
            sixel_row: self.sixel_row,
            max_x: self.max_x,
        }
    }
}

/// A percentage (0..=i32::MAX) scaled to 0..255, truncated to a byte.
fn scale(v: i32) -> (r: u8)
    requires
        v >= 0,
    ensures
        r == scale_percent(v as int),
{
    let w: i64 = v as i64 * 255 / 100;
    w as u8
}

/// Base palette entry `i` in percent.
fn base_percent(i: usize) -> (p: (i32, i32, i32))
    requires
        i < 16,
    ensures
        (p.0 as int, p.1 as int, p.2 as int) == default_percent(i as int),
        p.0 >= 0,
        p.1 >= 0,
        p.2 >= 0,
{
    match i {
        0 => (0, 0, 0),
        1 => (20, 20, 80),
        2 => (80, 13, 13),
        3 => (20, 80, 20),
        4 => (80, 20, 80),
        5 => (20, 80, 80),
        6 => (80, 80, 20),
        7 => (53, 53, 53),
        8 => (26, 26, 26),
        9 => (33, 33, 100),
        10 => (100, 26, 26),
        11 => (33, 100, 33),
        12 => (100, 33, 100),
        13 => (33, 100, 100),
        14 => (100, 100, 33),
        _ => (100, 100, 100),
    }
}

fn new_palette() -> (colors: Vec<Rgb>)
    ensures
        colors@ == initial_palette(),
{
    let mut colors: Vec<Rgb> = Vec::new();
    let mut i: usize = 0;
    while i < 256
        invariant
            i <= 256,
            colors@.len() == i,
            forall|k: int| 0 <= k < i ==> colors@[k] == #[trigger] initial_palette()[k],
        decreases 256 - i,
    {
        if i < 16 {
            let (r, g, b) = base_percent(i);
            colors.push((scale(r), scale(g), scale(b)));
        } else {
            colors.push((0, 0, 0));
        }
        i = i + 1;
    }
    assert(colors@ =~= initial_palette());
    colors
}

/// Reads the decimal digits at `*i`, advancing past them.
fn parse_num(data: &[u8], i: &mut usize) -> (n: i32)
    requires
        *old(i) <= data@.len(),
    ensures
        (n, *final(i) as int) == number_at(data@, *old(i) as int),
        *old(i) <= *final(i) <= data@.len(),
        n >= 0,
{
    let mut n: i32 = 0;
    while *i < data.len() && 48 <= data[*i] && data[*i] <= 57
        invariant
            *old(i) <= *i <= data@.len(),
            n >= 0,
            number_from(data@, *i as int, n) == number_at(data@, *old(i) as int),
        decreases data@.len() - *i,
    {
        let d: i64 = (data[*i] - 48) as i64;
        let v: i64 = n as i64 * 10 + d;
        n = if v > i32::MAX as i64 { i32::MAX } else { v as i32 };
        *i = *i + 1;
    }
    n
}

fn sat_inc(a: usize) -> (r: usize)
    ensures
        r == sat_add(a, 1),
{
    if a < usize::MAX { a + 1 } else { usize::MAX }
}

/// Sets pixel (`x`, `y`), growing the buffer as needed.
fn put_pixel(pixels: &mut Vec<Vec<Rgba>>, x: usize, y: usize, c: Rgb)
    requires
        x < usize::MAX,
        y < usize::MAX,
    ensures
        rows_view(final(pixels)@) == set_pixel(rows_view(old(pixels)@), x as int, y as int, c),
{
    let ghost p0 = rows_view(old(pixels)@);
    while pixels.len() <= y
        invariant
            y < usize::MAX,
            p0 == rows_view(old(pixels)@),
            old(pixels)@.len() <= pixels@.len() <= if old(pixels)@.len() <= y { y + 1 } else { old(pixels)@.len() as int },
            rows_view(pixels@) == p0 + Seq::new((pixels@.len() - old(pixels)@.len()) as nat, |k: int| Seq::<Rgba>::empty()),
        decreases y + 1 - pixels@.len(),
    {
        let ghost before = pixels@;
        let fresh: Vec<Rgba> = Vec::new();
        pixels.push(fresh);
        assert forall|k: int| 0 <= k < before.len() implies #[trigger] rows_view(pixels@)[k] == rows_view(before)[k] by {
            assert(pixels@[k] == before[k]);
        }
        assert(rows_view(pixels@)[before.len() as int] == Seq::<Rgba>::empty());
        assert(rows_view(pixels@) =~= p0 + Seq::new((pixels@.len() - old(pixels)@.len()) as nat, |k: int| Seq::<Rgba>::empty()));
    }
    let ghost p1 = rows_view(pixels@);
    let ghost r0 = p1[y as int];
    let mut row: Vec<Rgba> = Vec::new();
    std::mem::swap(&mut row, &mut pixels[y]);
    assert(row@ == r0);
    while row.len() <= x
        invariant
            x < usize::MAX,
            r0.len() <= row@.len() <= if r0.len() <= x { x + 1 } else { r0.len() as int },
            row@ == r0 + Seq::new((row@.len() - r0.len()) as nat, |k: int| (0u8, 0u8, 0u8, 0u8)),
        decreases x + 1 - row@.len(),
    {
        row.push((0, 0, 0, 0));
        assert(row@ =~= r0 + Seq::new((row@.len() - r0.len()) as nat, |k: int| (0u8, 0u8, 0u8, 0u8)));
    }
    row.set(x, (c.0, c.1, c.2, 255));
    pixels.set(y, row);
    assert(rows_view(pixels@) =~= set_pixel(p0, x as int, y as int, c));
}

impl Decoder {
    /// Draws sixel `s` once at the current position.
    fn draw_sixel(&mut self, s: u8)
        ensures
            final(self).model() == (SixelState {
                pixels: draw_bits(old(self).model().pixels, draw_color(old(self).colors@, old(self).cur_color), s, old(self).x, old(self).sixel_row, 6),
                ..old(self).model()
            }),
    {
        let c: Rgb = if self.cur_color < self.colors.len() { self.colors[self.cur_color] } else { (255, 255, 255) };
        let base: usize = if self.sixel_row <= usize::MAX / 6 { self.sixel_row * 6 } else { usize::MAX };
        assert(base == sat_mul6(self.sixel_row)) by (nonlinear_arith)
            requires
                base == (if self.sixel_row <= usize::MAX / 6 { self.sixel_row * 6 } else { usize::MAX as int }),
        {
        }
        let mut bit: u8 = 0;
        while bit < 6
            invariant
                bit <= 6,
                base == sat_mul6(old(self).sixel_row),
                c == draw_color(old(self).colors@, old(self).cur_color),
                self.colors@ == old(self).colors@,
                self.cur_color == old(self).cur_color,
                self.x == old(self).x,
                self.sixel_row == old(self).sixel_row,
                self.max_x == old(self).max_x,
                rows_view(self.pixels@) == draw_bits(rows_view(old(self).pixels@), c, s, self.x, self.sixel_row, bit as nat),
            decreases 6 - bit,
        {
            let y: usize = if base <= usize::MAX - (bit as usize) { base + bit as usize } else { usize::MAX };
            if s & (1u8 << bit) != 0 && self.x < usize::MAX && y < usize::MAX {
                put_pixel(&mut self.pixels, self.x, y, c);
            }
            bit = bit + 1;
        }
    }

    /// Draws sixel `s` `count` times, advancing the column each time.
    fn draw_repeat(&mut self, s: u8, count: usize)
        ensures
            final(self).model() == draw_repeat(old(self).model(), s, count as nat),
    {
        let mut k: usize = 0;
        while k < count
            invariant
                k <= count,
                self.model() == draw_repeat(old(self).model(), s, k as nat),
            decreases count - k,
        {
            self.draw_sixel(s);
            self.x = sat_inc(self.x);
            k = k + 1;
        }
    }

    fn widen(&mut self)
        ensures
            final(self).model() == widen(old(self).model()),
    {
        if self.x > self.max_x {
            self.max_x = self.x;
        }
    }

    /// `#Pc;Pu;Px;Py;Pz` starting at `data[i]`; returns the index after it.
    fn color_command(&mut self, data: &[u8], i: usize) -> (next: usize)
        requires
            i < data.len(),
        ensures
            (final(self).model(), next as int) == color_command(old(self).model(), data@, i as int),
            next <= data@.len(),
            next > i,
    {
        let mut j: usize = i + 1;
        let idx = parse_num(data, &mut j);
        if j < data.len() && data[j] == 0x3B {
            j = j + 1;
            let ctype = parse_num(data, &mut j);
            if j < data.len() && data[j] == 0x3B {
                j = j + 1;
            }
            let v1 = parse_num(data, &mut j);
            if j < data.len() && data[j] == 0x3B {
                j = j + 1;
            }
            let v2 = parse_num(data, &mut j);
            if j < data.len() && data[j] == 0x3B {
                j = j + 1;
            }
            let v3 = parse_num(data, &mut j);
            if ctype == 2 && (idx as usize) < self.colors.len() {
                self.colors.set(idx as usize, (scale(v1), scale(v2), scale(v3)));
            }
        }
        self.cur_color = idx as usize;
        j
    }

    /// One command at `data[i]`; returns the index of the next one.
    fn step(&mut self, data: &[u8], i: usize) -> (next: usize)
        requires
            i < data.len(),
        ensures
            (final(self).model(), next as int) == sixel_step(old(self).model(), data@, i as int),
            i < next <= data@.len(),
    {
        let b = data[i];
        if b == 0x23 {
            self.color_command(data, i)
        } else if b == 0x21 {
            let mut j: usize = i + 1;
            let count = parse_num(data, &mut j);
            if j < data.len() && 0x3F <= data[j] && data[j] <= 0x7E {
                self.draw_repeat(data[j] - 0x3F, count as usize);
                self.widen();
                j + 1
            } else if j < data.len() {
                j + 1
            } else {
                j
            }
        } else if b == 0x24 {
            self.x = 0;
            i + 1
        } else if b == 0x2D {
            self.sixel_row = sat_inc(self.sixel_row);
            self.x = 0;
            i + 1
        } else if 0x3F <= b && b <= 0x7E {
            self.draw_repeat(b - 0x3F, 1);
            self.widen();
            i + 1
        } else {
            i + 1
        }
    }
}

/// Appends the first `w` pixels of `row` as RGBA bytes (transparent past
/// the row's end).
fn push_row(out: &mut Vec<u8>, row: &Vec<Rgba>, w: usize)
    ensures
        final(out)@ == old(out)@ + row_bytes(row@, w as nat),
{
    let mut x: usize = 0;
    while x < w
        invariant
            x <= w,
            out@ == old(out)@ + row_bytes(row@, x as nat),
        decreases w - x,
    {
        let p: Rgba = if x < row.len() { row[x] } else { (0, 0, 0, 0) };
        out.push(p.0);
        out.push(p.1);
        out.push(p.2);
        out.push(p.3);
        x = x + 1;
        assert(out@ =~= old(out)@ + row_bytes(row@, x as nat));
    }
}

/// Decodes sixel data (the DCS payload after the `q` introducer) into
/// width, height and row-major RGBA bytes; `None` when nothing was drawn.
///
/// Colours are selected and defined with `#`, `!n` repeats the next sixel
/// `n` times, `$` returns to the first column and `-` moves down one sixel
/// row (six pixels).
pub fn decode(data: &[u8]) -> (r: Option<(u32, u32, Vec<u8>)>)
    requires
        dims_fit(data@),
    ensures
        match spec_decode(data@) {
            None => r is None,
            Some(t) => r matches Some(v) && v.0 == t.0 && v.1 == t.1 && v.2@ == t.2,
        },
{
    let mut st = Decoder {
        colors: new_palette(),
        pixels: Vec::new(),
        cur_color: 0,
        x: 0,
        sixel_row: 0,
        max_x: 0,
    };
    assert(st.model() == initial_state()) by {
        assert(rows_view(st.pixels@) =~= Seq::<Seq<Rgba>>::empty());
    }
    let mut i: usize = 0;
    while i < data.len()
        invariant
            i <= data@.len(),
            sixel_run(st.model(), data@, i as int) == sixel_run(initial_state(), data@, 0),
        decreases data@.len() - i,
    {
        i = st.step(data, i);
    }
    let ghost fin = st.model();
    assert(fin == sixel_run(initial_state(), data@, 0));
    if st.pixels.len() == 0 || st.max_x == 0 {
        return None;
    }
    let ghost len = st.pixels@.len();
    assert(st.max_x <= u32::MAX && len <= u32::MAX) by (nonlinear_arith)
        requires
            st.max_x * len * 4 <= u32::MAX,
            st.max_x >= 1,
            len >= 1,
    {
    }
    let height = st.pixels.len() as u32;
    let width = st.max_x as u32;
    let mut rgba: Vec<u8> = Vec::new();
    let mut y: usize = 0;
    while y < st.pixels.len()
        invariant
            y <= st.pixels@.len(),
            st.model() == fin,
            width == st.max_x,
            rgba@ == image_bytes(fin.pixels, width as nat, y as nat),
        decreases st.pixels@.len() - y,
    {
        push_row(&mut rgba, &st.pixels[y], st.max_x);
        assert(fin.pixels[y as int] == st.pixels@[y as int]@);
        y = y + 1;
    }
    Some((width, height, rgba))
}

/// A decoded pixel is opaque, or fully transparent black.
pub open spec fn pixel_ok(p: Rgba) -> bool {
    p.3 == 255 || p == (0u8, 0u8, 0u8, 0u8)
}

pub open spec fn pixels_ok(p: Seq<Seq<Rgba>>) -> bool {
    forall|y: int, x: int| 0 <= y < p.len() && 0 <= x < p[y].len() ==> pixel_ok(#[trigger] p[y][x])
}

/// Pixel `k` of RGBA bytes is opaque, or fully transparent black.
pub open spec fn quad_ok(bytes: Seq<u8>, k: int) -> bool {
    bytes[4 * k + 3] == 255 || (bytes[4 * k] == 0 && bytes[4 * k + 1] == 0 && bytes[4 * k + 2] == 0
        && bytes[4 * k + 3] == 0)
}

/// `bytes` holds `n` pixels, each opaque or fully transparent black.
pub open spec fn quads_ok(bytes: Seq<u8>, n: int) -> bool {
    &&& bytes.len() == 4 * n
    &&& forall|k: int| 0 <= k < n ==> #[trigger] quad_ok(bytes, k)
}

proof fn lemma_set_pixel_ok(p: Seq<Seq<Rgba>>, x: int, y: int, c: Rgb)
    requires
        pixels_ok(p),
        0 <= x,
        0 <= y,
    ensures
        pixels_ok(set_pixel(p, x, y, c)),
{
    let p1 = if p.len() <= y { p + Seq::new((y + 1 - p.len()) as nat, |k: int| Seq::<Rgba>::empty()) } else { p };
    assert(pixels_ok(p1)) by {
        assert forall|yy: int, xx: int| 0 <= yy < p1.len() && 0 <= xx < p1[yy].len() implies pixel_ok(#[trigger] p1[yy][xx]) by {
            if yy < p.len() {
                assert(p1[yy] == p[yy]);
            }
        }
    }
    let row = p1[y];
    let row1 = if row.len() <= x { row + Seq::new((x + 1 - row.len()) as nat, |k: int| (0u8, 0u8, 0u8, 0u8)) } else { row };
    assert forall|xx: int| 0 <= xx < row1.len() implies pixel_ok(#[trigger] row1[xx]) by {
        if xx < row.len() {
            assert(row1[xx] == row[xx]);
            assert(pixel_ok(p1[y][xx]));
        }
    }
    let q = set_pixel(p, x, y, c);
    assert(q == p1.update(y, row1.update(x, (c.0, c.1, c.2, 255u8))));
    assert forall|yy: int, xx: int| 0 <= yy < q.len() && 0 <= xx < q[yy].len() implies pixel_ok(#[trigger] q[yy][xx]) by {
        if yy == y {
            if xx != x {
                assert(q[yy][xx] == row1[xx]);
            }
        } else {
            assert(q[yy] == p1[yy]);
            assert(pixel_ok(p1[yy][xx]));
        }
    }
}

proof fn lemma_draw_bits_ok(p: Seq<Seq<Rgba>>, c: Rgb, s: u8, x: usize, row: usize, bits: nat)
    requires
        pixels_ok(p),
    ensures
        pixels_ok(draw_bits(p, c, s, x, row, bits)),
    decreases bits,
{
    if bits > 0 {
        lemma_draw_bits_ok(p, c, s, x, row, (bits - 1) as nat);
        let p1 = draw_bits(p, c, s, x, row, (bits - 1) as nat);
        let bit = (bits - 1) as u8;
        let y = sat_add(sat_mul6(row), bit as int);
        lemma_set_pixel_ok(p1, x as int, y as int, c);
    }
}

proof fn lemma_draw_repeat_ok(st: SixelState, s: u8, count: nat)
    requires
        pixels_ok(st.pixels),
    ensures
        pixels_ok(draw_repeat(st, s, count).pixels),
    decreases count,
{
    if count > 0 {
        lemma_draw_repeat_ok(st, s, (count - 1) as nat);
        let st1 = draw_repeat(st, s, (count - 1) as nat);
        lemma_draw_bits_ok(st1.pixels, draw_color(st1.colors, st1.cur_color), s, st1.x, st1.sixel_row, 6);
    }
}

proof fn lemma_sixel_run_ok(st: SixelState, data: Seq<u8>, i: int)
    requires
        pixels_ok(st.pixels),
    ensures
        pixels_ok(sixel_run(st, data, i).pixels),
    decreases data.len() - i,
{
    if 0 <= i < data.len() {
        let b = data[i];
        let (count, j) = number_at(data, i + 1);
        if b == 0x21 && 0 <= j < data.len() && 0x3F <= data[j] <= 0x7E {
            lemma_draw_repeat_ok(st, (data[j] - 0x3F) as u8, count as nat);
        }
        if 0x3F <= b <= 0x7E {
            lemma_draw_repeat_ok(st, (b - 0x3F) as u8, 1);
        }
        let (st1, j2) = sixel_step(st, data, i);
        assert(pixels_ok(st1.pixels));
        if i < j2 < data.len() {
            lemma_sixel_run_ok(st1, data, j2);
        }
    }
}

proof fn lemma_quads_concat(a: Seq<u8>, n: int, b: Seq<u8>, m: int)
    requires
        n >= 0,
        m >= 0,
        quads_ok(a, n),
        quads_ok(b, m),
    ensures
        quads_ok(a + b, n + m),
{
    let c = a + b;
    assert forall|k: int| 0 <= k < n + m implies #[trigger] quad_ok(c, k) by {
        if k < n {
            assert(quad_ok(a, k));
            assert(c[4 * k] == a[4 * k] && c[4 * k + 1] == a[4 * k + 1]);
            assert(c[4 * k + 2] == a[4 * k + 2] && c[4 * k + 3] == a[4 * k + 3]);
        } else {
            let k2 = k - n;
            assert(quad_ok(b, k2));
            assert(c[4 * k] == b[4 * k2] && c[4 * k + 1] == b[4 * k2 + 1]);
            assert(c[4 * k + 2] == b[4 * k2 + 2] && c[4 * k + 3] == b[4 * k2 + 3]);
        }
    }
}

proof fn lemma_row_bytes_ok(row: Seq<Rgba>, w: nat)
    requires
        forall|x: int| 0 <= x < row.len() ==> pixel_ok(#[trigger] row[x]),
    ensures
        quads_ok(row_bytes(row, w), w as int),
    decreases w,
{
    if w > 0 {
        lemma_row_bytes_ok(row, (w - 1) as nat);
        let px = if w - 1 < row.len() { row[w - 1] } else { (0u8, 0u8, 0u8, 0u8) };
        assert(pixel_ok(px));
        let pb = pixel_bytes(px);
        assert(quad_ok(pb, 0));
        assert(quads_ok(pb, 1));
        lemma_quads_concat(row_bytes(row, (w - 1) as nat), w - 1, pb, 1);
    }
}

proof fn lemma_image_bytes_ok(p: Seq<Seq<Rgba>>, w: nat, h: nat)
    requires
        pixels_ok(p),
        h <= p.len(),
    ensures
        quads_ok(image_bytes(p, w, h), (w * h) as int),
    decreases h,
{
    if h == 0 {
        assert(w * h == 0) by (nonlinear_arith) requires h == 0;
    } else {
        lemma_image_bytes_ok(p, w, (h - 1) as nat);
        let row = p[h - 1];
        assert forall|x: int| 0 <= x < row.len() implies pixel_ok(#[trigger] row[x]) by {
            assert(pixel_ok(p[h - 1][x]));
        }
        lemma_row_bytes_ok(row, w);
        assert(w * (h - 1) >= 0) by (nonlinear_arith) requires h >= 1;
        lemma_quads_concat(image_bytes(p, w, (h - 1) as nat), (w * (h - 1)) as int, row_bytes(row, w), w as int);
        assert(w * (h - 1) + w == w * h) by (nonlinear_arith);
    }
}

/// A decoded sixel image is at least one pixel wide and high, holds four
/// bytes for each of its `width * height` pixels, and each pixel is
/// opaque (alpha 255) or fully transparent black (all four bytes 0).
pub proof fn lemma_decode_shape(data: Seq<u8>)
    requires
        dims_fit(data),
    ensures
        spec_decode(data) matches Some((w, h, bytes)) ==> {
            &&& w >= 1
            &&& h >= 1
            &&& quads_ok(bytes, w * h)
        },
{
    let st = sixel_run(initial_state(), data, 0);
    lemma_sixel_run_ok(initial_state(), data, 0);
    if st.pixels.len() != 0 && st.max_x != 0 {
        let len = st.pixels.len();
        assert(st.max_x <= u32::MAX && len <= u32::MAX) by (nonlinear_arith)
            requires
                st.max_x * len * 4 <= u32::MAX,
                st.max_x >= 1,
                len >= 1,
        ;
        lemma_image_bytes_ok(st.pixels, st.max_x as nat, len);
    }
}

proof fn lemma_set_pixel_frame(p: Seq<Seq<Rgba>>, x: int, y: int, c: Rgb)
    requires
        0 <= x,
        0 <= y,
    ensures
        ({
            let q = set_pixel(p, x, y, c);
            &&& q.len() >= p.len() && y < q.len()
            &&& x < q[y].len() && q[y][x] == (c.0, c.1, c.2, 255u8)
            &&& forall|y2: int, x2: int| 0 <= y2 < p.len() && 0 <= x2 < p[y2].len() && !(y2 == y && x2 == x)
                ==> q[y2].len() >= p[y2].len() && #[trigger] q[y2][x2] == p[y2][x2]
            &&& forall|y2: int| 0 <= y2 < p.len() ==> (#[trigger] q[y2]).len() >= p[y2].len()
        }),
{
    let p1 = if p.len() <= y { p + Seq::new((y + 1 - p.len()) as nat, |k: int| Seq::<Rgba>::empty()) } else { p };
    let row = p1[y];
    let row1 = if row.len() <= x { row + Seq::new((x + 1 - row.len()) as nat, |k: int| (0u8, 0u8, 0u8, 0u8)) } else { row };
    let q = set_pixel(p, x, y, c);
    assert(q == p1.update(y, row1.update(x, (c.0, c.1, c.2, 255u8))));
    assert forall|y2: int, x2: int| 0 <= y2 < p.len() && 0 <= x2 < p[y2].len() && !(y2 == y && x2 == x)
        implies q[y2].len() >= p[y2].len() && #[trigger] q[y2][x2] == p[y2][x2] by {
        assert(p1[y2] == p[y2]);
        if y2 == y {
            assert(row1[x2] == row[x2]);
        }
    }
    assert forall|y2: int| 0 <= y2 < p.len() implies (#[trigger] q[y2]).len() >= p[y2].len() by {
        assert(p1[y2] == p[y2]);
    }
}

proof fn lemma_draw_bits_set(p: Seq<Seq<Rgba>>, c: Rgb, s: u8, x: usize, row: usize, bits: nat)
    requires
        bits <= 6,
        x < usize::MAX,
        6 * row + 6 < usize::MAX,
    ensures
        forall|k: u8| #![trigger (1u8 << k)] k < bits && s & (1u8 << k) != 0 ==> {
            let q = draw_bits(p, c, s, x, row, bits);
            &&& 6 * row + k < q.len() && x < q[6 * row + k].len()
            &&& q[6 * row + k][x as int] == (c.0, c.1, c.2, 255u8)
        },
    decreases bits,
{
    if bits > 0 {
        lemma_draw_bits_set(p, c, s, x, row, (bits - 1) as nat);
        let p1 = draw_bits(p, c, s, x, row, (bits - 1) as nat);
        let bit = (bits - 1) as u8;
        let y = sat_add(sat_mul6(row), bit as int);
        assert(y == 6 * row + bit);
        if s & (1u8 << bit) != 0 {
            lemma_set_pixel_frame(p1, x as int, y as int, c);
        }
        let q = draw_bits(p, c, s, x, row, bits);
        assert forall|k: u8| #![trigger (1u8 << k)] k < bits && s & (1u8 << k) != 0 implies {
            &&& 6 * row + k < q.len() && x < q[6 * row + k].len()
            &&& q[6 * row + k][x as int] == (c.0, c.1, c.2, 255u8)
        } by {
            if k < bits - 1 {
                assert(6 * row + k < p1.len() && x < p1[6 * row + k].len());
            }
        }
    }
}

/// A sixel character (`?`..`~`) draws, at the current column and sixel
/// row, one pixel in the current colour, opaque, for each set bit of its
/// value minus 0x3F (bit 0 the top pixel of the six), then moves one
/// column right.
pub proof fn lemma_sixel_draws(st: SixelState, data: Seq<u8>, i: int)
    requires
        0 <= i < data.len(),
        0x3F <= data[i] <= 0x7E,
        st.x < usize::MAX - 1,
        6 * st.sixel_row + 6 < usize::MAX,
    ensures
        ({
            let (st2, j) = sixel_step(st, data, i);
            let v = (data[i] - 0x3F) as u8;
            let c = if st.cur_color < st.colors.len() { st.colors[st.cur_color as int] } else { (255u8, 255u8, 255u8) };
            &&& j == i + 1
            &&& st2.x == st.x + 1
            &&& forall|k: u8| #![trigger (1u8 << k)] k < 6 && v & (1u8 << k) != 0 ==> {
                &&& 6 * st.sixel_row + k < st2.pixels.len() && st.x < st2.pixels[6 * st.sixel_row + k].len()
                &&& st2.pixels[6 * st.sixel_row + k][st.x as int] == (c.0, c.1, c.2, 255u8)
            }
        }),
{
    let v = (data[i] - 0x3F) as u8;
    reveal_with_fuel(draw_repeat, 2);
    lemma_draw_bits_set(st.pixels, draw_color(st.colors, st.cur_color), v, st.x, st.sixel_row, 6);
}

} // verus!
