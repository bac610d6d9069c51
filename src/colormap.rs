use vstd::prelude::*;

verus! {

/// An 8-bit colour with alpha.
#[derive(Clone, Copy, Debug, PartialEq, Eq, Structural)]
pub struct RGBAColor {
    pub r: u8,
    pub g: u8,
    pub b: u8,
    pub a: u8,
}

/// The opaque colour `(r, g, b)`.
pub open spec fn rgb(r: int, g: int, b: int) -> RGBAColor {
    RGBAColor { r: r as u8, g: g as u8, b: b as u8, a: 255 }
}

pub open spec fn black() -> RGBAColor { rgb(0, 0, 0) }
pub open spec fn white() -> RGBAColor { rgb(255, 255, 255) }
pub open spec fn dark_blue() -> RGBAColor { rgb(0, 0, 128) }
pub open spec fn dark_green() -> RGBAColor { rgb(0, 128, 0) }
pub open spec fn dark_red() -> RGBAColor { rgb(128, 0, 0) }
pub open spec fn cyan() -> RGBAColor { rgb(0, 255, 255) }
pub open spec fn yellow() -> RGBAColor { rgb(255, 255, 0) }

impl RGBAColor {
    /// The opaque colour `(r, g, b)`.
    pub fn new(r: u8, g: u8, b: u8) -> (c: RGBAColor)
        ensures
            c == rgb(r as int, g as int, b as int),
    {
        RGBAColor { r, g, b, a: 255 }
    }
}

/// The named colours of the palettes.
pub struct Basic {}

impl Basic {
    pub fn black() -> (c: RGBAColor)
        ensures
            c == black(),
    {
        RGBAColor::new(0, 0, 0)
    }

    pub fn white() -> (c: RGBAColor)
        ensures
            c == white(),
    {
        RGBAColor::new(255, 255, 255)
    }

    pub fn dark_blue() -> (c: RGBAColor)
        ensures
            c == dark_blue(),
    {
        RGBAColor::new(0, 0, 128)
    }

    pub fn dark_green() -> (c: RGBAColor)
        ensures
            c == dark_green(),
    {
        RGBAColor::new(0, 128, 0)
    }

    pub fn dark_red() -> (c: RGBAColor)
        ensures
            c == dark_red(),
    {
        RGBAColor::new(128, 0, 0)
    }

    pub fn cyan() -> (c: RGBAColor)
        ensures
            c == cyan(),
    {
        RGBAColor::new(0, 255, 255)
    }

    pub fn yellow() -> (c: RGBAColor)
        ensures
            c == yellow(),
    {
        RGBAColor::new(255, 255, 0)
    }
}

/// Channel `i` of `n` evenly spaced steps from `s` to `e`, rounded down.
pub open spec fn lerp_channel(s: int, e: int, i: int, n: int) -> int {
    (s * (n - 1 - i) + e * i) / (n - 1)
}

/// Colour `i` of a linear ramp of `n` colours from `start` to `end`.
pub open spec fn lerp_color(start: RGBAColor, end: RGBAColor, i: int, n: int) -> RGBAColor {
    rgb(
        lerp_channel(start.r as int, end.r as int, i, n),
        lerp_channel(start.g as int, end.g as int, i, n),
        lerp_channel(start.b as int, end.b as int, i, n),
    )
}

/// A ramp of `n` colours from `start` to `end` inclusive; `start` alone when
/// `n` is below 2.
pub open spec fn linear_ramp(start: RGBAColor, end: RGBAColor, n: int) -> Seq<RGBAColor> {
    if n > 1 {
        Seq::new(n as nat, |i: int| lerp_color(start, end, i, n))
    } else {
        seq![start]
    }
}

fn lerp_u8(s: u8, e: u8, i: u32, num: u32) -> (r: u8)
    requires
        num > 1,
        i < num,
    ensures
        r == lerp_channel(s as int, e as int, i as int, num as int),
{
    let d = (num - 1) as u64;
    let k = i as u64;
    assert(s as u64 * (d - k) <= 255 * d) by (nonlinear_arith) requires s <= 255, k <= d;
    assert(e as u64 * k <= 255 * d) by (nonlinear_arith) requires e <= 255, k <= d;
    let num_sum = s as u64 * (d - k) + e as u64 * k;
    assert(num_sum / d <= 255) by (nonlinear_arith)
        requires num_sum == s * (d - k) + e * k, s <= 255, e <= 255, k <= d, d > 0;
    (num_sum / d) as u8
}

/// A ramp of `num` colours from `start` to `end` inclusive.
pub fn create_linear_colormap(start: RGBAColor, end: RGBAColor, num: u32) -> (r: Vec<RGBAColor>)
    ensures
        r@ == linear_ramp(start, end, num as int),
{
    if num > 1 {
        let mut out: Vec<RGBAColor> = Vec::new();
        let mut i: u32 = 0;
        while i < num
            invariant
                num > 1,
                i <= num,
                out@.len() == i,
                forall|j: int| 0 <= j < i ==> out@[j] == lerp_color(start, end, j, num as int),
            decreases num - i,
        {
            let c = RGBAColor::new(
                lerp_u8(start.r, end.r, i, num),
                lerp_u8(start.g, end.g, i, num),
                lerp_u8(start.b, end.b, i, num),
            );
            out.push(c);
            i = i + 1;
        }
        assert(out@ =~= linear_ramp(start, end, num as int));
        out
    } else {
        let out = vec![start];
        assert(out@ =~= linear_ramp(start, end, num as int));
        out
    }
}

fn append_prefix(out: &mut Vec<RGBAColor>, src: &Vec<RGBAColor>, count: usize)
    requires
        count <= src@.len(),
    ensures
        final(out)@ == old(out)@ + src@.take(count as int),
{
    let ghost start = out@;
    let mut i: usize = 0;
    while i < count
        invariant
            i <= count,
            count <= src@.len(),
            out@ == start + src@.take(i as int),
        decreases count - i,
    {
        out.push(src[i]);
        i = i + 1;
        assert(out@ =~= start + src@.take(i as int));
    }
}

/// Inside the 15 x 15 grid of bands that starts at entry 17, 16 entries per
/// row of which the first 15 are used.
pub open spec fn in_band_grid(k: int) -> bool {
    17 <= k && (k - 17) / 16 < 15 && (k - 17) % 16 < 15
}

/// Red falls along a row of the grid, green from row to row.
pub open spec fn red_green_band(k: int) -> RGBAColor {
    if in_band_grid(k) {
        rgb(255 - 12 * ((k - 17) % 16), 255 - 16 * ((k - 17) / 16), 0)
    } else {
        black()
    }
}

/// Blue falls along a row of the grid, green from row to row.
pub open spec fn blue_green_band(k: int) -> RGBAColor {
    if in_band_grid(k) {
        rgb(0, 255 - 16 * ((k - 17) / 16), 255 - 12 * ((k - 17) % 16))
    } else {
        black()
    }
}

pub open spec fn min_int(a: int, b: int) -> int {
    if a < b { a } else { b }
}

/// Four quadrant ramps: entries 1 to 128 from blue to cyan, entries 129 to
/// 255 from cyan-white towards red.
pub open spec fn quadrant_color(k: int) -> RGBAColor {
    if 1 <= k <= 128 {
        rgb(0, min_int(255, 2 * k), min_int(255, 128 + k))
    } else if 129 <= k <= 255 {
        rgb(2 * (k - 128) + 1, 255 - 2 * (k - 128), 255 - 2 * (k - 128))
    } else {
        black()
    }
}

/// Black, then yellow and dark blue in turn.
pub open spec fn yellow_blue_color(k: int) -> RGBAColor {
    if k == 0 {
        black()
    } else if k % 2 == 0 {
        yellow()
    } else {
        dark_blue()
    }
}

/// Thin red and orange bands on white, repeated every 64 entries, entry 0
/// black.
pub open spec fn red_band_color(k: int) -> RGBAColor {
    let o = k % 64;
    if k == 0 {
        black()
    } else if 1 <= o <= 3 {
        rgb(128, 0, 0)
    } else if 4 <= o <= 6 {
        rgb(192, 0, 0)
    } else if 7 <= o <= 9 {
        rgb(255, 0, 0)
    } else if 10 <= o <= 12 {
        rgb(255, 64, 64)
    } else if 13 <= o <= 15 {
        rgb(255, 128, 128)
    } else if 16 <= o <= 18 {
        rgb(255, 192, 192)
    } else if 33 <= o <= 35 {
        rgb(128, 64, 0)
    } else if 36 <= o <= 38 {
        rgb(192, 96, 0)
    } else if 39 <= o <= 41 {
        rgb(255, 128, 0)
    } else if 42 <= o <= 44 {
        rgb(255, 160, 64)
    } else if 45 <= o <= 46 {
        rgb(255, 192, 128)
    } else if 47 <= o <= 49 {
        rgb(255, 224, 192)
    } else {
        white()
    }
}

/// Entry `k` of the tabulated palette `kind`.
pub open spec fn table_color(kind: int, k: int) -> RGBAColor {
    if kind == 4 {
        red_green_band(k)
    } else if kind == 5 {
        blue_green_band(k)
    } else if kind == 6 {
        quadrant_color(k)
    } else if kind == 7 {
        yellow_blue_color(k)
    } else {
        red_band_color(k)
    }
}

fn red_band_entry(k: u32) -> (c: RGBAColor)
    requires
        k < 256,
    ensures
        c == red_band_color(k as int),
{
    let o = k % 64;
    if k == 0 {
        RGBAColor::new(0, 0, 0)
    } else if 1 <= o && o <= 3 {
        RGBAColor::new(128, 0, 0)
    } else if 4 <= o && o <= 6 {
        RGBAColor::new(192, 0, 0)
    } else if 7 <= o && o <= 9 {
        RGBAColor::new(255, 0, 0)
    } else if 10 <= o && o <= 12 {
        RGBAColor::new(255, 64, 64)
    } else if 13 <= o && o <= 15 {
        RGBAColor::new(255, 128, 128)
    } else if 16 <= o && o <= 18 {
        RGBAColor::new(255, 192, 192)
    } else if 33 <= o && o <= 35 {
        RGBAColor::new(128, 64, 0)
    } else if 36 <= o && o <= 38 {
        RGBAColor::new(192, 96, 0)
    } else if 39 <= o && o <= 41 {
        RGBAColor::new(255, 128, 0)
    } else if 42 <= o && o <= 44 {
        RGBAColor::new(255, 160, 64)
    } else if 45 <= o && o <= 46 {
        RGBAColor::new(255, 192, 128)
    } else if 47 <= o && o <= 49 {
        RGBAColor::new(255, 224, 192)
    } else {
        RGBAColor::new(255, 255, 255)
    }
}

fn table_entry(kind: u8, k: u32) -> (c: RGBAColor)
    requires
        4 <= kind <= 8,
        k < 256,
    ensures
        c == table_color(kind as int, k as int),
{
    if kind == 4 || kind == 5 {
        if 17 <= k && (k - 17) / 16 < 15 && (k - 17) % 16 < 15 {
            let row = (k - 17) / 16;
            let col = (k - 17) % 16;
            let fall = (255 - 12 * col) as u8;
            let green = (255 - 16 * row) as u8;
            if kind == 4 {
                RGBAColor::new(fall, green, 0)
            } else {
                RGBAColor::new(0, green, fall)
            }
        } else {
            RGBAColor::new(0, 0, 0)
        }
    } else if kind == 6 {
        if 1 <= k && k <= 128 {
            let g = if 2 * k < 255 { 2 * k } else { 255 };
            let b = if 128 + k < 255 { 128 + k } else { 255 };
            RGBAColor::new(0, g as u8, b as u8)
        } else if 129 <= k && k <= 255 {
            let i = k - 128;
            RGBAColor::new((2 * i + 1) as u8, (255 - 2 * i) as u8, (255 - 2 * i) as u8)
        } else {
            RGBAColor::new(0, 0, 0)
        }
    } else if kind == 7 {
        if k == 0 {
            RGBAColor::new(0, 0, 0)
        } else if k % 2 == 0 {
            RGBAColor::new(255, 255, 0)
        } else {
            RGBAColor::new(0, 0, 128)
        }
    } else {
        red_band_entry(k)
    }
}

/// The 256 entries of tabulated palette `kind`.
pub open spec fn table_palette(kind: int) -> Seq<RGBAColor> {
    Seq::new(256, |k: int| table_color(kind, k))
}

fn build_table(kind: u8) -> (r: Vec<RGBAColor>)
    requires
        4 <= kind <= 8,
    ensures
        r@ == table_palette(kind as int),
{
    let mut out: Vec<RGBAColor> = Vec::new();
    let mut k: u32 = 0;
    while k < 256
        invariant
            4 <= kind <= 8,
            k <= 256,
            out@.len() == k,
            forall|j: int| 0 <= j < k ==> out@[j] == table_color(kind as int, j),
        decreases 256 - k,
    {
        out.push(table_entry(kind, k));
        k = k + 1;
    }
    assert(out@ =~= table_palette(kind as int));
    out
}

/// Black followed by two ramps of 128 colours, the first without its last
/// colour: 256 entries.
pub open spec fn two_ramps(a0: RGBAColor, a1: RGBAColor, b0: RGBAColor, b1: RGBAColor) -> Seq<RGBAColor> {
    seq![black()] + linear_ramp(a0, a1, 128).take(127) + linear_ramp(b0, b1, 128)
}

/// Palettes of 256 colours for escape-time colouring.
pub struct ColorMap {}

impl ColorMap {
    /// A ramp of `num` colours from `start` to `end` inclusive.
    pub fn create_linear(start: RGBAColor, end: RGBAColor, num: u32) -> (r: Vec<RGBAColor>)
        ensures
            r@ == linear_ramp(start, end, num as int),
    {
        create_linear_colormap(start, end, num)
    }

    fn ramps(a0: RGBAColor, a1: RGBAColor, b0: RGBAColor, b1: RGBAColor) -> (r: Vec<RGBAColor>)
        ensures
            r@ == two_ramps(a0, a1, b0, b1),
    {
        let mut out: Vec<RGBAColor> = Vec::new();
        out.push(Basic::black());
        let first = ColorMap::create_linear(a0, a1, 128);
        append_prefix(&mut out, &first, 127);
        let second = ColorMap::create_linear(b0, b1, 128);
        append_prefix(&mut out, &second, 128);
        assert(second@.take(128) =~= second@);
        assert(out@ =~= two_ramps(a0, a1, b0, b1));
        out
    }

    /// Black, then dark blue to cyan, then cyan to dark green.
    pub fn pf1() -> (r: Vec<RGBAColor>)
        ensures
            r@ == two_ramps(dark_blue(), cyan(), cyan(), dark_green()),
    {
        ColorMap::ramps(Basic::dark_blue(), Basic::cyan(), Basic::cyan(), Basic::dark_green())
    }

    /// Black, then dark red to yellow, then dark blue to cyan.
    pub fn pf2() -> (r: Vec<RGBAColor>)
        ensures
            r@ == two_ramps(dark_red(), yellow(), dark_blue(), cyan()),
    {
        ColorMap::ramps(Basic::dark_red(), Basic::yellow(), Basic::dark_blue(), Basic::cyan())
    }

    /// Black, then 255 colours from cyan to dark blue.
    pub fn pf3() -> (r: Vec<RGBAColor>)
        ensures
            r@ == seq![black()] + linear_ramp(cyan(), dark_blue(), 255),
    {
        let mut out: Vec<RGBAColor> = Vec::new();
        out.push(Basic::black());
        let ramp = ColorMap::create_linear(Basic::cyan(), Basic::dark_blue(), 255);
        append_prefix(&mut out, &ramp, 255);
        assert(ramp@.take(255) =~= ramp@);
        out
    }

    /// Red and green bands in 15 steps each.
    pub fn pf4() -> (r: Vec<RGBAColor>)
        ensures
            r@ == table_palette(4),
    {
        build_table(4)
    }

    /// Blue and green bands in 15 steps each.
    pub fn pf5() -> (r: Vec<RGBAColor>)
        ensures
            r@ == table_palette(5),
    {
        build_table(5)
    }

    /// Colours for the quadrants scheme.
    pub fn pf6() -> (r: Vec<RGBAColor>)
        ensures
            r@ == table_palette(6),
    {
        build_table(6)
    }

    /// Yellow and dark blue bands.
    pub fn pf7() -> (r: Vec<RGBAColor>)
        ensures
            r@ == table_palette(7),
    {
        build_table(7)
    }

    /// Thin red bands.
    pub fn pf8() -> (r: Vec<RGBAColor>)
        ensures
            r@ == table_palette(8),
    {
        build_table(8)
    }
}

} // verus!
