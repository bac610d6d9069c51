use vstd::prelude::*;

verus! {

/// An RGBA8 image used as a texture, stored row by row, four bytes a pixel.
pub struct ImageTexture {
    width: u32,
    height: u32,
    bytes_per_scanline: u32,
    pixels: Vec<u8>,
}

/// Mathematical state of an [`ImageTexture`].
pub struct TextureState {
    pub width: int,
    pub height: int,
    pub bytes_per_scanline: int,
    pub pixels: Seq<u8>,
}

impl View for ImageTexture {
    type V = TextureState;

    closed spec fn view(&self) -> TextureState {
        TextureState {
            width: self.width as int,
            height: self.height as int,
            bytes_per_scanline: self.bytes_per_scanline as int,
            pixels: self.pixels@,
        }
    }
}

pub open spec fn clamp_below(i: int, limit: int) -> int {
    if i >= limit { limit - 1 } else { i }
}

/// Where texel `(i, j)` starts once clamped to the last column and row.
pub open spec fn texel_offset(t: TextureState, i: int, j: int) -> int {
    clamp_below(j, t.height) * t.bytes_per_scanline + clamp_below(i, t.width) * 4
}

/// The red, green and blue bytes of texel `(i, j)`, column and row clamped
/// to the image; nothing for an empty image or a texel past the pixel data.
pub open spec fn texel_spec(t: TextureState, i: int, j: int) -> Option<(u8, u8, u8)> {
    let o = texel_offset(t, i, j);
    if t.pixels.len() == 0 || t.width == 0 || t.height == 0 || o + 3 > t.pixels.len() {
        None
    } else {
        Some((t.pixels[o], t.pixels[o + 1], t.pixels[o + 2]))
    }
}

impl ImageTexture {
    /// A texture without pixels.
    pub fn blank() -> (r: ImageTexture)
        ensures
            r@.width == 0,
            r@.height == 0,
            r@.bytes_per_scanline == 0,
            r@.pixels.len() == 0,
    {
        ImageTexture { width: 0, height: 0, bytes_per_scanline: 0, pixels: Vec::new() }
    }

    /// A texture over a copy of `pixels`, `width` x `height` RGBA8.
    pub fn from_pixels(width: u32, height: u32, pixels: &[u8]) -> (r: ImageTexture)
        requires
            width * 4 <= u32::MAX,
        ensures
            r@.width == width,
            r@.height == height,
            r@.bytes_per_scanline == width * 4,
            r@.pixels == pixels@,
    {
        let mut copy: Vec<u8> = Vec::new();
        let mut k: usize = 0;
        while k < pixels.len()
            invariant
                k <= pixels@.len(),
                copy@ == pixels@.take(k as int),
            decreases pixels@.len() - k,
        {
            copy.push(pixels[k]);
            k = k + 1;
            assert(copy@ =~= pixels@.take(k as int));
        }
        assert(copy@ =~= pixels@);
        ImageTexture { width, height, bytes_per_scanline: width * 4, pixels: copy }
    }

    pub fn width(&self) -> (r: u32)
        ensures
            r == self@.width,
    {
        self.width
    }

    pub fn height(&self) -> (r: u32)
        ensures
            r == self@.height,
    {
        self.height
    }

    /// The colour bytes of texel `(i, j)`, counted from the top-left corner;
    /// a column or row past the image reads the last one.
    pub fn texel(&self, i: u32, j: u32) -> (r: Option<(u8, u8, u8)>)
        ensures
            r == texel_spec(self@, i as int, j as int),
    {
        if self.pixels.len() == 0 || self.width == 0 || self.height == 0 {
            return None;
        }
        let ci = if i >= self.width { self.width - 1 } else { i };
        let cj = if j >= self.height { self.height - 1 } else { j };
        let a = cj as u128;
        let b = self.bytes_per_scanline as u128;
        assert(a * b <= 0xffff_ffffu128 * 0xffff_ffffu128) by (nonlinear_arith)
            requires a <= 0xffff_ffffu128, b <= 0xffff_ffffu128;
        let o = a * b + ci as u128 * 4;
        if o + 3 > self.pixels.len() as u128 {
            return None;
        }
        let k = o as usize;
        Some((self.pixels[k], self.pixels[k + 1], self.pixels[k + 2]))
    }
}

} // verus!
