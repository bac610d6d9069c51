use vstd::prelude::*;
use crate::rng::shuffle;

verus! {

/// A rectangle of pixels, `xdim.0 <= x < xdim.1` and `ydim.0 <= y < ydim.1`.
#[derive(Clone, Copy, Debug, PartialEq, Eq)]
pub struct WorkBlock {
    pub xdim: (i32, i32),
    pub ydim: (i32, i32),
}

pub open spec fn min_int(a: int, b: int) -> int {
    if a < b { a } else { b }
}

/// Number of blocks along an image side of `extent` pixels.
pub open spec fn blocks_along(extent: int, block_pixels: int) -> int {
    extent / block_pixels + 1
}

/// The `k`-th block of the partition: blocks are laid out row by row, each
/// `block_pixels` wide and high, clipped at the image border.
pub open spec fn block_at(width: int, height: int, block_pixels: int, k: int) -> WorkBlock {
    let bx = blocks_along(width, block_pixels);
    let xblk = k % bx;
    let yblk = k / bx;
    WorkBlock {
        xdim: (
            min_int(xblk * block_pixels, width) as i32,
            min_int((xblk + 1) * block_pixels, width) as i32,
        ),
        ydim: (
            min_int(yblk * block_pixels, height) as i32,
            min_int((yblk + 1) * block_pixels, height) as i32,
        ),
    }
}

pub open spec fn block_count(width: int, height: int, block_pixels: int) -> int {
    blocks_along(width, block_pixels) * blocks_along(height, block_pixels)
}

/// Partition of a `width` x `height` image into square blocks of
/// `block_pixels` side, row by row from the top-left corner.
pub open spec fn partition(width: int, height: int, block_pixels: int) -> Seq<WorkBlock> {
    Seq::new(
        block_count(width, height, block_pixels) as nat,
        |k: int| block_at(width, height, block_pixels, k),
    )
}

proof fn lemma_block_bounds(extent: int, bp: int, i: int)
    requires
        extent >= 0,
        bp > 0,
        0 <= i < blocks_along(extent, bp),
    ensures
        0 <= i * bp <= extent + bp,
        bp <= (i + 1) * bp <= extent + bp,
{
    let q = extent / bp;
    assert(q * bp <= extent) by (nonlinear_arith)
        requires q == extent / bp, bp > 0, extent >= 0;
    assert(0 <= i * bp <= q * bp) by (nonlinear_arith)
        requires 0 <= i <= q, bp > 0;
    assert((i + 1) * bp == i * bp + bp) by (nonlinear_arith);
}

/// The number of blocks of the partition, when it fits a `usize`.
pub fn block_count_checked(image_width: i32, image_height: i32, block_pixels: i32) -> (r: Option<usize>)
    requires
        image_width >= 0,
        image_height >= 0,
        block_pixels > 0,
    ensures
        r == (if block_count(image_width as int, image_height as int, block_pixels as int) <= usize::MAX {
            Some(block_count(image_width as int, image_height as int, block_pixels as int) as usize)
        } else {
            None::<usize>
        }),
{
    let bx = (image_width / block_pixels) as usize + 1;
    let by = (image_height / block_pixels) as usize + 1;
    bx.checked_mul(by)
}

/// Splits an image into the work blocks that the workers render, row by row.
/// Along each side there is one block more than whole blocks fit, so the last
/// block of a row or column may be narrower, or empty.
pub fn make_workblocks(image_width: i32, image_height: i32, block_pixels: i32) -> (r: Vec<WorkBlock>)
    requires
        image_width >= 0,
        image_height >= 0,
        block_pixels > 0,
        image_width + block_pixels <= i32::MAX,
        image_height + block_pixels <= i32::MAX,
        block_count(image_width as int, image_height as int, block_pixels as int) <= usize::MAX,
    ensures
        r@ == partition(image_width as int, image_height as int, block_pixels as int),
{
    let ghost w = image_width as int;
    let ghost h = image_height as int;
    let ghost bp = block_pixels as int;
    let blocks_x = (image_width / block_pixels + 1) as usize;
    let blocks_y = (image_height / block_pixels + 1) as usize;
    assert(blocks_x * blocks_y == block_count(w, h, bp));
    let total: usize = blocks_x * blocks_y;
    let mut blocks: Vec<WorkBlock> = Vec::new();
    let mut k: usize = 0;
    while k < total
        invariant
            blocks_x == blocks_along(w, bp),
            blocks_y == blocks_along(h, bp),
            total == block_count(w, h, bp),
            w == image_width, h == image_height, bp == block_pixels,
            w >= 0, h >= 0, bp > 0,
            w + bp <= i32::MAX, h + bp <= i32::MAX,
            k <= total,
            blocks@.len() == k,
            forall|j: int| 0 <= j < k ==> blocks@[j] == block_at(w, h, bp, j),
        decreases total - k,
    {
        let xblk = k % blocks_x;
        let yblk = k / blocks_x;
        assert(yblk < blocks_y) by (nonlinear_arith)
            requires yblk == k / blocks_x, k < blocks_x * blocks_y, blocks_x > 0;
        proof {
            lemma_block_bounds(w, bp, xblk as int);
            lemma_block_bounds(h, bp, yblk as int);
        }
        let xb = xblk as i32;
        let yb = yblk as i32;
        let x0 = xb * block_pixels;
        let x1 = (xb + 1) * block_pixels;
        let y0 = yb * block_pixels;
        let y1 = (yb + 1) * block_pixels;
        let blk = WorkBlock {
            xdim: (if x0 < image_width { x0 } else { image_width }, if x1 < image_width { x1 } else { image_width }),
            ydim: (if y0 < image_height { y0 } else { image_height }, if y1 < image_height { y1 } else { image_height }),
        };
        blocks.push(blk);
        k = k + 1;
    }
    assert(blocks@ =~= partition(w, h, bp));
    blocks
}

/// The work blocks of an image in the order workers will take them: the
/// partition itself, or the same blocks in a random order when `shuffled`
/// (so that costly neighbouring regions do not all finish last).
pub fn plan_workblocks(image_width: i32, image_height: i32, block_pixels: i32, shuffled: bool) -> (r: Vec<WorkBlock>)
    requires
        image_width >= 0,
        image_height >= 0,
        block_pixels > 0,
        image_width + block_pixels <= i32::MAX,
        image_height + block_pixels <= i32::MAX,
        block_count(image_width as int, image_height as int, block_pixels as int) <= usize::MAX,
    ensures
        r@.to_multiset() == partition(image_width as int, image_height as int, block_pixels as int).to_multiset(),
        !shuffled ==> r@ == partition(image_width as int, image_height as int, block_pixels as int),
{
    let mut blocks = make_workblocks(image_width, image_height, block_pixels);
    if shuffled {
        shuffle(&mut blocks);
    }
    blocks
}

/// The pixels of a block in the order a worker renders them: rows from the
/// bottom one (largest `y`) up, each row left to right.
pub open spec fn block_pixels(b: WorkBlock) -> Seq<(i32, i32)> {
    let w = if b.xdim.1 > b.xdim.0 { b.xdim.1 - b.xdim.0 } else { 0 };
    let h = if b.ydim.1 > b.ydim.0 { b.ydim.1 - b.ydim.0 } else { 0 };
    Seq::new((w * h) as nat, |k: int| ((b.xdim.0 + k % w) as i32, (b.ydim.1 - 1 - k / w) as i32))
}

impl WorkBlock {
    /// Pixel coordinates `(x, y)` of the block, bottom row first.
    pub fn pixels(&self) -> (r: Vec<(i32, i32)>)
        requires
            (if self.xdim.1 > self.xdim.0 { self.xdim.1 - self.xdim.0 } else { 0int })
                * (if self.ydim.1 > self.ydim.0 { self.ydim.1 - self.ydim.0 } else { 0int }) <= usize::MAX,
        ensures
            r@ == block_pixels(*self),
    {
        let ghost spec_w: int = if self.xdim.1 > self.xdim.0 { self.xdim.1 - self.xdim.0 } else { 0 };
        let ghost spec_h: int = if self.ydim.1 > self.ydim.0 { self.ydim.1 - self.ydim.0 } else { 0 };
        let mut out: Vec<(i32, i32)> = Vec::new();
        if self.xdim.1 <= self.xdim.0 || self.ydim.1 <= self.ydim.0 {
            assert(spec_w * spec_h == 0) by (nonlinear_arith) requires spec_w == 0 || spec_h == 0;
            assert(out@ =~= block_pixels(*self));
            return out;
        }
        let w = (self.xdim.1 as i64 - self.xdim.0 as i64) as usize;
        let h = (self.ydim.1 as i64 - self.ydim.0 as i64) as usize;
        let mut row: usize = 0;
        while row < h
            invariant
                w == spec_w, h == spec_h, w > 0, h > 0,
                w * h <= usize::MAX,
                row <= h,
                out@.len() == row * w,
                forall|k: int| 0 <= k < out@.len() ==> #[trigger] out@[k] == block_pixels(*self)[k],
                spec_w == self.xdim.1 - self.xdim.0,
                spec_h == self.ydim.1 - self.ydim.0,
            decreases h - row,
        {
            assert((row + 1) * w <= h * w) by (nonlinear_arith) requires row + 1 <= h, w > 0;
            assert((row + 1) * w == row * w + w) by (nonlinear_arith);
            let y = (self.ydim.1 as i64 - 1 - row as i64) as i32;
            let mut col: usize = 0;
            while col < w
                invariant
                    w == spec_w, h == spec_h, w > 0,
                    row < h,
                    col <= w,
                    (row + 1) * w <= h * w,
                    out@.len() == row * w + col,
                    y == self.ydim.1 - 1 - row,
                    forall|k: int| 0 <= k < out@.len() ==> #[trigger] out@[k] == block_pixels(*self)[k],
                    spec_w == self.xdim.1 - self.xdim.0,
                    spec_h == self.ydim.1 - self.ydim.0,
                decreases w - col,
            {
                let x = (self.xdim.0 as i64 + col as i64) as i32;
                proof {
                    let k = row * w + col;
                    vstd::arithmetic::div_mod::lemma_fundamental_div_mod_converse(k as int, w as int, row as int, col as int);
                    assert(k < h * w) by (nonlinear_arith) requires k == row * w + col, col < w, (row + 1) * w <= h * w;
                    assert(w * h == h * w) by (nonlinear_arith);
                }
                out.push((x, y));
                col = col + 1;
            }
            row = row + 1;
        }
        assert(w * h == h * w) by (nonlinear_arith);
        assert(out@ =~= block_pixels(*self));
        out
    }
}

/// Position of pixel `(x, y)` in a row-major buffer `width` pixels wide.
pub fn pixel_index(x: u32, y: u32, width: u32) -> (r: usize)
    requires
        x < width,
        y as int * width as int + x as int <= usize::MAX,
    ensures
        r == y as int * width as int + x as int,
{
    let yy = y as usize;
    let ww = width as usize;
    assert(yy * ww <= usize::MAX) by (nonlinear_arith) requires yy * ww + x <= usize::MAX, x >= 0;
    yy * ww + x as usize
}

} // verus!
