use vstd::prelude::*;
use vstd::arithmetic::div_mod::{
    lemma_div_pos_is_pos, lemma_fundamental_div_mod_converse_div, lemma_multiply_divide_lt,
};

verus! {

/// A bitmap of packed `0xAARRGGBB` pixels, stored row by row.
#[derive(Clone, Debug)]
pub struct Sprite {
    pub width: u32,
    pub height: u32,
    pub pixels: Vec<u32>,
}

/// The cell at `(row, col)` of a row-major grid `width` cells wide.
pub open spec fn cell(s: Seq<u32>, width: int, row: int, col: int) -> u32 {
    s[row * width + col]
}

/// A pixel whose alpha byte is zero is never copied, so where it would
/// land there stays a zero.
pub open spec fn visible(c: u32) -> u32 {
    if c >> 24u32 == 0 {
        0
    } else {
        c
    }
}

/// A cell of a `width`-wide grid lies before the end of a grid of `height`
/// rows, and after every cell of the rows above it.
proof fn lemma_cell_index(row: int, col: int, width: int, height: int)
    requires
        0 <= row < height,
        0 <= col < width,
    ensures
        0 <= row * width + col < height * width,
        row * width + col < (row + 1) * width,
        (row + 1) * width == row * width + width,
        row * width >= 0,
{
    assert(0 <= row * width + col < height * width) by (nonlinear_arith)
        requires
            0 <= row < height,
            0 <= col < width,
    ;
    assert((row + 1) * width == row * width + width) by (nonlinear_arith);
    assert(row * width >= 0) by (nonlinear_arith)
        requires
            0 <= row,
            0 <= col < width,
    ;
}

/// Two cells of a `width`-wide grid share an index only if they are the
/// same cell.
proof fn lemma_cell_distinct(r1: int, c1: int, r2: int, c2: int, width: int)
    requires
        0 <= c1 < width,
        0 <= c2 < width,
        r1 * width + c1 == r2 * width + c2,
    ensures
        r1 == r2,
        c1 == c2,
{
    lemma_fundamental_div_mod_converse_div(r1 * width + c1, width, r1, c1);
    lemma_fundamental_div_mod_converse_div(r2 * width + c2, width, r2, c2);
}

/// The pixel value of an RGBA quadruple: alpha in the top byte, then red,
/// green and blue.
pub open spec fn packed(r: u8, g: u8, b: u8, a: u8) -> u32 {
    (a * 0x100_0000 + r * 0x1_0000 + g * 0x100 + b) as u32
}

fn pack_argb(r: u8, g: u8, b: u8, a: u8) -> (p: u32)
    ensures
        p == packed(r, g, b, a),
{
    let (r32, g32, b32, a32) = (r as u32, g as u32, b as u32, a as u32);
    assert((a32 << 24u32) | (r32 << 16u32) | (g32 << 8u32) | b32 == a32 * 0x100_0000 + r32 * 0x1_0000
        + g32 * 0x100 + b32) by (bit_vector)
        requires
            r32 < 256,
            g32 < 256,
            b32 < 256,
            a32 < 256,
    ;
    (a32 << 24u32) | (r32 << 16u32) | (g32 << 8u32) | b32
}

impl Sprite {
    /// The pixel buffer holds exactly one entry per cell.
    pub open spec fn wf(&self) -> bool {
        self.pixels@.len() == self.width * self.height
    }

    /// The pixel at `(row, col)`.
    pub open spec fn pixel(&self, row: int, col: int) -> u32 {
        cell(self.pixels@, self.width as int, row, col)
    }

    /// The pixel that `scale` puts at `(row, col)`: the source pixel whose
    /// block covers it, or zero where that pixel is fully transparent.
    pub open spec fn scaled_pixel(&self, scale: u32, row: int, col: int) -> u32 {
        visible(self.pixel(row / scale as int, col / scale as int))
    }

    /// Enlarges the sprite by a whole factor: each pixel becomes a
    /// `scale` by `scale` block. Fully transparent pixels come out as zero.
    pub fn scale(&self, scale: u32) -> (r: Sprite)
        requires
            self.wf(),
            self.width * scale <= u32::MAX,
            self.height * scale <= u32::MAX,
            (self.width * scale) * (self.height * scale) <= u32::MAX,
        ensures
            r.wf(),
            r.width == self.width * scale,
            r.height == self.height * scale,
            forall|row: int, col: int|
                0 <= row < r.height && 0 <= col < r.width ==> #[trigger] r.pixel(row, col)
                    == self.scaled_pixel(scale, row, col),
    {
        let new_width: u32 = self.width * scale;
        let new_height: u32 = self.height * scale;
        let ghost nw = new_width as int;
        let mut pixels: Vec<u32> = Vec::new();
        let mut row: u32 = 0;
        while row < new_height
            invariant
                self.wf(),
                new_width == self.width * scale,
                new_height == self.height * scale,
                nw == new_width,
                row <= new_height,
                pixels@.len() == row * nw,
                forall|r0: int, c0: int|
                    0 <= r0 < row && 0 <= c0 < nw ==> #[trigger] cell(pixels@, nw, r0, c0)
                        == self.scaled_pixel(scale, r0, c0),
            decreases new_height - row,
        {
            proof {
                lemma_cell_index(row as int, 0, nw + 1, new_height as int);
            }
            let src_row: u32 = row / scale;
            let mut col: u32 = 0;
            while col < new_width
                invariant
                    self.wf(),
                    new_width == self.width * scale,
                    new_height == self.height * scale,
                    nw == new_width,
                    row < new_height,
                    scale > 0,
                    src_row == row / scale,
                    col <= new_width,
                    pixels@.len() == row * nw + col,
                    forall|r0: int, c0: int|
                        0 <= r0 < row && 0 <= c0 < nw ==> #[trigger] cell(pixels@, nw, r0, c0)
                            == self.scaled_pixel(scale, r0, c0),
                    forall|c0: int|
                        0 <= c0 < col ==> #[trigger] cell(pixels@, nw, row as int, c0)
                            == self.scaled_pixel(scale, row as int, c0),
                decreases new_width - col,
            {
                let src_col: u32 = col / scale;
                let len = self.pixels.len();
                proof {
                    assert(new_height == scale * self.height) by (nonlinear_arith)
                        requires
                            new_height == self.height * scale,
                    ;
                    assert(new_width == scale * self.width) by (nonlinear_arith)
                        requires
                            new_width == self.width * scale,
                    ;
                    lemma_multiply_divide_lt(row as int, scale as int, self.height as int);
                    lemma_multiply_divide_lt(col as int, scale as int, self.width as int);
                    lemma_div_pos_is_pos(row as int, scale as int);
                    lemma_div_pos_is_pos(col as int, scale as int);
                    lemma_cell_index(
                        src_row as int,
                        src_col as int,
                        self.width as int,
                        self.height as int,
                    );
                    assert(self.height * self.width == self.width * self.height) by (
                    nonlinear_arith);
                }
                let c = self.pixels[src_row as usize * self.width as usize + src_col as usize];
                let ghost before = pixels@;
                if c >> 24u32 == 0 {
                    pixels.push(0);
                } else {
                    pixels.push(c);
                }
                proof {
                    assert(cell(pixels@, nw, row as int, col as int) == self.scaled_pixel(
                        scale,
                        row as int,
                        col as int,
                    ));
                    assert forall|r0: int, c0: int|
                        0 <= r0 < row && 0 <= c0 < nw implies #[trigger] cell(pixels@, nw, r0, c0)
                            == self.scaled_pixel(scale, r0, c0) by {
                        lemma_cell_index(r0, c0, nw, row as int);
                        assert(cell(before, nw, r0, c0) == self.scaled_pixel(scale, r0, c0));
                    }
                    assert forall|c0: int|
                        0 <= c0 < col + 1 implies #[trigger] cell(pixels@, nw, row as int, c0)
                            == self.scaled_pixel(scale, row as int, c0) by {
                        if c0 < col {
                            assert(cell(before, nw, row as int, c0) == self.scaled_pixel(
                                scale,
                                row as int,
                                c0,
                            ));
                        }
                    }
                }
                col += 1;
            }
            proof {
                lemma_cell_index(row as int, 0, nw + 1, new_height as int);
                assert((row + 1) * nw == row * nw + nw) by (nonlinear_arith);
                assert forall|r0: int, c0: int|
                    0 <= r0 < row + 1 && 0 <= c0 < nw implies #[trigger] cell(pixels@, nw, r0, c0)
                        == self.scaled_pixel(scale, r0, c0) by {
                    if r0 == row {
                    }
                }
            }
            row += 1;
        }
        proof {
            assert(new_height * nw == nw * new_height) by (nonlinear_arith);
        }
        Sprite { width: new_width, height: new_height, pixels }
    }

    /// The row of the sprite that lands on buffer row `row` when the sprite
    /// is centred on row `center_y` (its top sits half its height above).
    pub open spec fn sprite_row(&self, center_y: i32, row: int) -> int {
        row - (center_y - self.height / 2)
    }

    pub open spec fn sprite_col(&self, center_x: i32, col: int) -> int {
        col - (center_x - self.width / 2)
    }

    /// The value of buffer cell `(row, col)` after the sprite is drawn
    /// centred on `(center_x, center_y)` over a cell that held `under`: the
    /// sprite's pixel where the sprite covers the cell and that pixel is
    /// not fully transparent, else `under`.
    pub open spec fn drawn_over(&self, under: u32, center_x: i32, center_y: i32, row: int, col: int) -> u32 {
        let sy = self.sprite_row(center_y, row);
        let sx = self.sprite_col(center_x, col);
        if 0 <= sy < self.height && 0 <= sx < self.width && self.pixel(sy, sx) >> 24u32 != 0 {
            self.pixel(sy, sx)
        } else {
            under
        }
    }

    /// Draws the sprite centred on `(center_x, center_y)` into a row-major
    /// buffer `buffer_width` cells wide and `buffer_height` rows high.
    /// Parts that fall outside the buffer are clipped; fully transparent
    /// pixels leave the buffer as it was.
    pub fn draw(
        &self,
        buffer: &mut [u32],
        buffer_width: usize,
        buffer_height: usize,
        center_x: i32,
        center_y: i32,
    )
        requires
            self.wf(),
            old(buffer)@.len() >= buffer_width * buffer_height,
        ensures
            final(buffer)@.len() == old(buffer)@.len(),
            forall|row: int, col: int|
                0 <= row < buffer_height && 0 <= col < buffer_width ==> #[trigger] cell(
                    final(buffer)@,
                    buffer_width as int,
                    row,
                    col,
                ) == self.drawn_over(
                    cell(old(buffer)@, buffer_width as int, row, col),
                    center_x,
                    center_y,
                    row,
                    col,
                ),
            forall|t: int|
                buffer_width * buffer_height <= t < old(buffer)@.len() ==> #[trigger] final(buffer)@[t]
                    == old(buffer)@[t],
    {
        let ghost bw = buffer_width as int;
        let ghost bh = buffer_height as int;
        let ghost start = buffer@;
        let half_width: i64 = (self.width / 2) as i64;
        let half_height: i64 = (self.height / 2) as i64;
        let mut y: u32 = 0;
        while y < self.height
            invariant
                self.wf(),
                half_width == self.width / 2,
                half_height == self.height / 2,
                bw == buffer_width,
                bh == buffer_height,
                y <= self.height,
                buffer@.len() == start.len(),
                start.len() >= bw * bh,
                forall|t: int| bw * bh <= t < start.len() ==> #[trigger] buffer@[t] == start[t],
                forall|row: int, col: int|
                    0 <= row < bh && 0 <= col < bw ==> #[trigger] cell(buffer@, bw, row, col) == if self.sprite_row(center_y, row) < y {
                        self.drawn_over(cell(start, bw, row, col), center_x, center_y, row, col)
                    } else {
                        cell(start, bw, row, col)
                    },
            decreases self.height - y,
        {
            let buffer_row: i64 = center_y as i64 - half_height + y as i64;
            if buffer_row >= 0 && (buffer_row as u64) < (buffer_height as u64) {
                let r = buffer_row as usize;
                let mut x: u32 = 0;
                while x < self.width
                    invariant
                        self.wf(),
                        half_width == self.width / 2,
                        half_height == self.height / 2,
                        bw == buffer_width,
                        bh == buffer_height,
                        y < self.height,
                        0 <= r < bh,
                        r == center_y - half_height + y,
                        x <= self.width,
                        buffer@.len() == start.len(),
                        start.len() >= bw * bh,
                        forall|t: int| bw * bh <= t < start.len() ==> #[trigger] buffer@[t] == start[t],
                        forall|row: int, col: int|
                            0 <= row < bh && 0 <= col < bw ==> #[trigger] cell(buffer@, bw, row, col)
                                == if self.sprite_row(center_y, row) < y || (row == r
                                && self.sprite_col(center_x, col) < x) {
                                self.drawn_over(
                                    cell(start, bw, row, col),
                                    center_x,
                                    center_y,
                                    row,
                                    col,
                                )
                            } else {
                                cell(start, bw, row, col)
                            },
                    decreases self.width - x,
                {
                    let buffer_col: i64 = center_x as i64 - half_width + x as i64;
                    if buffer_col >= 0 && (buffer_col as u64) < (buffer_width as u64) {
                        let c = buffer_col as usize;
                        let len = self.pixels.len();
                        let buffer_len = buffer.len();
                        proof {
                            assert(bh * bw == bw * bh) by (nonlinear_arith);
                            lemma_cell_index(y as int, x as int, self.width as int, self.height as int);
                            lemma_cell_index(r as int, c as int, bw, bh);
                            assert(self.height * self.width == self.width * self.height) by (
                            nonlinear_arith);
                        }
                        let color = self.pixels[y as usize * self.width as usize + x as usize];
                        if color >> 24u32 != 0 {
                            let ghost before = buffer@;
                            buffer[r * buffer_width + c] = color;
                            proof {
                                assert forall|row: int, col: int|
                                    0 <= row < bh && 0 <= col < bw implies #[trigger] cell(
                                        buffer@,
                                        bw,
                                        row,
                                        col,
                                    ) == if self.sprite_row(center_y, row) < y || (row == r
                                        && self.sprite_col(center_x, col) < x + 1) {
                                        self.drawn_over(
                                            cell(start, bw, row, col),
                                            center_x,
                                            center_y,
                                            row,
                                            col,
                                        )
                                    } else {
                                        cell(start, bw, row, col)
                                    } by {
                                    lemma_cell_index(row, col, bw, bh);
                                    if row != r || col != c {
                                        if row * bw + col == r * bw + c {
                                            lemma_cell_distinct(row, col, r as int, c as int, bw);
                                        }
                                        assert(cell(buffer@, bw, row, col) == cell(before, bw, row, col));
                                    }
                                }
                            }
                        }
                    }
                    x += 1;
                }
            }
            y += 1;
        }
    }

    /// A sprite from decoded image bytes: four bytes per pixel, in the
    /// order red, green, blue, alpha, row by row.
    pub fn from_rgba(width: u32, height: u32, rgba: &Vec<u8>) -> (r: Sprite)
        requires
            rgba@.len() == 4 * width * height,
        ensures
            r.wf(),
            r.width == width,
            r.height == height,
            forall|i: int|
                0 <= i < width * height ==> #[trigger] r.pixels@[i] == packed(
                    rgba@[4 * i],
                    rgba@[4 * i + 1],
                    rgba@[4 * i + 2],
                    rgba@[4 * i + 3],
                ),
    {
        let n = rgba.len() / 4;
        proof {
            assert(rgba@.len() == (width * height) * 4 + 0) by (nonlinear_arith)
                requires
                    rgba@.len() == 4 * width * height,
            ;
            lemma_fundamental_div_mod_converse_div(rgba@.len() as int, 4, width * height, 0);
        }
        let mut pixels: Vec<u32> = Vec::new();
        let mut i: usize = 0;
        while i < n
            invariant
                n == width * height,
                rgba@.len() == 4 * n,
                i <= n,
                pixels@.len() == i,
                forall|k: int|
                    0 <= k < i ==> #[trigger] pixels@[k] == packed(
                        rgba@[4 * k],
                        rgba@[4 * k + 1],
                        rgba@[4 * k + 2],
                        rgba@[4 * k + 3],
                    ),
            decreases n - i,
        {
            let len = rgba.len();
            let p = pack_argb(rgba[4 * i], rgba[4 * i + 1], rgba[4 * i + 2], rgba[4 * i + 3]);
            pixels.push(p);
            i += 1;
        }
        Sprite { width, height, pixels }
    }

    /// The `frame_width` by `frame_height` window whose left edge is at
    /// column `left`; cells past the sheet's right or bottom edge are zero.
    pub open spec fn window_pixel(&self, left: int, row: int, col: int) -> u32 {
        if left + col < self.width && row < self.height {
            self.pixel(row, left + col)
        } else {
            0
        }
    }

    fn crop(&self, left: u32, frame_width: u32, frame_height: u32) -> (r: Sprite)
        requires
            self.wf(),
            left + frame_width <= u32::MAX,
            frame_width * frame_height <= u32::MAX,
        ensures
            r.wf(),
            r.width == frame_width,
            r.height == frame_height,
            forall|row: int, col: int|
                0 <= row < frame_height && 0 <= col < frame_width ==> #[trigger] r.pixel(row, col)
                    == self.window_pixel(left as int, row, col),
    {
        let ghost fw = frame_width as int;
        let mut pixels: Vec<u32> = Vec::new();
        let mut y: u32 = 0;
        while y < frame_height
            invariant
                self.wf(),
                left + frame_width <= u32::MAX,
                fw == frame_width,
                y <= frame_height,
                pixels@.len() == y * fw,
                forall|r0: int, c0: int|
                    0 <= r0 < y && 0 <= c0 < fw ==> #[trigger] cell(pixels@, fw, r0, c0)
                        == self.window_pixel(left as int, r0, c0),
            decreases frame_height - y,
        {
            let mut x: u32 = 0;
            while x < frame_width
                invariant
                    self.wf(),
                    left + frame_width <= u32::MAX,
                    fw == frame_width,
                    y < frame_height,
                    x <= frame_width,
                    pixels@.len() == y * fw + x,
                    forall|r0: int, c0: int|
                        0 <= r0 < y && 0 <= c0 < fw ==> #[trigger] cell(pixels@, fw, r0, c0)
                            == self.window_pixel(left as int, r0, c0),
                    forall|c0: int|
                        0 <= c0 < x ==> #[trigger] cell(pixels@, fw, y as int, c0)
                            == self.window_pixel(left as int, y as int, c0),
                decreases frame_width - x,
            {
                let sx = left + x;
                let ghost before = pixels@;
                if sx < self.width && y < self.height {
                    let len = self.pixels.len();
                    proof {
                        lemma_cell_index(y as int, sx as int, self.width as int, self.height as int);
                        assert(self.height * self.width == self.width * self.height) by (
                        nonlinear_arith);
                    }
                    pixels.push(self.pixels[y as usize * self.width as usize + sx as usize]);
                } else {
                    pixels.push(0);
                }
                proof {
                    lemma_cell_index(y as int, x as int, fw, y as int + 1);
                    assert forall|r0: int, c0: int|
                        0 <= r0 < y && 0 <= c0 < fw implies #[trigger] cell(pixels@, fw, r0, c0)
                            == self.window_pixel(left as int, r0, c0) by {
                        lemma_cell_index(r0, c0, fw, y as int);
                        assert(cell(before, fw, r0, c0) == self.window_pixel(left as int, r0, c0));
                    }
                    assert forall|c0: int|
                        0 <= c0 < x + 1 implies #[trigger] cell(pixels@, fw, y as int, c0)
                            == self.window_pixel(left as int, y as int, c0) by {
                        if c0 < x {
                            assert(cell(before, fw, y as int, c0) == self.window_pixel(
                                left as int,
                                y as int,
                                c0,
                            ));
                        }
                    }
                }
                x += 1;
            }
            proof {
                lemma_cell_index(y as int, 0, fw + 1, y as int + 1);
                assert((y + 1) * fw == y * fw + fw) by (nonlinear_arith);
            }
            y += 1;
        }
        proof {
            assert(frame_height * fw == fw * frame_height) by (nonlinear_arith);
        }
        Sprite { width: frame_width, height: frame_height, pixels }
    }

    /// Cuts `frame_count` frames, each `frame_width` by `frame_height`,
    /// from a sheet laid out left to right, and enlarges each by `scale`.
    /// Frame `i` starts at column `i * frame_width`; cells past the sheet's
    /// edge are zero.
    pub fn sheet_frames(&self, frame_width: u32, frame_height: u32, frame_count: usize, scale: u32) -> (r: Vec<Sprite>)
        requires
            self.wf(),
            frame_count * frame_width <= u32::MAX,
            frame_width * frame_height <= u32::MAX,
            frame_width * scale <= u32::MAX,
            frame_height * scale <= u32::MAX,
            (frame_width * scale) * (frame_height * scale) <= u32::MAX,
        ensures
            r@.len() == frame_count,
            forall|i: int|
                0 <= i < frame_count ==> {
                    let f = #[trigger] r@[i];
                    &&& f.wf()
                    &&& f.width == frame_width * scale
                    &&& f.height == frame_height * scale
                    &&& forall|row: int, col: int|
                        0 <= row < f.height && 0 <= col < f.width ==> #[trigger] f.pixel(row, col)
                            == visible(
                            self.window_pixel(
                                i * frame_width,
                                row / scale as int,
                                col / scale as int,
                            ),
                        )
                },
    {
        let mut frames: Vec<Sprite> = Vec::new();
        let mut i: usize = 0;
        while i < frame_count
            invariant
                self.wf(),
                frame_count * frame_width <= u32::MAX,
                frame_width * frame_height <= u32::MAX,
                frame_width * scale <= u32::MAX,
                frame_height * scale <= u32::MAX,
                (frame_width * scale) * (frame_height * scale) <= u32::MAX,
                i <= frame_count,
                frames@.len() == i,
                forall|k: int|
                    0 <= k < i ==> {
                        let f = #[trigger] frames@[k];
                        &&& f.wf()
                        &&& f.width == frame_width * scale
                        &&& f.height == frame_height * scale
                        &&& forall|row: int, col: int|
                            0 <= row < f.height && 0 <= col < f.width ==> #[trigger] f.pixel(row, col)
                                == visible(
                                self.window_pixel(
                                    k * frame_width,
                                    row / scale as int,
                                    col / scale as int,
                                ),
                            )
                    },
            decreases frame_count - i,
        {
            proof {
                assert(i * frame_width + frame_width <= frame_count * frame_width) by (nonlinear_arith)
                    requires
                        0 <= i < frame_count,
                        0 <= frame_width,
                ;
                assert(0 <= i * frame_width) by (nonlinear_arith)
                    requires
                        0 <= i,
                        0 <= frame_width,
                ;
            }
            let left = (i * frame_width as usize) as u32;
            let frame = self.crop(left, frame_width, frame_height);
            let scaled = frame.scale(scale);
            proof {
                assert forall|row: int, col: int|
                    0 <= row < scaled.height && 0 <= col < scaled.width implies #[trigger] scaled.pixel(
                        row,
                        col,
                    ) == visible(
                        self.window_pixel(i * frame_width, row / scale as int, col / scale as int),
                    ) by {
                    assert(scaled.pixel(row, col) == frame.scaled_pixel(scale, row, col));
                    assert(scale > 0) by (nonlinear_arith)
                        requires
                            0 <= row < scaled.height,
                            scaled.height == frame_height * scale,
                    ;
                    assert(scale * frame_height == frame_height * scale) by (nonlinear_arith);
                    assert(scale * frame_width == frame_width * scale) by (nonlinear_arith);
                    lemma_multiply_divide_lt(row, scale as int, frame_height as int);
                    lemma_multiply_divide_lt(col, scale as int, frame_width as int);
                    lemma_div_pos_is_pos(row, scale as int);
                    lemma_div_pos_is_pos(col, scale as int);
                }
            }
            frames.push(scaled);
            i += 1;
        }
        frames
    }
}

} // verus!
