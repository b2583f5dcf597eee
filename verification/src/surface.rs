//! An RGBA8 premultiplied pixel surface.
use vstd::prelude::*;

verus! {

/// The transparent black pixel.
pub open spec fn transparent() -> [u8; 4] {
    [0u8, 0u8, 0u8, 0u8]
}

/// The pixel at `(x, y)` of a `width` x `height` buffer of RGBA bytes stored row by row;
/// transparent black outside the buffer.
pub open spec fn pixel_of(pixels: Seq<u8>, width: int, height: int, x: int, y: int) -> [u8; 4] {
    if 0 <= x < width && 0 <= y < height {
        let i = (y * width + x) * 4;
        [pixels[i], pixels[i + 1], pixels[i + 2], pixels[i + 3]]
    } else {
        transparent()
    }
}

/// Byte offset of the pixel `(x, y)`.
pub open spec fn pixel_offset(width: int, x: int, y: int) -> int {
    (y * width + x) * 4
}

proof fn lemma_offset_in_range(w: int, h: int, x: int, y: int)
    requires
        0 <= x < w,
        0 <= y < h,
    ensures
        0 <= pixel_offset(w, x, y),
        pixel_offset(w, x, y) + 4 <= w * h * 4,
{
    assert(0 <= y * w + x && y * w + x + 1 <= h * w) by (nonlinear_arith)
        requires
            0 <= x < w,
            0 <= y < h,
    ;
    assert(h * w == w * h) by (nonlinear_arith);
}

proof fn lemma_offsets_distinct(w: int, x: int, y: int, x2: int, y2: int)
    requires
        0 <= x < w,
        0 <= y,
        0 <= x2 < w,
        0 <= y2,
        x != x2 || y != y2,
    ensures
        y * w + x != y2 * w + x2,
{
    if y == y2 {
    } else if y < y2 {
        assert(y * w + x < y2 * w + x2) by (nonlinear_arith)
            requires
                0 <= x < w,
                0 <= x2,
                y < y2,
        ;
    } else {
        assert(y2 * w + x2 < y * w + x) by (nonlinear_arith)
            requires
                0 <= x2 < w,
                0 <= x,
                y2 < y,
        ;
    }
}

/// Byte `k` of a straight-alpha copy of a premultiplied buffer, as `to_rgba_u8` makes it
/// with the channel conversion `unpremultiply`: alpha bytes are copied, colour bytes of a
/// pixel with alpha 0 are 0, and every other colour byte is an answer of `unpremultiply` to
/// the byte and its pixel's alpha.
pub open spec fn straight_byte_ok<F: Fn(u8, u8) -> u8>(
    unpremultiply: F,
    pixels: Seq<u8>,
    k: int,
    r: u8,
) -> bool {
    let a = pixels[k - k % 4 + 3];
    if k % 4 == 3 {
        r == pixels[k]
    } else if a == 0 {
        r == 0
    } else {
        call_ensures(unpremultiply, (pixels[k], a), r)
    }
}

#[derive(Debug, Clone)]
pub struct Surface {
    pub width: u32,
    pub height: u32,
    pub pixels: Vec<u8>,
}

impl Surface {
    /// The pixel buffer holds at least `width * height` RGBA pixels, whose byte size fits
    /// in `u32`; bytes past them are never read as pixels.
    pub open spec fn wf(&self) -> bool {
        &&& self.pixels@.len() >= self.width * self.height * 4
        &&& self.width * self.height * 4 <= u32::MAX
    }

    /// `after` has the same number of bytes as `self`, and the bytes past the pixels
    /// unchanged.
    pub open spec fn tail_kept(&self, after: Surface) -> bool {
        &&& after.pixels@.len() == self.pixels@.len()
        &&& forall|k: int|
            self.width * self.height * 4 <= k < self.pixels@.len() ==> #[trigger] after.pixels@[k]
                == self.pixels@[k]
    }

    pub open spec fn in_bounds(&self, x: int, y: int) -> bool {
        0 <= x < self.width && 0 <= y < self.height
    }

    /// The pixel at `(x, y)`, transparent black outside the surface.
    pub open spec fn pixel(&self, x: int, y: int) -> [u8; 4] {
        pixel_of(self.pixels@, self.width as int, self.height as int, x, y)
    }

    /// A surface of `width` x `height` transparent black pixels.
    pub fn new(width: u32, height: u32) -> (s: Self)
        requires
            width * height * 4 <= u32::MAX,
        ensures
            s.wf(),
            s.width == width,
            s.height == height,
            s.pixels@.len() == width * height * 4,
            forall|k: int| 0 <= k < s.pixels@.len() ==> #[trigger] s.pixels@[k] == 0,
    {
        assert(width * height <= width * height * 4) by (nonlinear_arith);
        Self { width, height, pixels: vec![0u8; (width * height * 4) as usize] }
    }

    /// Sets every byte to 0 (transparent black).
    pub fn clear(&mut self)
        ensures
            final(self).width == old(self).width,
            final(self).height == old(self).height,
            final(self).pixels@.len() == old(self).pixels@.len(),
            forall|k: int|
                0 <= k < final(self).pixels@.len() ==> #[trigger] final(self).pixels@[k] == 0,
    {
        let n = self.pixels.len();
        let mut i: usize = 0;
        while i < n
            invariant
                n == self.pixels@.len(),
                i <= n,
                self.width == old(self).width,
                self.height == old(self).height,
                forall|k: int| 0 <= k < i ==> #[trigger] self.pixels@[k] == 0,
            decreases n - i,
        {
            self.pixels.set(i, 0);
            i = i + 1;
        }
    }

    /// Sets every whole pixel to the premultiplied value `rgba`; trailing bytes that do not
    /// make a whole pixel are left as they were.
    pub fn fill(&mut self, rgba: [u8; 4])
        ensures
            final(self).width == old(self).width,
            final(self).height == old(self).height,
            final(self).pixels@.len() == old(self).pixels@.len(),
            forall|k: int|
                0 <= k < old(self).pixels@.len() ==> #[trigger] final(self).pixels@[k] == if k
                    < old(self).pixels@.len() - old(self).pixels@.len() % 4 {
                    rgba[k % 4]
                } else {
                    old(self).pixels@[k]
                },
    {
        let n = self.pixels.len();
        let whole = n - n % 4;
        let ghost p0 = self.pixels@;
        let mut i: usize = 0;
        while i < whole
            invariant
                n == self.pixels@.len(),
                p0.len() == n,
                whole == n - n % 4,
                i % 4 == 0,
                i <= whole,
                self.width == old(self).width,
                self.height == old(self).height,
                p0 == old(self).pixels@,
                forall|k: int| 0 <= k < i ==> #[trigger] self.pixels@[k] == rgba[k % 4],
                forall|k: int| i <= k < n ==> #[trigger] self.pixels@[k] == p0[k],
            decreases whole - i,
        {
            self.pixels.set(i, rgba[0]);
            self.pixels.set(i + 1, rgba[1]);
            self.pixels.set(i + 2, rgba[2]);
            self.pixels.set(i + 3, rgba[3]);
            assert(forall|k: int| i <= k < i + 4 ==> #[trigger] (k % 4) == k - i);
            i = i + 4;
        }
    }

    /// The premultiplied pixel at `(x, y)`; transparent black outside the surface.
    pub fn get_pixel(&self, x: i32, y: i32) -> (r: [u8; 4])
        requires
            self.wf(),
        ensures
            r == self.pixel(x as int, y as int),
    {
        proof {
            self.lemma_dims_fit();
        }
        if x < 0 || y < 0 || x >= self.width as i32 || y >= self.height as i32 {
            return [0u8, 0u8, 0u8, 0u8];
        }
        proof {
            lemma_offset_in_range(self.width as int, self.height as int, x as int, y as int);
            assert(y * self.width <= y * self.width + x) by (nonlinear_arith)
                requires
                    x >= 0,
            ;
        }
        let idx = ((y as u32 * self.width + x as u32) * 4) as usize;
        [self.pixels[idx], self.pixels[idx + 1], self.pixels[idx + 2], self.pixels[idx + 3]]
    }

    /// Sets the pixel at `(x, y)` to `rgba`; does nothing outside the surface.
    pub fn set_pixel(&mut self, x: i32, y: i32, rgba: [u8; 4])
        requires
            old(self).wf(),
        ensures
            final(self).wf(),
            final(self).width == old(self).width,
            final(self).height == old(self).height,
            old(self).tail_kept(*final(self)),
            forall|px: int, py: int|
                #[trigger] final(self).pixel(px, py) == if px == x && py == y && old(
                    self,
                ).in_bounds(px, py) {
                    rgba
                } else {
                    old(self).pixel(px, py)
                },
    {
        proof {
            self.lemma_dims_fit();
        }
        if x < 0 || y < 0 || x >= self.width as i32 || y >= self.height as i32 {
            return;
        }
        proof {
            lemma_offset_in_range(self.width as int, self.height as int, x as int, y as int);
            assert(y * self.width <= y * self.width + x) by (nonlinear_arith)
                requires
                    x >= 0,
            ;
        }
        let idx = ((y as u32 * self.width + x as u32) * 4) as usize;
        self.pixels.set(idx, rgba[0]);
        self.pixels.set(idx + 1, rgba[1]);
        self.pixels.set(idx + 2, rgba[2]);
        self.pixels.set(idx + 3, rgba[3]);
        proof {
            let w = self.width as int;
            let h = self.height as int;
            assert forall|px: int, py: int|
                #[trigger] self.pixel(px, py) == if px == x && py == y && old(self).in_bounds(
                    px,
                    py,
                ) {
                    rgba
                } else {
                    old(self).pixel(px, py)
                } by {
                if 0 <= px < w && 0 <= py < h && !(px == x && py == y) {
                    lemma_offsets_distinct(w, px, py, x as int, y as int);
                    lemma_offset_in_range(w, h, px, py);
                }
            }
        }
    }

    /// Composites all of `src` onto this surface with its top-left corner at `(x, y)`.
    /// Every destination pixel covered by `src` becomes `blend(source pixel, destination
    /// pixel)`; all other pixels keep their value.
    pub fn composite<F: Fn([u8; 4], [u8; 4]) -> [u8; 4]>(
        &mut self,
        src: &Surface,
        x: i32,
        y: i32,
        blend: F,
    )
        requires
            old(self).wf(),
            src.wf(),
            forall|s: [u8; 4], d: [u8; 4]| call_requires(blend, (s, d)),
            src.width == 0 || src.height == 0 || (x + src.width - 1 <= i32::MAX && y
                + src.height - 1 <= i32::MAX),
        ensures
            final(self).wf(),
            final(self).width == old(self).width,
            final(self).height == old(self).height,
            old(self).tail_kept(*final(self)),
            forall|px: int, py: int|
                old(self).in_bounds(px, py) ==> if src.in_bounds(px - x, py - y) {
                    call_ensures(
                        blend,
                        (src.pixel(px - x, py - y), old(self).pixel(px, py)),
                        #[trigger] final(self).pixel(px, py),
                    )
                } else {
                    final(self).pixel(px, py) == old(self).pixel(px, py)
                },
    {
        proof {
            src.lemma_dims_fit();
            self.lemma_dims_fit();
        }
        let ghost d0 = *self;
        let sh = src.height as i32;
        let sw = src.width as i32;
        let mut row: i32 = 0;
        while row < sh
            invariant
                self.wf(),
                src.wf(),
                self.width == d0.width,
                self.height == d0.height,
                d0.wf(),
                d0.tail_kept(*self),
                forall|s: [u8; 4], d: [u8; 4]| call_requires(blend, (s, d)),
                src.width == 0 || src.height == 0 || (src.width < 0x4000_0000 && src.height
                    < 0x4000_0000),
                d0.width == 0 || d0.height == 0 || (d0.width < 0x4000_0000 && d0.height
                    < 0x4000_0000),
                src.width < 0x4000_0000 ==> sw == src.width,
                src.height < 0x4000_0000 ==> sh == src.height,
                src.width == 0 || src.height == 0 || (x + src.width - 1 <= i32::MAX && y
                    + src.height - 1 <= i32::MAX),
                0 <= row,
                sh >= 0 ==> row <= sh,
                forall|px: int, py: int|
                    d0.in_bounds(px, py) ==> if 0 <= px - x < sw && 0 <= py - y < row {
                        call_ensures(
                            blend,
                            (src.pixel(px - x, py - y), d0.pixel(px, py)),
                            #[trigger] self.pixel(px, py),
                        )
                    } else {
                        self.pixel(px, py) == d0.pixel(px, py)
                    },
            decreases sh - row,
        {
            let mut col: i32 = 0;
            while col < sw
                invariant
                    self.wf(),
                    src.wf(),
                    self.width == d0.width,
                    self.height == d0.height,
                    d0.wf(),
                    d0.tail_kept(*self),
                    forall|s: [u8; 4], d: [u8; 4]| call_requires(blend, (s, d)),
                    src.width == 0 || src.height == 0 || (src.width < 0x4000_0000 && src.height
                        < 0x4000_0000),
                    d0.width == 0 || d0.height == 0 || (d0.width < 0x4000_0000 && d0.height
                        < 0x4000_0000),
                    src.width < 0x4000_0000 ==> sw == src.width,
                    src.height < 0x4000_0000 ==> sh == src.height,
                    src.width == 0 || src.height == 0 || (x + src.width - 1 <= i32::MAX && y
                        + src.height - 1 <= i32::MAX),
                    0 <= row < sh,
                    0 <= col,
                    sw >= 0 ==> col <= sw,
                    forall|px: int, py: int|
                        d0.in_bounds(px, py) ==> if (0 <= px - x < sw && 0 <= py - y < row) || (
                        0 <= px - x < col && py - y == row) {
                            call_ensures(
                                blend,
                                (src.pixel(px - x, py - y), d0.pixel(px, py)),
                                #[trigger] self.pixel(px, py),
                            )
                        } else {
                            self.pixel(px, py) == d0.pixel(px, py)
                        },
                decreases sw - col,
            {
                let dx = x + col;
                let dy = y + row;
                if !(dx < 0 || dy < 0 || dx >= self.width as i32 || dy >= self.height as i32) {
                    let sc = src.get_pixel(col, row);
                    let dc = self.get_pixel(dx, dy);
                    let result = blend(sc, dc);
                    self.set_pixel(dx, dy, result);
                }
                col = col + 1;
            }
            row = row + 1;
        }
    }

    /// Composites the rectangle `src_rect = (sx, sy, sw, sh)` of `src` onto this surface with
    /// its top-left corner at `(dst_x, dst_y)`. The rectangle is `(sw as i32)` x `(sh as i32)`
    /// pixels (empty when a size does not fit in `i32`); rectangle pixels outside `src` read as
    /// transparent black. Every destination pixel covered by the rectangle becomes
    /// `blend(source pixel, destination pixel)`; all other pixels keep their value.
    pub fn composite_rect<F: Fn([u8; 4], [u8; 4]) -> [u8; 4]>(
        &mut self,
        src: &Surface,
        src_rect: (u32, u32, u32, u32),
        dst_x: i32,
        dst_y: i32,
        blend: F,
    )
        requires
            old(self).wf(),
            src.wf(),
            forall|s: [u8; 4], d: [u8; 4]| call_requires(blend, (s, d)),
            (src_rect.2 as i32) > 0 && (src_rect.3 as i32) > 0 ==> dst_x + (src_rect.2 as i32)
                - 1 <= i32::MAX && dst_y + (src_rect.3 as i32) - 1 <= i32::MAX,
            forall|px: int, py: int|
                #[trigger] old(self).in_bounds(px, py) && 0 <= px - dst_x < (src_rect.2 as i32)
                    && 0 <= py - dst_y < (src_rect.3 as i32) ==> (src_rect.0 as i32) + px - dst_x
                    <= i32::MAX && (src_rect.1 as i32) + py - dst_y <= i32::MAX,
        ensures
            final(self).wf(),
            final(self).width == old(self).width,
            final(self).height == old(self).height,
            old(self).tail_kept(*final(self)),
            forall|px: int, py: int|
                old(self).in_bounds(px, py) ==> if 0 <= px - dst_x < (src_rect.2 as i32) && 0
                    <= py - dst_y < (src_rect.3 as i32) {
                    call_ensures(
                        blend,
                        (
                            src.pixel(
                                (src_rect.0 as i32) + px - dst_x,
                                (src_rect.1 as i32) + py - dst_y,
                            ),
                            old(self).pixel(px, py),
                        ),
                        #[trigger] final(self).pixel(px, py),
                    )
                } else {
                    final(self).pixel(px, py) == old(self).pixel(px, py)
                },
    {
        proof {
            self.lemma_dims_fit();
        }
        let ghost d0 = *self;
        let (sx, sy, sw, sh) = src_rect;
        let sx0 = sx as i32;
        let sy0 = sy as i32;
        let rows = sh as i32;
        let cols = sw as i32;
        let mut row: i32 = 0;
        while row < rows
            invariant
                self.wf(),
                src.wf(),
                self.width == d0.width,
                self.height == d0.height,
                d0.wf(),
                d0.tail_kept(*self),
                forall|s: [u8; 4], d: [u8; 4]| call_requires(blend, (s, d)),
                d0.width == 0 || d0.height == 0 || (d0.width < 0x4000_0000 && d0.height
                    < 0x4000_0000),
                cols > 0 && rows > 0 ==> dst_x + cols - 1 <= i32::MAX && dst_y + rows - 1
                    <= i32::MAX,
                forall|px: int, py: int|
                    #[trigger] d0.in_bounds(px, py) && 0 <= px - dst_x < cols && 0 <= py - dst_y
                        < rows ==> sx0 + px - dst_x <= i32::MAX && sy0 + py - dst_y <= i32::MAX,
                0 <= row,
                rows >= 0 ==> row <= rows,
                rows < 0 ==> row == 0,
                forall|px: int, py: int|
                    d0.in_bounds(px, py) ==> if 0 <= px - dst_x < cols && 0 <= py - dst_y < row {
                        call_ensures(
                            blend,
                            (src.pixel(sx0 + px - dst_x, sy0 + py - dst_y), d0.pixel(px, py)),
                            #[trigger] self.pixel(px, py),
                        )
                    } else {
                        self.pixel(px, py) == d0.pixel(px, py)
                    },
            decreases rows - row,
        {
            let mut col: i32 = 0;
            while col < cols
                invariant
                    self.wf(),
                    src.wf(),
                    self.width == d0.width,
                    self.height == d0.height,
                    d0.wf(),
                    d0.tail_kept(*self),
                    forall|s: [u8; 4], d: [u8; 4]| call_requires(blend, (s, d)),
                    d0.width == 0 || d0.height == 0 || (d0.width < 0x4000_0000 && d0.height
                        < 0x4000_0000),
                    cols > 0 && rows > 0 ==> dst_x + cols - 1 <= i32::MAX && dst_y + rows - 1
                        <= i32::MAX,
                    forall|px: int, py: int|
                        #[trigger] d0.in_bounds(px, py) && 0 <= px - dst_x < cols && 0 <= py
                            - dst_y < rows ==> sx0 + px - dst_x <= i32::MAX && sy0 + py - dst_y
                            <= i32::MAX,
                    0 <= row < rows,
                    0 <= col,
                    cols >= 0 ==> col <= cols,
                    cols < 0 ==> col == 0,
                    forall|px: int, py: int|
                        d0.in_bounds(px, py) ==> if (0 <= px - dst_x < cols && 0 <= py - dst_y
                            < row) || (0 <= px - dst_x < col && py - dst_y == row) {
                            call_ensures(
                                blend,
                                (src.pixel(sx0 + px - dst_x, sy0 + py - dst_y), d0.pixel(px, py)),
                                #[trigger] self.pixel(px, py),
                            )
                        } else {
                            self.pixel(px, py) == d0.pixel(px, py)
                        },
                decreases cols - col,
            {
                let dx = dst_x + col;
                let dy = dst_y + row;
                if !(dx < 0 || dy < 0 || dx >= self.width as i32 || dy >= self.height as i32) {
                    assert(d0.in_bounds(dst_x + col, dst_y + row));
                    let sc = src.get_pixel(sx0 + col, sy0 + row);
                    let dc = self.get_pixel(dx, dy);
                    let result = blend(sc, dc);
                    self.set_pixel(dx, dy, result);
                }
                col = col + 1;
            }
            row = row + 1;
        }
    }

    /// A straight-alpha (unpremultiplied) copy of the pixels: for every whole pixel the
    /// alpha byte is copied, the colour bytes of a transparent pixel are 0, and each other
    /// colour byte `c` becomes `unpremultiply(c, alpha)`; trailing bytes that do not make a
    /// whole pixel are 0.
    pub fn to_rgba_u8<F: Fn(u8, u8) -> u8>(&self, unpremultiply: F) -> (r: Vec<u8>)
        requires
            forall|c: u8, a: u8| call_requires(unpremultiply, (c, a)),
        ensures
            r@.len() == self.pixels@.len(),
            forall|k: int|
                0 <= k < self.pixels@.len() - self.pixels@.len() % 4 ==> #[trigger] straight_byte_ok(
                    unpremultiply,
                    self.pixels@,
                    k,
                    r@[k],
                ),
            forall|k: int|
                self.pixels@.len() - self.pixels@.len() % 4 <= k < r@.len() ==> #[trigger] r@[k]
                    == 0,
    {
        let n = self.pixels.len();
        let mut result = vec![0u8; n];
        let whole = n - n % 4;
        let mut i: usize = 0;
        while i < whole
            invariant
                n == self.pixels@.len(),
                n == result@.len(),
                whole == n - n % 4,
                i % 4 == 0,
                i <= whole,
                forall|c: u8, a: u8| call_requires(unpremultiply, (c, a)),
                forall|k: int|
                    0 <= k < i ==> #[trigger] straight_byte_ok(
                        unpremultiply,
                        self.pixels@,
                        k,
                        result@[k],
                    ),
                forall|k: int| i <= k < n ==> #[trigger] result@[k] == 0,
            decreases whole - i,
        {
            let a = self.pixels[i + 3];
            if a > 0 {
                let r = unpremultiply(self.pixels[i], a);
                result.set(i, r);
                let g = unpremultiply(self.pixels[i + 1], a);
                result.set(i + 1, g);
                let b = unpremultiply(self.pixels[i + 2], a);
                result.set(i + 2, b);
            } else {
                result.set(i, 0);
                result.set(i + 1, 0);
                result.set(i + 2, 0);
            }
            result.set(i + 3, a);
            assert(forall|k: int| i <= k < i + 4 ==> #[trigger] (k % 4) == k - i);
            assert(forall|k: int| i <= k < i + 4 ==> #[trigger] (k - k % 4 + 3) == i + 3);
            i = i + 4;
        }
        result
    }

    /// With a non-empty buffer, both dimensions are below 2^30.
    proof fn lemma_dims_fit(&self)
        requires
            self.wf(),
        ensures
            self.width == 0 || self.height == 0 || (self.width < 0x4000_0000 && self.height
                < 0x4000_0000),
    {
        if self.width != 0 && self.height != 0 {
            assert(self.width <= self.width * self.height && self.height <= self.width
                * self.height) by (nonlinear_arith)
                requires
                    self.width >= 1,
                    self.height >= 1,
            ;
        }
    }
}

} // verus!
