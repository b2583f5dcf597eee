//! Pixel-by-pixel blending and solid fills over RGBA8 byte buffers.
//! Buffers hold pixels as `[r0, g0, b0, a0, r1, g1, b1, a1, ...]`.
use vstd::prelude::*;

verus! {

/// The pixel `p` of a buffer of RGBA bytes: bytes `4p .. 4p + 4`.
pub open spec fn pixel_at(bytes: Seq<u8>, p: int) -> [u8; 4] {
    [bytes[4 * p], bytes[4 * p + 1], bytes[4 * p + 2], bytes[4 * p + 3]]
}

/// Replaces the pixel at byte offset `i` of `dst` by `blend` of the same pixel of `src` and
/// of `dst`.
fn blend_pixel_at<F: Fn([u8; 4], [u8; 4]) -> [u8; 4]>(
    dst: &mut [u8],
    src: &[u8],
    i: usize,
    blend: &F,
)
    requires
        i + 4 <= old(dst)@.len(),
        old(dst)@.len() == src@.len(),
        forall|s: [u8; 4], d: [u8; 4]| call_requires(*blend, (s, d)),
    ensures
        final(dst)@.len() == old(dst)@.len(),
        call_ensures(
            *blend,
            (
                [src@[i as int], src@[i + 1], src@[i + 2], src@[i + 3]],
                [old(dst)@[i as int], old(dst)@[i + 1], old(dst)@[i + 2], old(dst)@[i + 3]],
            ),
            [final(dst)@[i as int], final(dst)@[i + 1], final(dst)@[i + 2], final(dst)@[i + 3]],
        ),
        forall|k: int|
            0 <= k < old(dst)@.len() && !(i <= k < i + 4) ==> #[trigger] final(dst)@[k]
                == old(dst)@[k],
{
    let s = [src[i], src[i + 1], src[i + 2], src[i + 3]];
    let d = [dst[i], dst[i + 1], dst[i + 2], dst[i + 3]];
    let r = blend(s, d);
    dst[i] = r[0];
    dst[i + 1] = r[1];
    dst[i + 2] = r[2];
    dst[i + 3] = r[3];
    assert([dst@[i as int], dst@[i + 1], dst@[i + 2], dst@[i + 3]] == r);
}

/// Blend two slices of premultiplied RGBA pixels pixel by pixel: every pixel of `dst`
/// becomes `blend(src pixel, dst pixel)`; `blend` is the source-over of one pixel. Processes
/// 4 pixels at a time.
pub fn blend_src_over<F: Fn([u8; 4], [u8; 4]) -> [u8; 4]>(dst: &mut [u8], src: &[u8], blend: F)
    requires
        old(dst)@.len() == src@.len(),
        src@.len() % 4 == 0,
        forall|s: [u8; 4], d: [u8; 4]| call_requires(blend, (s, d)),
    ensures
        final(dst)@.len() == old(dst)@.len(),
        forall|p: int|
            0 <= p < src@.len() / 4 ==> call_ensures(
                blend,
                (pixel_at(src@, p), pixel_at(old(dst)@, p)),
                #[trigger] pixel_at(final(dst)@, p),
            ),
{
    let len = dst.len();
    let pixel_count = len / 4;
    let simd_count = (pixel_count / 4) * 4;
    let simd_bytes = simd_count * 4;
    let ghost d0 = dst@;
    let mut i: usize = 0;
    while i < simd_bytes
        invariant
            len == dst@.len(),
            len == src@.len(),
            len % 4 == 0,
            simd_bytes <= len,
            simd_bytes % 16 == 0,
            i % 16 == 0,
            i <= simd_bytes,
            d0.len() == len,
            forall|s: [u8; 4], d: [u8; 4]| call_requires(blend, (s, d)),
            forall|p: int|
                0 <= p < i / 4 ==> call_ensures(
                    blend,
                    (pixel_at(src@, p), pixel_at(d0, p)),
                    #[trigger] pixel_at(dst@, p),
                ),
            forall|k: int| i <= k < len ==> #[trigger] dst@[k] == d0[k],
        decreases simd_bytes - i,
    {
        let ghost before = dst@;
        blend_pixel_at(dst, src, i, &blend);
        blend_pixel_at(dst, src, i + 4, &blend);
        blend_pixel_at(dst, src, i + 8, &blend);
        blend_pixel_at(dst, src, i + 12, &blend);
        assert forall|p: int| 0 <= p < (i + 16) / 4 implies call_ensures(
            blend,
            (pixel_at(src@, p), pixel_at(d0, p)),
            #[trigger] pixel_at(dst@, p),
        ) by {
            if p < i / 4 {
                assert(pixel_at(dst@, p) == pixel_at(before, p));
            } else {
                assert(pixel_at(d0, p) == pixel_at(before, p));
            }
        }
        i = i + 16;
    }
    while i < len
        invariant
            len == dst@.len(),
            len == src@.len(),
            len % 4 == 0,
            i % 4 == 0,
            i <= len,
            d0.len() == len,
            forall|s: [u8; 4], d: [u8; 4]| call_requires(blend, (s, d)),
            forall|p: int|
                0 <= p < i / 4 ==> call_ensures(
                    blend,
                    (pixel_at(src@, p), pixel_at(d0, p)),
                    #[trigger] pixel_at(dst@, p),
                ),
            forall|k: int| i <= k < len ==> #[trigger] dst@[k] == d0[k],
        decreases len - i,
    {
        let ghost before = dst@;
        blend_pixel_at(dst, src, i, &blend);
        assert forall|p: int| 0 <= p < (i + 4) / 4 implies call_ensures(
            blend,
            (pixel_at(src@, p), pixel_at(d0, p)),
            #[trigger] pixel_at(dst@, p),
        ) by {
            if p < i / 4 {
                assert(pixel_at(dst@, p) == pixel_at(before, p));
            } else {
                assert(pixel_at(d0, p) == pixel_at(before, p));
            }
        }
        i = i + 4;
    }
}

/// Fill a pixel buffer with one premultiplied pixel value. 4-pixel unrolled.
pub fn fill_color(dst: &mut [u8], rgba: [u8; 4])
    requires
        old(dst)@.len() % 4 == 0,
    ensures
        final(dst)@.len() == old(dst)@.len(),
        forall|k: int| 0 <= k < final(dst)@.len() ==> #[trigger] final(dst)@[k] == rgba[k % 4],
{
    let len = dst.len() / 4;
    let simd_count = (len / 4) * 4;
    let simd_bytes = simd_count * 4;
    let n = dst.len();
    let mut i: usize = 0;
    while i < simd_bytes
        invariant
            n == dst@.len(),
            n % 4 == 0,
            simd_bytes <= n,
            simd_bytes % 16 == 0,
            i % 16 == 0,
            i <= simd_bytes,
            forall|k: int| 0 <= k < i ==> #[trigger] dst@[k] == rgba[k % 4],
        decreases simd_bytes - i,
    {
        let mut j: usize = 0;
        while j < 16
            invariant
                n == dst@.len(),
                i + 16 <= n,
                i % 16 == 0,
                j <= 16,
                forall|k: int| 0 <= k < i + j ==> #[trigger] dst@[k] == rgba[k % 4],
            decreases 16 - j,
        {
            dst[i + j] = rgba[j % 4];
            assert((i + j) % 4 == j % 4);
            j = j + 1;
        }
        i = i + 16;
    }
    while i < n
        invariant
            n == dst@.len(),
            n % 4 == 0,
            i % 4 == 0,
            i <= n,
            forall|k: int| 0 <= k < i ==> #[trigger] dst@[k] == rgba[k % 4],
        decreases n - i,
    {
        dst[i] = rgba[0];
        dst[i + 1] = rgba[1];
        dst[i + 2] = rgba[2];
        dst[i + 3] = rgba[3];
        assert(forall|k: int| i <= k < i + 4 ==> #[trigger] (k % 4) == k - i);
        i = i + 4;
    }
}

} // verus!
