//! The integer part of shadow generation: taking the alpha channel out of an image.
use vstd::prelude::*;

verus! {

/// An image of the same size as `src` that keeps only the alpha of each pixel; every colour
/// byte is zero.
pub fn extract_alpha(src: &[u8], width: u32, height: u32) -> (alpha: Vec<u8>)
    requires
        width * height * 4 <= u32::MAX,
        src@.len() >= width * height * 4,
    ensures
        alpha@.len() == width * height * 4,
        forall|k: int|
            0 <= k < alpha@.len() ==> #[trigger] alpha@[k] == if k % 4 == 3 {
                src@[k]
            } else {
                0u8
            },
{
    assert(width * height <= u32::MAX) by (nonlinear_arith)
        requires
            width * height * 4 <= u32::MAX,
    ;
    let pixels: u32 = width * height;
    let mut alpha: Vec<u8> = Vec::new();
    let mut i: u32 = 0;
    while i < pixels
        invariant
            pixels == width * height,
            pixels * 4 <= u32::MAX,
            src@.len() >= pixels * 4,
            i <= pixels,
            alpha@.len() == 4 * i,
            forall|k: int|
                0 <= k < alpha@.len() ==> #[trigger] alpha@[k] == if k % 4 == 3 {
                    src@[k]
                } else {
                    0u8
                },
        decreases pixels - i,
    {
        let si: usize = (i as usize) * 4;
        alpha.push(0);
        alpha.push(0);
        alpha.push(0);
        alpha.push(src[si + 3]);
        assert(forall|k: int| 4 * i <= k < 4 * i + 4 ==> #[trigger] (k % 4) == k - 4 * i);
        i = i + 1;
    }
    alpha
}

} // verus!
