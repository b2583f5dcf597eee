//! Whole-buffer operations of the anti-aliasing rasterizer.
use vstd::prelude::*;

verus! {

/// Clear buffer to transparent black.
pub fn clear_buffer(buffer: &mut [u8])
    ensures
        final(buffer)@.len() == old(buffer)@.len(),
        forall|k: int| 0 <= k < final(buffer)@.len() ==> #[trigger] final(buffer)@[k] == 0,
{
    let n = buffer.len();
    let mut i: usize = 0;
    while i < n
        invariant
            n == buffer@.len(),
            i <= n,
            forall|k: int| 0 <= k < i ==> #[trigger] buffer@[k] == 0,
        decreases n - i,
    {
        buffer[i] = 0;
        i = i + 1;
    }
}

/// Fill every whole 4-byte pixel of the buffer with a premultiplied pixel value;
/// trailing bytes that do not make a whole pixel are left as they were.
pub fn fill_buffer(buffer: &mut [u8], rgba: [u8; 4])
    ensures
        final(buffer)@.len() == old(buffer)@.len(),
        forall|k: int|
            0 <= k < old(buffer)@.len() ==> #[trigger] final(buffer)@[k] == if k < old(
                buffer,
            )@.len() - old(buffer)@.len() % 4 {
                rgba[k % 4]
            } else {
                old(buffer)@[k]
            },
{
    let n = buffer.len();
    let whole = n - n % 4;
    let ghost b0 = buffer@;
    let mut i: usize = 0;
    while i < whole
        invariant
            n == buffer@.len(),
            b0.len() == n,
            whole == n - n % 4,
            i % 4 == 0,
            i <= whole,
            forall|k: int| 0 <= k < i ==> #[trigger] buffer@[k] == rgba[k % 4],
            forall|k: int| i <= k < n ==> #[trigger] buffer@[k] == b0[k],
        decreases whole - i,
    {
        buffer[i] = rgba[0];
        buffer[i + 1] = rgba[1];
        buffer[i + 2] = rgba[2];
        buffer[i + 3] = rgba[3];
        assert(forall|k: int| i <= k < i + 4 ==> #[trigger] (k % 4) == k - i);
        i = i + 4;
    }
}

} // verus!
