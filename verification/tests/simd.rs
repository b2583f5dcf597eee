use sorot::simd::{blend_src_over, fill_color};

/// Source-over of one premultiplied pixel in `f32`, as the buffer blend computes it.
fn src_over(s: [u8; 4], d: [u8; 4]) -> [u8; 4] {
    let sa = s[3] as f32 * (1.0 / 255.0);
    let inv = 1.0 - sa;
    [
        (s[0] as f32 + d[0] as f32 * inv).min(255.0) as u8,
        (s[1] as f32 + d[1] as f32 * inv).min(255.0) as u8,
        (s[2] as f32 + d[2] as f32 * inv).min(255.0) as u8,
        ((sa * 255.0) + d[3] as f32 * inv).min(255.0) as u8,
    ]
}

#[test]
fn simd_test_test_blend_src_over_opaque() {
    let mut dst = [0u8, 0, 0, 0, 0, 0, 0, 0];
    let src = [255u8, 0, 0, 255, 0, 255, 0, 128];
    blend_src_over(&mut dst, &src, src_over);
    assert_eq!(dst[0], 255);
    assert_eq!(dst[3], 255);
    assert!(dst[5] > 0);
}

#[test]
fn simd_test_blend_src_over_opaque() {
    let mut dst = [0u8, 0, 0, 0, 0, 0, 0, 0];
    let src = [255u8, 0, 0, 255, 0, 255, 0, 128];
    blend_src_over(&mut dst, &src, src_over);
    assert_eq!(dst[0], 255);
    assert_eq!(dst[3], 255);
    assert!(dst[5] > 0);
}

// `Color::from_rgba(1.0, 0.0, 0.0, 1.0).to_premultiplied_u8()` is `[255, 0, 0, 255]`.
#[test]
fn simd_test_test_fill_color() {
    let mut buf = vec![0u8; 40];
    fill_color(&mut buf, [255, 0, 0, 255]);
    assert_eq!(buf[0], 255);
    assert_eq!(buf[1], 0);
    assert_eq!(buf[3], 255);
    assert_eq!(buf[4], 255);
}

#[test]
fn simd_test_fill_color() {
    let mut buf = vec![0u8; 40];
    fill_color(&mut buf, [255, 0, 0, 255]);
    assert_eq!(buf[0], 255);
    assert_eq!(buf[1], 0);
    assert_eq!(buf[3], 255);
    assert_eq!(buf[4], 255);
}

#[test]
fn blend_src_over_exact_values() {
    // Half-transparent premultiplied red over opaque blue, five pixels (one group of
    // four and one tail pixel).
    let px_src = [128u8, 0, 0, 128];
    let px_dst = [0u8, 0, 255, 255];
    let mut src = Vec::new();
    let mut dst = Vec::new();
    for _ in 0..5 {
        src.extend_from_slice(&px_src);
        dst.extend_from_slice(&px_dst);
    }
    blend_src_over(&mut dst, &src, src_over);
    for p in 0..5 {
        // 255 * (1 - 128/255) falls just short of 127 in f32 and is truncated
        assert_eq!(&dst[p * 4..p * 4 + 4], &[128, 0, 126, 255]);
    }
}

#[test]
fn blend_src_over_transparent_source_keeps_destination() {
    let src = [0u8; 12];
    let mut dst = [10u8, 20, 30, 40, 50, 60, 70, 80, 90, 100, 110, 120];
    let before = dst;
    blend_src_over(&mut dst, &src, src_over);
    assert_eq!(dst, before);
}

#[test]
fn blend_src_over_clamps_to_255() {
    // A source that is not properly premultiplied saturates.
    let src = [200u8, 200, 200, 100];
    let mut dst = [200u8, 200, 200, 200];
    blend_src_over(&mut dst, &src, src_over);
    // 200 + 200 * 155 / 255 = 321 -> 255; alpha 100 + 200 * 155 / 255 = 221
    assert_eq!(dst, [255, 255, 255, 221]);
}

#[test]
fn blend_src_over_hands_each_pixel_to_the_blend() {
    // Black at alpha 49 over white: 255 * (1 - 49/255) is 205.99.. in f32, truncated to 205.
    let src = [0u8, 0, 0, 49, 1, 2, 3, 4];
    let mut dst = [255u8, 255, 255, 255, 9, 9, 9, 9];
    blend_src_over(&mut dst, &src, src_over);
    assert_eq!(&dst[0..4], &[205, 205, 205, 254]);
    // Any pixel operation is applied pixel by pixel, source first.
    let mut dst = [10u8, 20, 30, 40, 50, 60, 70, 80];
    blend_src_over(&mut dst, &src, |s: [u8; 4], d: [u8; 4]| [s[0], d[0], s[3], d[3]]);
    assert_eq!(dst, [0, 10, 49, 40, 1, 50, 4, 80]);
}

#[test]
fn fill_color_sixteen_byte_groups_and_tail() {
    let mut buf = vec![9u8; 24];
    fill_color(&mut buf, [1, 2, 3, 4]);
    for (k, b) in buf.iter().enumerate() {
        assert_eq!(*b, [1u8, 2, 3, 4][k % 4]);
    }
}
