use sorot::surface::Surface;

// Source-over on premultiplied pixels, in `f32`.
fn src_over(s: [u8; 4], d: [u8; 4]) -> [u8; 4] {
    let sa = s[3] as f32 / 255.0;
    let inv = 1.0 - sa;
    [
        (s[0] as f32 + d[0] as f32 * inv) as u8,
        (s[1] as f32 + d[1] as f32 * inv) as u8,
        (s[2] as f32 + d[2] as f32 * inv) as u8,
        (s[3] as f32 + d[3] as f32 * inv).min(255.0) as u8,
    ]
}

// A premultiplied channel back to straight alpha, in `f32`.
fn unpremultiply(c: u8, a: u8) -> u8 {
    let r = c as f32 / 255.0;
    let inv = 1.0 / (a as f32 / 255.0);
    (r * inv * 255.0 + 0.5).min(255.0) as u8
}

fn channel(p: [u8; 4], c: usize) -> f32 {
    p[c] as f32 / 255.0
}

#[test]
fn test_surface_new() {
    let s = Surface::new(100, 50);
    assert_eq!(s.pixels.len(), 20000);
}

// `Color::from_rgba(1.0, 0.0, 0.0, 1.0)` is the premultiplied pixel `[255, 0, 0, 255]`.
#[test]
fn test_fill() {
    let mut s = Surface::new(10, 10);
    s.fill([255, 0, 0, 255]);
    let pixel = s.get_pixel(5, 5);
    assert!((channel(pixel, 0) - 1.0).abs() < 0.01);
}

// `Color::from_rgba(0.0, 0.0, 1.0, 1.0)` is `[0, 0, 255, 255]`;
// `Color::from_rgba(1.0, 0.0, 0.0, 0.5)` is `[128, 0, 0, 128]`.
#[test]
fn test_composite_src_over() {
    let mut dst = Surface::new(10, 10);
    dst.fill([0, 0, 255, 255]);

    let mut src = Surface::new(5, 5);
    src.fill([128, 0, 0, 128]);

    dst.composite(&src, 0, 0, src_over);
    let pixel = dst.get_pixel(2, 2);
    assert!(channel(pixel, 0) > 0.0);
    assert!(channel(pixel, 2) > 0.0);
}

#[test]
fn new_surface_is_transparent() {
    let s = Surface::new(3, 2);
    assert_eq!(s.width, 3);
    assert_eq!(s.height, 2);
    assert!(s.pixels.iter().all(|b| *b == 0));
    assert_eq!(s.get_pixel(2, 1), [0, 0, 0, 0]);
}

#[test]
fn set_then_get_pixel() {
    let mut s = Surface::new(4, 3);
    s.set_pixel(3, 2, [1, 2, 3, 4]);
    assert_eq!(s.get_pixel(3, 2), [1, 2, 3, 4]);
    assert_eq!(&s.pixels[(2 * 4 + 3) * 4..(2 * 4 + 3) * 4 + 4], &[1, 2, 3, 4]);
    assert_eq!(s.get_pixel(2, 2), [0, 0, 0, 0]);
    // Outside the surface: nothing is written and reads are transparent.
    s.set_pixel(4, 0, [9, 9, 9, 9]);
    s.set_pixel(-1, 0, [9, 9, 9, 9]);
    assert!(s.pixels.iter().filter(|b| **b == 9).count() == 0);
    assert_eq!(s.get_pixel(4, 0), [0, 0, 0, 0]);
    assert_eq!(s.get_pixel(0, -1), [0, 0, 0, 0]);
}

#[test]
fn clear_and_fill() {
    let mut s = Surface::new(2, 2);
    s.fill([5, 6, 7, 8]);
    assert_eq!(s.pixels, vec![5, 6, 7, 8, 5, 6, 7, 8, 5, 6, 7, 8, 5, 6, 7, 8]);
    s.clear();
    assert_eq!(s.pixels, vec![0; 16]);
}

#[test]
fn composite_clips_to_destination() {
    let mut dst = Surface::new(3, 3);
    let mut src = Surface::new(2, 2);
    src.fill([255, 255, 255, 255]);
    dst.composite(&src, 2, -1, src_over);
    // Only (2, 0) is covered, by source pixel (0, 1).
    for y in 0..3 {
        for x in 0..3 {
            let expected = if (x, y) == (2, 0) { [255, 255, 255, 255] } else { [0, 0, 0, 0] };
            assert_eq!(dst.get_pixel(x, y), expected);
        }
    }
}

#[test]
fn composite_hands_source_and_destination_to_blend() {
    let mut dst = Surface::new(2, 1);
    dst.set_pixel(0, 0, [1, 1, 1, 1]);
    dst.set_pixel(1, 0, [2, 2, 2, 2]);
    let mut src = Surface::new(1, 1);
    src.set_pixel(0, 0, [10, 20, 30, 40]);
    dst.composite(&src, 1, 0, |s: [u8; 4], d: [u8; 4]| [s[0] + d[0], s[1], d[2], 99]);
    assert_eq!(dst.get_pixel(0, 0), [1, 1, 1, 1]);
    assert_eq!(dst.get_pixel(1, 0), [12, 20, 2, 99]);
}

#[test]
fn composite_rect_reads_transparent_outside_source() {
    let mut dst = Surface::new(3, 1);
    dst.fill([0, 0, 255, 255]);
    let mut src = Surface::new(2, 1);
    src.fill([255, 0, 0, 255]);
    // A 3x1 rectangle starting at source x = 1: the last two pixels fall outside the source.
    dst.composite_rect(&src, (1, 0, 3, 1), 0, 0, src_over);
    assert_eq!(dst.get_pixel(0, 0), [255, 0, 0, 255]);
    assert_eq!(dst.get_pixel(1, 0), [0, 0, 255, 255]);
    assert_eq!(dst.get_pixel(2, 0), [0, 0, 255, 255]);
}

#[test]
fn composite_rect_offset() {
    let mut dst = Surface::new(4, 4);
    let mut src = Surface::new(4, 4);
    src.set_pixel(2, 3, [7, 7, 7, 255]);
    dst.composite_rect(&src, (2, 3, 1, 1), 0, 0, src_over);
    assert_eq!(dst.get_pixel(0, 0), [7, 7, 7, 255]);
    assert_eq!(dst.pixels.iter().filter(|b| **b != 0).count(), 4);
}

#[test]
fn to_rgba_u8_unpremultiplies() {
    let mut s = Surface::new(3, 1);
    s.set_pixel(0, 0, [64, 32, 0, 128]);
    s.set_pixel(1, 0, [10, 20, 30, 255]);
    s.set_pixel(2, 0, [5, 6, 7, 0]);
    let out = s.to_rgba_u8(unpremultiply);
    // 64 * 255 / 128 = 127.5 -> 128; 32 * 255 / 128 = 63.75 -> 64
    assert_eq!(&out[0..4], &[128, 64, 0, 128]);
    let mut t = Surface::new(1, 1);
    t.set_pixel(0, 0, [7, 0, 0, 14]);
    // 7 * 255 / 14 = 127.5, which f32 computes just below the half
    assert_eq!(t.to_rgba_u8(unpremultiply), vec![127, 0, 0, 14]);
    // Opaque pixels are unchanged.
    assert_eq!(&out[4..8], &[10, 20, 30, 255]);
    // Fully transparent pixels lose their color.
    assert_eq!(&out[8..12], &[0, 0, 0, 0]);
}

#[test]
fn to_rgba_u8_clamps() {
    let mut s = Surface::new(1, 1);
    s.set_pixel(0, 0, [200, 0, 0, 100]);
    assert_eq!(s.to_rgba_u8(unpremultiply), vec![255, 0, 0, 100]);
}

#[test]
fn surface_with_a_longer_buffer_keeps_its_tail() {
    let mut s = Surface { width: 2, height: 1, pixels: vec![0, 0, 0, 0, 0, 0, 0, 0, 7, 7, 7] };
    s.set_pixel(1, 0, [1, 2, 3, 4]);
    assert_eq!(s.get_pixel(1, 0), [1, 2, 3, 4]);
    let mut src = Surface::new(2, 1);
    src.fill([255, 255, 255, 255]);
    s.composite(&src, 0, 0, src_over);
    assert_eq!(s.get_pixel(0, 0), [255, 255, 255, 255]);
    s.composite_rect(&src, (0, 0, 2, 1), 0, 0, src_over);
    assert_eq!(&s.pixels[8..], &[7, 7, 7]);
    assert_eq!(s.pixels.len(), 11);
}
