use libre99::video::{blit, HEIGHT, WIDTH};

/// A source framebuffer whose every pixel encodes its own `(x, y)` so scaling
/// and centering are verifiable by reading back where each source pixel went.
fn coded_fb() -> Vec<u32> {
    (0..HEIGHT)
        .flat_map(|y| (0..WIDTH).map(move |x| ((y as u32) << 16) | x as u32))
        .collect()
}

#[test]
fn exact_fit_is_a_verbatim_copy() {
    let fb = coded_fb();
    let mut dst = vec![0xDEAD_BEEF; WIDTH * HEIGHT];
    blit(&fb, &mut dst, WIDTH, HEIGHT);
    assert_eq!(dst, fb);
}

#[test]
fn integer_scale_doubles_each_pixel_into_a_block() {
    let fb = coded_fb();
    let (w, h) = (WIDTH * 2, HEIGHT * 2);
    let mut dst = vec![0u32; w * h];
    blit(&fb, &mut dst, w, h);
    let s00 = fb[0];
    let s10 = fb[1];
    assert_eq!(dst[0], s00);
    assert_eq!(dst[1], s00);
    assert_eq!(dst[w], s00);
    assert_eq!(dst[w + 1], s00);
    assert_eq!(dst[2], s10);
    assert_eq!(dst[3], s10);
}

#[test]
fn scale_is_the_limiting_dimension_and_image_is_centered() {
    let fb = coded_fb();
    let (w, h) = (WIDTH * 2, HEIGHT + 100);
    let mut dst = vec![0x00FF_00FFu32; w * h];
    blit(&fb, &mut dst, w, h);
    let scale = 1;
    let ox = (w - WIDTH * scale) / 2;
    let oy = (h - HEIGHT * scale) / 2;
    assert_eq!(ox, 128);
    assert_eq!(oy, 50);
    assert_eq!(dst[0], 0x0000_0000, "top-left corner is background");
    assert_eq!(dst[(oy - 1) * w + ox], 0, "row just above the image is black");
    assert_eq!(dst[oy * w + ox], fb[0]);
    assert_eq!(dst[(oy + HEIGHT - 1) * w + ox + WIDTH - 1], fb[(HEIGHT - 1) * WIDTH + WIDTH - 1]);
}

#[test]
fn window_smaller_than_native_clamps_without_panic() {
    let fb = coded_fb();
    let (w, h) = (100, 80);
    let mut dst = vec![0u32; w * h];
    blit(&fb, &mut dst, w, h);
    assert_eq!(dst[0], fb[0]);
    assert_eq!(dst[w + 1], fb[WIDTH + 1]);
    assert_eq!(dst[(h - 1) * w + (w - 1)], fb[(h - 1) * WIDTH + (w - 1)]);
}

#[test]
fn zero_sized_window_is_a_no_op() {
    let fb = coded_fb();
    let mut dst: Vec<u32> = Vec::new();
    blit(&fb, &mut dst, 0, 10);
    assert!(dst.is_empty());
}

#[test]
fn triple_scale_centers_with_a_letterbox() {
    let fb = coded_fb();
    let (w, h) = (WIDTH * 3 + 10, HEIGHT * 3 + 4);
    let mut dst = vec![7u32; w * h + 5];
    blit(&fb, &mut dst, w, h);
    let (ox, oy) = (5, 2);
    assert_eq!(dst[oy * w + ox - 1], 0);
    assert_eq!(dst[oy * w + ox], fb[0]);
    assert_eq!(dst[(oy + 3) * w + ox + 3], fb[WIDTH + 1]);
    assert_eq!(dst[(oy + 3 * HEIGHT - 1) * w + ox + 3 * WIDTH - 1], fb[HEIGHT * WIDTH - 1]);
    assert_eq!(dst[w * h], 0, "words past the window are cleared too");
}
