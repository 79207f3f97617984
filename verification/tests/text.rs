use libre99::text::{glyph, text_width, Canvas, ADVANCE, GLYPH_W};

#[test]
fn known_glyphs_have_the_expected_shape() {
    assert_eq!(glyph(' '), [0; 7]);
    assert_ne!(glyph('A'), [0; 7]);
    // Lowercase folds to uppercase.
    assert_eq!(glyph('a'), glyph('A'));
    // 'T' is a top bar plus a centered stem.
    assert_eq!(glyph('T')[0], 0b11111);
    assert_eq!(glyph('T')[3], 0b00100);
    // Unknown characters are blank, never a panic.
    assert_eq!(glyph('€'), [0; 7]);
}

#[test]
fn draw_text_sets_pixels_within_bounds_only() {
    let (w, h) = (40, 12);
    let mut fb = vec![0u32; w * h];
    Canvas::new(&mut fb, w, h).draw_text(1, 1, "HI!", 0x00FF_FFFF, 1);
    assert!(fb.iter().any(|&p| p == 0x00FF_FFFF), "nothing was drawn");
    // Drawing far off-screen must not panic or write anywhere.
    let mut fb2 = vec![0u32; w * h];
    Canvas::new(&mut fb2, w, h).draw_text(1000, 1000, "OFF", 0x00FF_FFFF, 2);
    assert!(fb2.iter().all(|&p| p == 0), "wrote out of bounds");
}

#[test]
fn text_width_matches_advance() {
    assert_eq!(text_width("", 1), 0);
    assert_eq!(text_width("A", 1), GLYPH_W);
    assert_eq!(text_width("AB", 1), ADVANCE + GLYPH_W);
    assert_eq!(text_width("AB", 2), (ADVANCE + GLYPH_W) * 2);
}

#[test]
fn a_glyph_lands_where_its_bits_are() {
    let (w, h) = (12, 16);
    let mut fb = vec![0u32; w * h];
    // 'T' at (1, 2), scale 2: the top bar is rows 2..4, columns 1..11.
    Canvas::new(&mut fb, w, h).draw_char(1, 2, 'T', 7, 2);
    for x in 0..w {
        let on = (1..11).contains(&x);
        assert_eq!(fb[2 * w + x], if on { 7 } else { 0 }, "x={x}");
        assert_eq!(fb[3 * w + x], if on { 7 } else { 0 }, "x={x}");
    }
    // The stem: columns 5..7 from row 4 down.
    assert_eq!(fb[4 * w + 5], 7);
    assert_eq!(fb[4 * w + 6], 7);
    assert_eq!(fb[4 * w + 4], 0);
    assert_eq!(fb[0], 0);
}

#[test]
fn dim_rect_halves_channels_inside_only() {
    let (w, h) = (3, 2);
    let mut fb = vec![0x00FF_8040u32; w * h];
    Canvas::new(&mut fb, w, h).dim_rect(1, 0, 5, 1, 1);
    assert_eq!(fb[0], 0x00FF_8040);
    assert_eq!(fb[1], 0x007F_4020);
    assert_eq!(fb[2], 0x007F_4020);
    assert_eq!(fb[3], 0x00FF_8040);
}

#[test]
fn bits_draw_with_the_font_packing() {
    let (w, h) = (5, 7);
    let mut fb = vec![0u32; w * h];
    Canvas::new(&mut fb, w, h).draw_bits(0, 0, &[0b10001, 0, 0, 0, 0, 0, 0b00100], 9, 1);
    assert_eq!(fb[0], 9);
    assert_eq!(fb[4], 9);
    assert_eq!(fb[1], 0);
    assert_eq!(fb[6 * w + 2], 9);
    assert_eq!(fb.iter().filter(|&&p| p == 9).count(), 3);
}
