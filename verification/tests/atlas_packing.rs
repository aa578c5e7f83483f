use snifferlauncher::atlas::{fill_atlas, layout_atlas, GlyphBitmap, ATLAS_PADDING};

#[test]
fn empty_atlas_is_one_pixel_wide() {
    let l = layout_atlas(&[]);
    assert_eq!((l.width, l.height), (1, 5));
    assert!(l.origins.is_empty());
    assert_eq!(fill_atlas(&[]), vec![0u8; 5]);
}

#[test]
fn glyphs_stand_side_by_side_with_a_border() {
    assert_eq!(ATLAS_PADDING, 2);
    let l = layout_atlas(&[(3, 2), (0, 0), (5, 7)]);
    assert_eq!((l.width, l.height), (20, 11));
    assert_eq!(l.origins, vec![(2, 2), (9, 2), (13, 2)]);
    // Glyphs without pixels still get a cell; the height is at least one row.
    let l = layout_atlas(&[(0, 0)]);
    assert_eq!((l.width, l.height), (4, 5));
}

#[test]
fn atlas_pixels_hold_each_glyph_in_its_cell() {
    let glyphs = vec![
        GlyphBitmap { width: 2, height: 2, bitmap: vec![1, 2, 3, 4] },
        GlyphBitmap { width: 1, height: 3, bitmap: vec![5, 6, 7] },
    ];
    let pixels = fill_atlas(&glyphs);
    let (w, h) = (11usize, 7usize);
    let mut expected = vec![0u8; w * h];
    expected[2 * w + 2] = 1;
    expected[2 * w + 3] = 2;
    expected[3 * w + 2] = 3;
    expected[3 * w + 3] = 4;
    expected[2 * w + 8] = 5;
    expected[3 * w + 8] = 6;
    expected[4 * w + 8] = 7;
    assert_eq!(pixels, expected);
    let l = layout_atlas(&[(2, 2), (1, 3)]);
    assert_eq!((l.width as usize, l.height as usize), (w, h));
    assert_eq!(l.origins, vec![(2, 2), (8, 2)]);
}
