//! Packing rasterized glyphs into a font atlas: the glyphs stand side by side
//! in one row, in the order given, each in a cell with a border of
//! `ATLAS_PADDING` empty pixels, and the atlas is as wide as the cells together
//! and as tall as the tallest glyph with its border.
use vstd::prelude::*;

verus! {

/// Empty pixels around each glyph in the atlas.
pub const ATLAS_PADDING: u32 = 2u32;

/// The width of the row of cells for glyphs of the given sizes
/// (`(width, height)`): each cell is its glyph's width plus the border on both
/// sides.
pub open spec fn row_width(gs: Seq<(u32, u32)>) -> nat
    decreases gs.len(),
{
    if gs.len() == 0 {
        0
    } else {
        (row_width(gs.drop_last()) + gs.last().0 + 2 * ATLAS_PADDING) as nat
    }
}

/// The height of the tallest glyph, zero where there is none.
pub open spec fn max_height(gs: Seq<(u32, u32)>) -> nat
    decreases gs.len(),
{
    if gs.len() == 0 {
        0
    } else if max_height(gs.drop_last()) >= gs.last().1 {
        max_height(gs.drop_last())
    } else {
        gs.last().1 as nat
    }
}

/// The atlas width: the row of cells, and at least one pixel.
pub open spec fn atlas_width(gs: Seq<(u32, u32)>) -> nat {
    if row_width(gs) == 0 {
        1
    } else {
        row_width(gs)
    }
}

/// The atlas height: the tallest glyph, at least one pixel, with the border
/// above and below.
pub open spec fn atlas_height(gs: Seq<(u32, u32)>) -> nat {
    ((if max_height(gs) == 0 {
        1
    } else {
        max_height(gs)
    }) + 2 * ATLAS_PADDING) as nat
}

/// Where glyph `k` starts in the atlas: after the cells of the glyphs before
/// it and the border of its own cell.
pub open spec fn glyph_x(gs: Seq<(u32, u32)>, k: int) -> nat {
    (row_width(gs.take(k)) + ATLAS_PADDING) as nat
}

/// The cells of a prefix take no more of the row than the cells of all.
proof fn lemma_row_width_prefix(gs: Seq<(u32, u32)>, k: int)
    requires
        0 <= k <= gs.len(),
    ensures
        row_width(gs.take(k)) <= row_width(gs),
    decreases gs.len(),
{
    if k < gs.len() {
        assert(gs.take(k) =~= gs.drop_last().take(k));
        lemma_row_width_prefix(gs.drop_last(), k);
    } else {
        assert(gs.take(k) =~= gs);
    }
}

/// The cells of a prefix one glyph longer end one cell further on.
proof fn lemma_row_width_step(gs: Seq<(u32, u32)>, k: int)
    requires
        0 <= k < gs.len(),
    ensures
        row_width(gs.take(k + 1)) == row_width(gs.take(k)) + gs[k].0 + 2 * ATLAS_PADDING,
{
    assert(gs.take(k + 1).drop_last() =~= gs.take(k));
}

/// The tallest glyph of a prefix one glyph longer.
proof fn lemma_max_height_step(gs: Seq<(u32, u32)>, k: int)
    requires
        0 <= k < gs.len(),
    ensures
        max_height(gs.take(k + 1)) == if max_height(gs.take(k)) >= gs[k].1 {
            max_height(gs.take(k))
        } else {
            gs[k].1 as nat
        },
{
    assert(gs.take(k + 1).drop_last() =~= gs.take(k));
}

/// Where the glyphs go in an atlas and how large it is.
pub struct AtlasLayout {
    /// Atlas width in pixels.
    pub width: u32,
    /// Atlas height in pixels.
    pub height: u32,
    /// Top-left pixel of each glyph, in the order of the glyphs.
    pub origins: Vec<(u32, u32)>,
}

/// Lays out glyphs of the given sizes (`(width, height)`) in an atlas: glyph
/// `k` starts at `glyph_x` in the row of cells, below the top border.
pub fn layout_atlas(sizes: &[(u32, u32)]) -> (r: AtlasLayout)
    requires
        row_width(sizes@) <= u32::MAX,
        max_height(sizes@) + 2 * ATLAS_PADDING <= u32::MAX,
    ensures
        r.width == atlas_width(sizes@),
        r.height == atlas_height(sizes@),
        r.origins@.len() == sizes@.len(),
        forall|k: int|
            0 <= k < sizes@.len() ==> #[trigger] r.origins@[k] == (
                glyph_x(sizes@, k) as u32,
                ATLAS_PADDING,
            ),
{
    let ghost gs = sizes@;
    let mut origins: Vec<(u32, u32)> = Vec::new();
    let mut cursor: u32 = 0;
    let mut tallest: u32 = 0;
    let mut k: usize = 0;
    proof {
        assert(gs.take(0) =~= Seq::<(u32, u32)>::empty());
    }
    while k < sizes.len()
        invariant
            gs == sizes@,
            row_width(gs) <= u32::MAX,
            max_height(gs) + 2 * ATLAS_PADDING <= u32::MAX,
            k <= sizes.len(),
            cursor == row_width(gs.take(k as int)),
            tallest == max_height(gs.take(k as int)),
            origins@.len() == k,
            forall|j: int|
                0 <= j < k ==> #[trigger] origins@[j] == (glyph_x(gs, j) as u32, ATLAS_PADDING),
        decreases sizes.len() - k,
    {
        let (w, h) = sizes[k];
        proof {
            lemma_row_width_step(gs, k as int);
            lemma_row_width_prefix(gs, k as int + 1);
            lemma_max_height_step(gs, k as int);
        }
        origins.push((cursor + ATLAS_PADDING, ATLAS_PADDING));
        cursor = cursor + w + 2 * ATLAS_PADDING;
        if h > tallest {
            tallest = h;
        }
        k += 1;
    }
    proof {
        assert(gs.take(k as int) =~= gs);
    }
    let width = if cursor == 0 {
        1
    } else {
        cursor
    };
    let height = if tallest == 0 {
        1
    } else {
        tallest
    } + 2 * ATLAS_PADDING;
    AtlasLayout { width, height, origins }
}

/// A rasterized glyph: `height` rows of `width` coverage bytes.
pub struct GlyphBitmap {
    /// Width in pixels.
    pub width: u32,
    /// Height in pixels.
    pub height: u32,
    /// Coverage, row after row.
    pub bitmap: Vec<u8>,
}

/// The glyph's bitmap holds all its pixels.
pub open spec fn well_sized(g: GlyphBitmap) -> bool {
    g.bitmap@.len() >= g.width * g.height
}

/// The sizes (`(width, height)`) of some glyphs.
pub open spec fn sizes_of(gs: Seq<GlyphBitmap>) -> Seq<(u32, u32)> {
    gs.map_values(|g: GlyphBitmap| (g.width, g.height))
}

/// Row `y` of the atlas across the glyph's own columns: its bitmap row
/// `y - ATLAS_PADDING` where the glyph reaches, empty pixels above and below.
pub open spec fn glyph_row(g: GlyphBitmap, y: int) -> Seq<u8> {
    if ATLAS_PADDING <= y < ATLAS_PADDING + g.height {
        g.bitmap@.subrange((y - ATLAS_PADDING) * g.width, (y - ATLAS_PADDING) * g.width + g.width)
    } else {
        Seq::new(g.width as nat, |i: int| 0u8)
    }
}

/// The empty pixels on either side of a glyph.
pub open spec fn border() -> Seq<u8> {
    seq![0u8, 0u8]
}

/// Row `y` of the atlas across the cells of some glyphs, side by side.
pub open spec fn cells_row(gs: Seq<GlyphBitmap>, y: int) -> Seq<u8>
    decreases gs.len(),
{
    if gs.len() == 0 {
        Seq::empty()
    } else {
        cells_row(gs.drop_last(), y) + border() + glyph_row(gs.last(), y) + border()
    }
}

/// Row `y` of the atlas: the cells of the glyphs, or one empty pixel where
/// there is no glyph.
pub open spec fn atlas_line(gs: Seq<GlyphBitmap>, y: int) -> Seq<u8> {
    if gs.len() == 0 {
        seq![0u8]
    } else {
        cells_row(gs, y)
    }
}

/// Row `y` of a row-major image `w` pixels wide.
pub open spec fn line_of(pixels: Seq<u8>, w: int, y: int) -> Seq<u8> {
    pixels.subrange(y * w, y * w + w)
}

/// A row of cells is as wide as the cells.
proof fn lemma_cells_row_len(gs: Seq<GlyphBitmap>, y: int)
    requires
        forall|k: int| 0 <= k < gs.len() ==> well_sized(#[trigger] gs[k]),
    ensures
        cells_row(gs, y).len() == row_width(sizes_of(gs)),
    decreases gs.len(),
{
    if gs.len() > 0 {
        let d = gs.drop_last();
        assert forall|k: int| 0 <= k < d.len() implies well_sized(#[trigger] d[k]) by {
            assert(d[k] == gs[k]);
        }
        lemma_cells_row_len(d, y);
        assert(sizes_of(gs).drop_last() =~= sizes_of(d));
        let g = gs.last();
        assert(well_sized(gs[gs.len() - 1]));
        if ATLAS_PADDING <= y < ATLAS_PADDING + g.height {
            let r = y - ATLAS_PADDING;
            assert(r * g.width + g.width <= g.width * g.height) by (nonlinear_arith)
                requires
                    0 <= r < g.height,
            ;
        }
    }
}

/// The pixels of the atlas for the given glyphs, row after row: each glyph's
/// bitmap in its cell, every other pixel empty.
pub fn fill_atlas(glyphs: &[GlyphBitmap]) -> (pixels: Vec<u8>)
    requires
        forall|k: int| 0 <= k < glyphs@.len() ==> well_sized(#[trigger] glyphs@[k]),
        row_width(sizes_of(glyphs@)) <= u32::MAX,
        max_height(sizes_of(glyphs@)) + 2 * ATLAS_PADDING <= u32::MAX,
        atlas_width(sizes_of(glyphs@)) * atlas_height(sizes_of(glyphs@)) <= u32::MAX,
    ensures
        pixels@.len() == atlas_width(sizes_of(glyphs@)) * atlas_height(sizes_of(glyphs@)),
        forall|y: int|
            0 <= y < atlas_height(sizes_of(glyphs@)) ==> #[trigger] line_of(
                pixels@,
                atlas_width(sizes_of(glyphs@)) as int,
                y,
            ) == atlas_line(glyphs@, y),
{
    let ghost gs = glyphs@;
    let mut sizes: Vec<(u32, u32)> = Vec::new();
    let mut i: usize = 0;
    while i < glyphs.len()
        invariant
            gs == glyphs@,
            i <= glyphs.len(),
            sizes@ == sizes_of(gs).take(i as int),
        decreases glyphs.len() - i,
    {
        sizes.push((glyphs[i].width, glyphs[i].height));
        proof {
            assert(sizes@ =~= sizes_of(gs).take(i + 1));
        }
        i += 1;
    }
    proof {
        assert(sizes_of(gs).take(i as int) =~= sizes_of(gs));
    }
    let layout = layout_atlas(sizes.as_slice());
    let w = layout.width;
    let h = layout.height;
    proof {
        lemma_cells_row_len(gs, 0);
    }
    let mut out: Vec<u8> = Vec::new();
    let mut y: u32 = 0;
    while y < h
        invariant
            gs == glyphs@,
            forall|k: int| 0 <= k < gs.len() ==> well_sized(#[trigger] gs[k]),
            w == atlas_width(sizes_of(gs)),
            h == atlas_height(sizes_of(gs)),
            w * h <= u32::MAX,
            y <= h,
            out@.len() == y * w,
            forall|yy: int| 0 <= yy < y ==> #[trigger] line_of(out@, w as int, yy) == atlas_line(gs, yy),
        decreases h - y,
    {
        let ghost start = out@;
        if glyphs.len() == 0 {
            out.push(0u8);
        } else {
            let mut k: usize = 0;
            proof {
                assert(gs.take(0) =~= Seq::<GlyphBitmap>::empty());
                assert(out@ =~= start + cells_row(gs.take(0), y as int));
            }
            while k < glyphs.len()
                invariant
                    gs == glyphs@,
                    forall|j: int| 0 <= j < gs.len() ==> well_sized(#[trigger] gs[j]),
                    k <= glyphs.len(),
                    out@ == start + cells_row(gs.take(k as int), y as int),
                decreases glyphs.len() - k,
            {
                let g = &glyphs[k];
                assert(well_sized(gs[k as int]));
                let ghost before = out@;
                out.push(0u8);
                out.push(0u8);
                let ghost row = glyph_row(*g, y as int);
                let mut col: u32 = 0;
                let blen = g.bitmap.len();
                proof {
                    assert(out@ =~= before + border() + row.take(0));
                }
                while col < g.width
                    invariant
                        g.bitmap@.len() >= g.width * g.height,
                        blen == g.bitmap@.len(),
                        row == glyph_row(*g, y as int),
                        col <= g.width,
                        out@ == before + border() + row.take(col as int),
                    decreases g.width - col,
                {
                    let v = if y >= ATLAS_PADDING && y - ATLAS_PADDING < g.height {
                        let r = y - ATLAS_PADDING;
                        proof {
                            assert(r * g.width + col < g.width * g.height) by (nonlinear_arith)
                                requires
                                    r < g.height,
                                    col < g.width,
                            ;
                        }
                        g.bitmap[(r as usize) * (g.width as usize) + (col as usize)]
                    } else {
                        0u8
                    };
                    proof {
                        if ATLAS_PADDING <= y && y < ATLAS_PADDING + g.height {
                            let r = y - ATLAS_PADDING;
                            assert(r * g.width + g.width <= g.width * g.height) by (nonlinear_arith)
                                requires
                                    r < g.height,
                            ;
                        }
                        assert(v == row[col as int]);
                    }
                    out.push(v);
                    col += 1;
                    proof {
                        assert(out@ =~= before + border() + row.take(col as int));
                    }
                }
                out.push(0u8);
                out.push(0u8);
                proof {
                    assert(row.take(col as int) =~= row) by {
                        if ATLAS_PADDING <= y && y < ATLAS_PADDING + g.height {
                            let r = y - ATLAS_PADDING;
                            assert(r * g.width + g.width <= g.width * g.height) by (nonlinear_arith)
                                requires
                                    r < g.height,
                            ;
                        }
                    }
                    assert(gs.take(k + 1).drop_last() =~= gs.take(k as int));
                    assert(out@ =~= start + cells_row(gs.take(k + 1), y as int));
                }
                k += 1;
            }
            proof {
                assert(gs.take(k as int) =~= gs);
            }
        }
        proof {
            lemma_cells_row_len(gs, y as int);
            assert(out@.len() == y * w + w);
            assert(out@.len() == (y + 1) * w) by (nonlinear_arith)
                requires
                    out@.len() == y * w + w,
            ;
            assert(line_of(out@, w as int, y as int) =~= atlas_line(gs, y as int));
            assert forall|yy: int| 0 <= yy < y + 1 implies #[trigger] line_of(out@, w as int, yy)
                == atlas_line(gs, yy) by {
                if yy < y {
                    assert(yy * w + w <= y * w) by (nonlinear_arith)
                        requires
                            yy < y,
                            w >= 0,
                    ;
                    assert(0 <= yy * w) by (nonlinear_arith)
                        requires
                            0 <= yy,
                            w >= 0,
                    ;
                    assert(line_of(out@, w as int, yy) =~= line_of(start, w as int, yy));
                }
            }
        }
        y += 1;
    }
    proof {
        assert(out@.len() == w * h) by (nonlinear_arith)
            requires
                out@.len() == y * w,
                y == h,
        ;
    }
    out
}

/// The tallest glyph is at least as tall as each glyph.
proof fn lemma_max_height_bound(gs: Seq<(u32, u32)>, k: int)
    requires
        0 <= k < gs.len(),
    ensures
        gs[k].1 <= max_height(gs),
    decreases gs.len(),
{
    if k < gs.len() - 1 {
        lemma_max_height_bound(gs.drop_last(), k);
    }
}

/// Glyph cells lie inside the atlas and do not overlap: each glyph with its
/// border fits the atlas width and height, and a later glyph starts after the
/// cell of an earlier one ends.
pub proof fn glyph_cells_fit_without_overlap(gs: Seq<(u32, u32)>, k: int, j: int)
    requires
        0 <= k < gs.len(),
    ensures
        glyph_x(gs, k) + gs[k].0 + ATLAS_PADDING <= atlas_width(gs),
        ATLAS_PADDING + gs[k].1 + ATLAS_PADDING <= atlas_height(gs),
        k < j < gs.len() ==> glyph_x(gs, k) + gs[k].0 + ATLAS_PADDING + ATLAS_PADDING <= glyph_x(
            gs,
            j,
        ),
{
    lemma_row_width_step(gs, k);
    lemma_row_width_prefix(gs, k + 1);
    lemma_max_height_bound(gs, k);
    if k < j < gs.len() {
        let t = gs.take(j);
        lemma_row_width_prefix(t, k + 1);
        assert(t.take(k + 1) =~= gs.take(k + 1));
    }
}

/// The row of cells of a prefix of the glyphs begins the row of cells of all.
proof fn lemma_cells_row_prefix(gs: Seq<GlyphBitmap>, m: int, y: int)
    requires
        0 <= m <= gs.len(),
    ensures
        cells_row(gs.take(m), y).is_prefix_of(cells_row(gs, y)),
    decreases gs.len(),
{
    if m < gs.len() {
        assert(gs.take(m) =~= gs.drop_last().take(m));
        lemma_cells_row_prefix(gs.drop_last(), m, y);
    } else {
        assert(gs.take(m) =~= gs);
    }
}

/// Each glyph shows in the atlas where its layout puts it: pixel `(col, row)`
/// of glyph `k` is pixel `(glyph_x + col, ATLAS_PADDING + row)` of the atlas.
pub proof fn atlas_shows_each_glyph_at_its_origin(gs: Seq<GlyphBitmap>, k: int, col: int, row: int)
    requires
        forall|i: int| 0 <= i < gs.len() ==> well_sized(#[trigger] gs[i]),
        0 <= k < gs.len(),
        0 <= col < gs[k].width,
        0 <= row < gs[k].height,
    ensures
        glyph_x(sizes_of(gs), k) + col < atlas_width(sizes_of(gs)),
        ATLAS_PADDING + row < atlas_height(sizes_of(gs)),
        atlas_line(gs, ATLAS_PADDING + row)[glyph_x(sizes_of(gs), k) + col] == gs[k].bitmap@[row
            * gs[k].width + col],
{
    let y = ATLAS_PADDING + row;
    let g = gs[k];
    glyph_cells_fit_without_overlap(sizes_of(gs), k, k);
    let p = gs.take(k + 1);
    assert forall|i: int| 0 <= i < p.len() implies well_sized(#[trigger] p[i]) by {
        assert(p[i] == gs[i]);
    }
    lemma_cells_row_prefix(gs, k + 1, y);
    assert(p.drop_last() =~= gs.take(k));
    lemma_cells_row_len(gs.take(k), y);
    assert(sizes_of(gs.take(k)) =~= sizes_of(gs).take(k));
    assert(row * g.width + g.width <= g.width * g.height) by (nonlinear_arith)
        requires
            row < g.height,
    ;
    let before = cells_row(gs.take(k), y);
    assert(cells_row(p, y) == before + border() + glyph_row(g, y) + border());
    assert(cells_row(p, y)[before.len() + 2 + col] == glyph_row(g, y)[col]);
}

} // verus!
