//! The integer part of signed distance fields for glyph atlases: padding a
//! coverage bitmap, and finding for each pixel the nearest pixel on the other
//! side of the glyph's edge.
//!
//! Turning those squared distances into the field's bytes takes a square root
//! and is left to the caller.
use vstd::prelude::*;

verus! {

/// The position of pixel `(x, y)` in a row-major image `w` pixels wide.
pub open spec fn idx(w: int, x: int, y: int) -> int {
    y * w + x
}

/// Pixels are numbered row after row: an earlier pixel has a smaller index.
proof fn lemma_idx_order(w: int, x1: int, y1: int, x2: int, y2: int)
    requires
        0 <= x1 < w,
        0 <= x2 < w,
        0 <= y1,
        y1 < y2 || (y1 == y2 && x1 < x2),
    ensures
        idx(w, x1, y1) < idx(w, x2, y2),
{
    if y1 < y2 {
        assert(y1 * w + w <= y2 * w) by (nonlinear_arith)
            requires
                y1 < y2,
                w >= 0,
        ;
    }
}

/// Every pixel of a `w` by `h` image has an index below `w * h`.
proof fn lemma_idx_bound(w: int, h: int, x: int, y: int)
    requires
        0 <= x < w,
        0 <= y < h,
    ensures
        0 <= idx(w, x, y) < w * h,
{
    assert(0 <= y * w + x < w * h) by (nonlinear_arith)
        requires
            0 <= x < w,
            0 <= y < h,
    ;
}

/// The value at `(px, py)` of `bitmap` (`width` by `height`) placed in the
/// middle of a zero border `spread` pixels wide.
pub open spec fn padded_at(
    bitmap: Seq<u8>,
    width: int,
    height: int,
    spread: int,
    px: int,
    py: int,
) -> u8 {
    if spread <= px < spread + width && spread <= py < spread + height {
        bitmap[idx(width, px - spread, py - spread)]
    } else {
        0
    }
}

/// Copies the `width` by `height` bitmap into the middle of a zero image that
/// is `spread` pixels larger on every side.
pub fn pad_bitmap(bitmap: &[u8], width: usize, height: usize, spread: usize) -> (padded: Vec<u8>)
    requires
        bitmap@.len() >= width * height,
        (width + 2 * spread) * (height + 2 * spread) <= usize::MAX,
    ensures
        padded@.len() == (width + 2 * spread) * (height + 2 * spread),
        forall|px: int, py: int|
            0 <= px < width + 2 * spread && 0 <= py < height + 2 * spread
                ==> #[trigger] padded@[idx(width + 2 * spread, px, py)] == padded_at(
                bitmap@,
                width as int,
                height as int,
                spread as int,
                px,
                py,
            ),
{
    assert(width + 2 * spread <= usize::MAX && height + 2 * spread <= usize::MAX) by (
    nonlinear_arith)
        requires
            (width + 2 * spread) * (height + 2 * spread) <= usize::MAX,
            width + 2 * spread >= 0,
            height + 2 * spread >= 0,
            width * height >= 0,
    {
        if width + 2 * spread > usize::MAX {
            assert(height + 2 * spread == 0 || (width + 2 * spread) * (height + 2 * spread)
                >= width + 2 * spread);
        }
        if height + 2 * spread > usize::MAX {
            assert(width + 2 * spread == 0 || (width + 2 * spread) * (height + 2 * spread)
                >= height + 2 * spread);
        }
    }
    let pw = width + 2 * spread;
    let ph = height + 2 * spread;
    let blen = bitmap.len();
    let mut out: Vec<u8> = Vec::new();
    let mut py: usize = 0;
    while py < ph
        invariant
            pw == width + 2 * spread,
            ph == height + 2 * spread,
            pw * ph <= usize::MAX,
            bitmap@.len() >= width * height,
            blen == bitmap@.len(),
            py <= ph,
            out@.len() == py * pw,
            forall|qx: int, qy: int|
                0 <= qx < pw && 0 <= qy < py ==> #[trigger] out@[idx(pw as int, qx, qy)]
                    == padded_at(bitmap@, width as int, height as int, spread as int, qx, qy),
        decreases ph - py,
    {
        let mut px: usize = 0;
        while px < pw
            invariant
                pw == width + 2 * spread,
                ph == height + 2 * spread,
                pw * ph <= usize::MAX,
                bitmap@.len() >= width * height,
                blen == bitmap@.len(),
                py < ph,
                px <= pw,
                out@.len() == py * pw + px,
                forall|qx: int, qy: int|
                    0 <= qx < pw && 0 <= qy <= py && (qy < py || qx < px)
                        ==> #[trigger] out@[idx(pw as int, qx, qy)] == padded_at(
                        bitmap@,
                        width as int,
                        height as int,
                        spread as int,
                        qx,
                        qy,
                    ),
            decreases pw - px,
        {
            let v = if spread <= px && px < spread + width && spread <= py && py < spread
                + height {
                proof {
                    lemma_idx_bound(width as int, height as int, px - spread, py - spread);
                    assert((py - spread) * width <= (py - spread) * width + (px - spread));
                    assert((py - spread) * width + (px - spread) < blen);
                }
                bitmap[(py - spread) * width + (px - spread)]
            } else {
                0u8
            };
            let ghost before = out@;
            out.push(v);
            proof {
                assert(idx(pw as int, px as int, py as int) == py * pw + px);
                assert forall|qx: int, qy: int|
                    0 <= qx < pw && 0 <= qy <= py && (qy < py || qx < px + 1) implies #[trigger] out@[idx(
                    pw as int,
                    qx,
                    qy,
                )] == padded_at(bitmap@, width as int, height as int, spread as int, qx, qy) by {
                    if qy < py || qx < px {
                        lemma_idx_order(pw as int, qx, qy, px as int, py as int);
                        assert(0 <= idx(pw as int, qx, qy)) by (nonlinear_arith)
                            requires
                                0 <= qx,
                                0 <= qy,
                                0 <= pw,
                        ;
                        assert(out@[idx(pw as int, qx, qy)] == before[idx(pw as int, qx, qy)]);
                    }
                }
            }
            px += 1;
        }
        proof {
            assert((py + 1) * pw == py * pw + pw) by (nonlinear_arith);
        }
        py += 1;
    }
    assert(ph * pw == pw * ph) by (nonlinear_arith);
    out
}

/// Whether a coverage value counts as inside the glyph.
pub open spec fn is_inside(v: u8) -> bool {
    v > 127
}

/// The squared distance between pixels `(x, y)` and `(nx, ny)`.
pub open spec fn dist2(x: int, y: int, nx: int, ny: int) -> int {
    (nx - x) * (nx - x) + (ny - y) * (ny - y)
}

/// Whether `(nx, ny)` is a pixel of the `w` by `h` image `img` that lies at
/// most `s` pixels from `(x, y)` along each axis and on the other side of the
/// glyph's edge.
pub open spec fn edge_candidate(
    img: Seq<u8>,
    w: int,
    h: int,
    s: int,
    x: int,
    y: int,
    nx: int,
    ny: int,
) -> bool {
    &&& 0 <= nx < w
    &&& 0 <= ny < h
    &&& x - s <= nx <= x + s
    &&& y - s <= ny <= y + s
    &&& is_inside(img[idx(w, nx, ny)]) != is_inside(img[idx(w, x, y)])
}

/// `d` is the squared distance from `(x, y)` to its nearest edge candidate, or
/// `s * s` when no candidate is nearer.
pub open spec fn is_edge_distance(
    img: Seq<u8>,
    w: int,
    h: int,
    s: int,
    x: int,
    y: int,
    d: int,
) -> bool {
    &&& d <= s * s
    &&& forall|nx: int, ny: int|
        #[trigger] edge_candidate(img, w, h, s, x, y, nx, ny) ==> d <= dist2(x, y, nx, ny)
    &&& (d == s * s || exists|nx: int, ny: int|
        #[trigger] edge_candidate(img, w, h, s, x, y, nx, ny) && dist2(x, y, nx, ny) == d)
}

/// `|a - b|` for unsigned integers.
fn abs_diff(a: usize, b: usize) -> (r: u128)
    ensures
        r == if a >= b { a - b } else { b - a },
{
    if a >= b {
        (a - b) as u128
    } else {
        (b - a) as u128
    }
}

/// The squared distance from pixel `(x, y)` of the `w` by `h` image `img` to the
/// nearest pixel on the other side of the glyph's edge within `spread` pixels
/// along each axis, capped at `spread * spread`.
pub fn edge_distance_at(img: &[u8], w: usize, h: usize, spread: u32, x: usize, y: usize) -> (d: u64)
    requires
        img@.len() == w * h,
        x < w,
        y < h,
    ensures
        is_edge_distance(img@, w as int, h as int, spread as int, x as int, y as int, d as int),
{
    let ghost gs = spread as int;
    let s = spread as usize;
    let lo_y = if y >= s { y - s } else { 0 };
    let hi_y = if h - 1 - y <= s { h - 1 } else { y + s };
    let lo_x = if x >= s { x - s } else { 0 };
    let hi_x = if w - 1 - x <= s { w - 1 } else { x + s };
    let n = img.len();
    proof {
        lemma_idx_bound(w as int, h as int, x as int, y as int);
        assert(y * w <= y * w + x < n);
    }
    let inside = img[y * w + x] > 127;
    assert((spread as u64) * (spread as u64) <= u64::MAX) by (nonlinear_arith)
        requires
            spread <= 0xffff_ffffu32,
    ;
    let cap: u64 = (spread as u64) * (spread as u64);
    let mut m: u64 = cap;
    let mut ny: usize = lo_y;
    while ny <= hi_y
        invariant
            img@.len() == w * h,
            n == img@.len(),
            x < w,
            y < h,
            s == gs,
            gs == spread as int,
            lo_y <= ny <= hi_y + 1,
            hi_y < h,
            lo_x <= x <= hi_x < w,
            lo_x == (if x >= gs { x - gs } else { 0 }),
            hi_x == (if w - 1 - x <= gs { w - 1 } else { x + gs }),
            lo_y == (if y >= gs { y - gs } else { 0 }),
            hi_y == (if h - 1 - y <= gs { h - 1 } else { y + gs }),
            inside == is_inside(img@[idx(w as int, x as int, y as int)]),
            cap == gs * gs,
            m <= cap,
            forall|cx: int, cy: int|
                #[trigger] edge_candidate(img@, w as int, h as int, gs, x as int, y as int, cx, cy)
                    && cy < ny ==> m <= dist2(x as int, y as int, cx, cy),
            m == cap || exists|cx: int, cy: int|
                #[trigger] edge_candidate(img@, w as int, h as int, gs, x as int, y as int, cx, cy)
                    && cy < ny && dist2(x as int, y as int, cx, cy) == m,
        decreases hi_y + 1 - ny,
    {
        let mut nx: usize = lo_x;
        while nx <= hi_x
            invariant
                img@.len() == w * h,
                n == img@.len(),
                x < w,
                y < h,
                s == gs,
                gs == spread as int,
            gs == spread as int,
                lo_y <= ny <= hi_y,
                hi_y < h,
                lo_x <= nx <= hi_x + 1,
                lo_x <= x <= hi_x < w,
                lo_x == (if x >= gs { x - gs } else { 0 }),
            hi_x == (if w - 1 - x <= gs { w - 1 } else { x + gs }),
                lo_y == (if y >= gs { y - gs } else { 0 }),
            hi_y == (if h - 1 - y <= gs { h - 1 } else { y + gs }),
                inside == is_inside(img@[idx(w as int, x as int, y as int)]),
                cap == gs * gs,
                m <= cap,
                forall|cx: int, cy: int|
                    #[trigger] edge_candidate(img@, w as int, h as int, gs, x as int, y as int, cx, cy)
                        && (cy < ny || (cy == ny && cx < nx)) ==> m <= dist2(
                        x as int,
                        y as int,
                        cx,
                        cy,
                    ),
                m == cap || exists|cx: int, cy: int|
                    #[trigger] edge_candidate(img@, w as int, h as int, gs, x as int, y as int, cx, cy)
                        && (cy < ny || (cy == ny && cx < nx)) && dist2(x as int, y as int, cx, cy)
                        == m,
            decreases hi_x + 1 - nx,
        {
            proof {
                lemma_idx_bound(w as int, h as int, nx as int, ny as int);
                assert(ny * w <= ny * w + nx < n);
            }
            let n_inside = img[ny * w + nx] > 127;
            let ghost old_m = m;
            if n_inside != inside {
                let dx = abs_diff(nx, x);
                let dy = abs_diff(ny, y);
                proof {
                    assert(dx <= gs && dy <= gs);
                    assert(dx * dx <= gs * gs && dy * dy <= gs * gs) by (nonlinear_arith)
                        requires
                            0 <= dx <= gs,
                            0 <= dy <= gs,
                    ;
                    assert(gs * gs <= 0xffff_ffff * 0xffff_ffff) by (nonlinear_arith)
                        requires
                            0 <= gs <= 0xffff_ffff,
                    ;
                    assert(dx * dx == (nx - x) * (nx - x)) by (nonlinear_arith)
                        requires
                            dx == nx - x || dx == x - nx,
                    ;
                    assert(dy * dy == (ny - y) * (ny - y)) by (nonlinear_arith)
                        requires
                            dy == ny - y || dy == y - ny,
                    ;
                }
                let d2: u128 = dx * dx + dy * dy;
                if d2 < m as u128 {
                    m = d2 as u64;
                }
                proof {
                    assert(edge_candidate(
                        img@,
                        w as int,
                        h as int,
                        gs,
                        x as int,
                        y as int,
                        nx as int,
                        ny as int,
                    ));
                    assert(d2 == dist2(x as int, y as int, nx as int, ny as int));
                }
            } else {
                proof {
                    assert(!edge_candidate(
                        img@,
                        w as int,
                        h as int,
                        gs,
                        x as int,
                        y as int,
                        nx as int,
                        ny as int,
                    ));
                }
            }
            nx += 1;
        }
        ny += 1;
    }
    m
}

/// For each pixel of the `w` by `h` image `img`, in row-major order, the squared
/// distance to the nearest pixel on the other side of the glyph's edge within
/// `spread` pixels along each axis, capped at `spread * spread`.
pub fn edge_distances(img: &[u8], w: usize, h: usize, spread: u32) -> (d: Vec<u64>)
    requires
        img@.len() == w * h,
    ensures
        d@.len() == w * h,
        forall|x: int, y: int|
            0 <= x < w && 0 <= y < h ==> is_edge_distance(
                img@,
                w as int,
                h as int,
                spread as int,
                x,
                y,
                #[trigger] d@[idx(w as int, x, y)] as int,
            ),
{
    let mut out: Vec<u64> = Vec::new();
    let mut y: usize = 0;
    while y < h
        invariant
            img@.len() == w * h,
            y <= h,
            out@.len() == y * w,
            forall|qx: int, qy: int|
                0 <= qx < w && 0 <= qy < y ==> is_edge_distance(
                    img@,
                    w as int,
                    h as int,
                    spread as int,
                    qx,
                    qy,
                    #[trigger] out@[idx(w as int, qx, qy)] as int,
                ),
        decreases h - y,
    {
        let mut x: usize = 0;
        while x < w
            invariant
                img@.len() == w * h,
                y < h,
                x <= w,
                out@.len() == y * w + x,
                forall|qx: int, qy: int|
                    0 <= qx < w && 0 <= qy <= y && (qy < y || qx < x) ==> is_edge_distance(
                        img@,
                        w as int,
                        h as int,
                        spread as int,
                        qx,
                        qy,
                        #[trigger] out@[idx(w as int, qx, qy)] as int,
                    ),
            decreases w - x,
        {
            let d = edge_distance_at(img, w, h, spread, x, y);
            let ghost before = out@;
            out.push(d);
            proof {
                assert(idx(w as int, x as int, y as int) == y * w + x);
                assert forall|qx: int, qy: int|
                    0 <= qx < w && 0 <= qy <= y && (qy < y || qx < x + 1) implies is_edge_distance(
                    img@,
                    w as int,
                    h as int,
                    spread as int,
                    qx,
                    qy,
                    #[trigger] out@[idx(w as int, qx, qy)] as int,
                ) by {
                    if qy < y || qx < x {
                        lemma_idx_order(w as int, qx, qy, x as int, y as int);
                        assert(0 <= idx(w as int, qx, qy)) by (nonlinear_arith)
                            requires
                                0 <= qx,
                                0 <= qy,
                                0 <= w,
                        ;
                        assert(out@[idx(w as int, qx, qy)] == before[idx(w as int, qx, qy)]);
                    }
                }
            }
            x += 1;
        }
        proof {
            assert((y + 1) * w == y * w + w) by (nonlinear_arith);
        }
        y += 1;
    }
    assert(h * w == w * h) by (nonlinear_arith);
    out
}

} // verus!
