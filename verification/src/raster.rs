//! Pixel buffers: RGBA byte layout, the software-drawn launcher's colours, and
//! the sizes that icons and wallpapers are rasterised at.
use vstd::prelude::*;

use crate::launcher::{button_background_spec, hovered_background_is_the_hover_variant, ButtonId};
use crate::tailwind::{named_classes_name_their_utilities, utility_of, UtilityView};
use crate::style::{
    CARD_CAMERA, CARD_CAMERA_HOVER, CARD_CONTACTS, CARD_CONTACTS_HOVER, CARD_SETTINGS,
    CARD_SETTINGS_HOVER, SHADOW,
};

verus! {

/// A request to rasterise the icon of an installed application.
pub struct IconLoadRequest {
    pub package_name: String,
}

/// The rasterised icon of an installed application: RGBA bytes, four to a pixel.
pub struct IconLoadResult {
    pub package_name: String,
    pub pixels: Vec<u8>,
    pub width: u32,
    pub height: u32,
}

/// The byte of `c` that starts at bit `shift`.
pub open spec fn byte_at(c: u32, shift: u32) -> u8 {
    ((c >> shift) & 0xff) as u8
}

/// The `k`-th byte (red, green, blue, alpha) of the RGBA form of the 0xRRGGBB
/// colour `color`, drawn opaque.
pub open spec fn rgba_channel(color: u32, k: int) -> u8 {
    if k == 0 {
        byte_at(color, 16)
    } else if k == 1 {
        byte_at(color, 8)
    } else if k == 2 {
        byte_at(color, 0)
    } else {
        0xff
    }
}

/// `bytes` after pixel number `p` is painted `color`, if all four of its bytes
/// are inside the buffer.
pub open spec fn with_pixel(bytes: Seq<u8>, p: int, color: u32) -> Seq<u8> {
    if 4 * p + 3 < bytes.len() {
        Seq::new(
            bytes.len(),
            |i: int|
                if 4 * p <= i < 4 * p + 4 {
                    rgba_channel(color, i - 4 * p)
                } else {
                    bytes[i]
                },
        )
    } else {
        bytes
    }
}

/// Paints pixel `(x, y)` of an RGBA buffer with the opaque colour `color`
/// (0xRRGGBB); a pixel that does not fit in the buffer is skipped.
pub fn write_pixel(bytes: &mut Vec<u8>, stride: usize, x: usize, y: usize, color: u32)
    ensures
        final(bytes)@ == with_pixel(old(bytes)@, y * stride + x, color),
{
    let ghost p = y * stride + x;
    let n = bytes.len();
    let row = match y.checked_mul(stride) {
        Some(r) => r,
        None => {
            assert(p >= usize::MAX) by (nonlinear_arith)
                requires
                    p == y * stride + x,
                    y * stride > usize::MAX,
            ;
            return ;
        },
    };
    let offset = match row.checked_add(x) {
        Some(o) => match o.checked_mul(4) {
            Some(o4) => o4,
            None => return ,
        },
        None => return ,
    };
    if offset >= n || n - offset <= 3 {
        return ;
    }
    let red = ((color >> 16u32) & 0xff) as u8;
    let green = ((color >> 8u32) & 0xff) as u8;
    let blue = (color & 0xff) as u8;
    assert(color & 0xff == (color >> 0u32) & 0xff) by (bit_vector);
    bytes.set(offset, red);
    bytes.set(offset + 1, green);
    bytes.set(offset + 2, blue);
    bytes.set(offset + 3, 0xff);
    assert(bytes@ =~= with_pixel(old(bytes)@, p, color));
}

/// `bytes` with its first `n` pixels painted `color`, as far as each fits.
pub open spec fn painted(bytes: Seq<u8>, n: int, color: u32) -> Seq<u8> {
    Seq::new(
        bytes.len(),
        |i: int|
            if i / 4 < n && (i / 4) * 4 + 3 < bytes.len() {
                rgba_channel(color, i % 4)
            } else {
                bytes[i]
            },
    )
}

/// Painting the next pixel extends the painted prefix by one.
proof fn lemma_paint_next(bytes: Seq<u8>, p: int, color: u32)
    requires
        0 <= p,
    ensures
        with_pixel(painted(bytes, p, color), p, color) == painted(bytes, p + 1, color),
{
    let a = with_pixel(painted(bytes, p, color), p, color);
    let b = painted(bytes, p + 1, color);
    assert forall|i: int| 0 <= i < bytes.len() implies a[i] == b[i] by {
        if 4 * p <= i < 4 * p + 4 {
            assert(i / 4 == p);
            assert(i % 4 == i - 4 * p);
        }
    }
    assert(a =~= b);
}

/// Fills the first `height` rows of `stride` pixels with the opaque colour
/// `color` (0xRRGGBB); pixels that do not fit in the buffer are skipped.
pub fn clear(bytes: &mut Vec<u8>, stride: usize, height: usize, color: u32)
    ensures
        final(bytes)@ == painted(old(bytes)@, stride * height, color),
{
    let ghost start = bytes@;
    let mut y: usize = 0;
    proof {
        assert(painted(start, 0, color) =~= start);
    }
    while y < height
        invariant
            y <= height,
            bytes@ == painted(start, y * stride, color),
        decreases height - y,
    {
        let mut x: usize = 0;
        while x < stride
            invariant
                x <= stride,
                y < height,
                bytes@ == painted(start, y * stride + x, color),
            decreases stride - x,
        {
            proof {
                assert(0 <= y * stride) by (nonlinear_arith);
                lemma_paint_next(start, y * stride + x, color);
                assert(painted(start, y * stride + x, color).len() == start.len());
            }
            write_pixel(bytes, stride, x, y, color);
            x += 1;
        }
        assert((y + 1) * stride == y * stride + stride) by (nonlinear_arith);
        y += 1;
    }
    assert(height * stride == stride * height) by (nonlinear_arith);
}

/// Byte `i` of the RGBA form of pixels given as packed ARGB integers (what
/// Android's `Bitmap.getPixels` hands out).
pub open spec fn argb_byte(pixels: Seq<i32>, i: int) -> u8 {
    let argb = pixels[i / 4] as u32;
    if i % 4 == 0 {
        byte_at(argb, 16)
    } else if i % 4 == 1 {
        byte_at(argb, 8)
    } else if i % 4 == 2 {
        byte_at(argb, 0)
    } else {
        byte_at(argb, 24)
    }
}

/// Converts packed ARGB pixels to RGBA bytes, four to a pixel.
pub fn argb_to_rgba(pixels: &[i32]) -> (rgba: Vec<u8>)
    requires
        pixels@.len() * 4 <= usize::MAX,
    ensures
        rgba@.len() == pixels@.len() * 4,
        forall|i: int| 0 <= i < rgba@.len() ==> #[trigger] rgba@[i] == argb_byte(pixels@, i),
{
    let mut out: Vec<u8> = Vec::new();
    let mut k: usize = 0;
    while k < pixels.len()
        invariant
            k <= pixels@.len(),
            pixels@.len() * 4 <= usize::MAX,
            out@.len() == k * 4,
            forall|i: int| 0 <= i < out@.len() ==> #[trigger] out@[i] == argb_byte(pixels@, i),
        decreases pixels.len() - k,
    {
        let argb = pixels[k] as u32;
        let alpha = ((argb >> 24u32) & 0xff) as u8;
        let red = ((argb >> 16u32) & 0xff) as u8;
        let green = ((argb >> 8u32) & 0xff) as u8;
        let blue = (argb & 0xff) as u8;
        assert(argb & 0xff == (argb >> 0u32) & 0xff) by (bit_vector);
        out.push(red);
        out.push(green);
        out.push(blue);
        out.push(alpha);
        proof {
            assert forall|i: int| 0 <= i < out@.len() implies #[trigger] out@[i] == argb_byte(
                pixels@,
                i,
            ) by {
                if i >= k * 4 {
                    assert(i / 4 == k as int);
                }
            }
        }
        k += 1;
    }
    out
}

/// The size an application icon is rasterised at: its own size, or 96 by 96
/// when either side is not positive.
pub fn icon_size(width: i32, height: i32) -> (size: (u32, u32))
    ensures
        width <= 0 || height <= 0 ==> size == (96u32, 96u32),
        width > 0 && height > 0 ==> size == (width as u32, height as u32),
{
    if width <= 0 || height <= 0 {
        (96, 96)
    } else {
        (width as u32, height as u32)
    }
}

/// `v` limited to `[lo, hi]`.
pub open spec fn clamp_spec(v: int, lo: int, hi: int) -> int {
    if v < lo {
        lo
    } else if v > hi {
        hi
    } else {
        v
    }
}

/// The size the wallpaper is rasterised at for a screen of `target_w` by
/// `target_h` pixels: half the screen, kept between 360 and 720 pixels wide and
/// between 640 and 1280 high; 540 by 960 where the screen size is unknown (zero).
pub fn wallpaper_size(target_w: u32, target_h: u32) -> (size: (u32, u32))
    ensures
        size.0 == (if target_w == 0 { 540 } else { clamp_spec((target_w / 2) as int, 360, 720) }),
        size.1 == (if target_h == 0 { 960 } else { clamp_spec((target_h / 2) as int, 640, 1280) }),
{
    let w = if target_w == 0 {
        540
    } else {
        clamp_u32(target_w / 2, 360, 720)
    };
    let h = if target_h == 0 {
        960
    } else {
        clamp_u32(target_h / 2, 640, 1280)
    };
    (w, h)
}

/// `v` limited to `[lo, hi]`.
fn clamp_u32(v: u32, lo: u32, hi: u32) -> (r: u32)
    requires
        lo <= hi,
    ensures
        r == clamp_spec(v as int, lo as int, hi as int),
{
    if v < lo {
        lo
    } else if v > hi {
        hi
    } else {
        v
    }
}

/// The card and shadow colours of a launcher button.
pub open spec fn button_colors_spec(button_id: ButtonId, hovered: bool) -> (u32, u32) {
    match button_id {
        ButtonId::Settings => (if hovered { CARD_SETTINGS_HOVER } else { CARD_SETTINGS }, SHADOW),
        ButtonId::Contacts => (if hovered { CARD_CONTACTS_HOVER } else { CARD_CONTACTS }, SHADOW),
        ButtonId::Camera => (if hovered { CARD_CAMERA_HOVER } else { CARD_CAMERA }, SHADOW),
    }
}

/// The card colour (lighter while hovered) and shadow colour of a launcher button.
pub fn button_colors(button_id: ButtonId, hovered: bool) -> (colors: (u32, u32))
    ensures
        colors == button_colors_spec(button_id, hovered),
{
    match (button_id, hovered) {
        (ButtonId::Settings, false) => (CARD_SETTINGS, SHADOW),
        (ButtonId::Settings, true) => (CARD_SETTINGS_HOVER, SHADOW),
        (ButtonId::Contacts, false) => (CARD_CONTACTS, SHADOW),
        (ButtonId::Contacts, true) => (CARD_CONTACTS_HOVER, SHADOW),
        (ButtonId::Camera, false) => (CARD_CAMERA, SHADOW),
        (ButtonId::Camera, true) => (CARD_CAMERA_HOVER, SHADOW),
    }
}


/// A button's card is painted in the colour that its background class names,
/// hovered or not; hovering changes the card colour, and every card casts the
/// same shadow.
pub proof fn button_colors_match_background_class(id: ButtonId, hovered: bool)
    ensures
        utility_of(button_background_spec(id, hovered)) == Some(
            UtilityView::Background(button_colors_spec(id, hovered).0),
        ),
        button_colors_spec(id, true).0 != button_colors_spec(id, false).0,
        button_colors_spec(id, hovered).1 == 0x000B_1116u32,
{
    named_classes_name_their_utilities();
    hovered_background_is_the_hover_variant(id);
}

} // verus!
