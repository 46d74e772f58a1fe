//! The procedural placeholder renderer.
//!
//! When no real asset exists for a category, the service draws a stylized
//! face-like figure: a background and face palette keyed by the category
//! prefix, a centered face circle, two eyes, and — for one species — a mask
//! stripe across the face. The drawing is verified pixel by pixel over a
//! plain canvas; only the final PNG encoding calls outside code.

use vstd::prelude::*;
use vstd::arithmetic::div_mod::{lemma_mod_division_less_than_divisor, lemma_multiply_divide_lt};

verus! {

/// One pixel, in RGBA order.
#[derive(Clone, Copy, Debug, PartialEq, Eq, Structural)]
pub struct Rgba {
    pub r: u8,
    pub g: u8,
    pub b: u8,
    pub a: u8,
}

/// A plain raster: `width * height` pixels, row by row.
pub struct Canvas {
    pub width: usize,
    pub height: usize,
    pub pixels: Vec<Rgba>,
}

impl Canvas {
    /// The raster holds one pixel per coordinate, and the dimensions are
    /// small enough for index arithmetic.
    pub open spec fn wf(&self) -> bool {
        &&& 0 < self.width <= 16384
        &&& 0 < self.height <= 16384
        &&& self.pixels@.len() == self.width * self.height
    }
}

/// The point lies inside the circle around `(cx, cy)` with radius `rad`.
pub open spec fn in_circle_spec(cx: int, cy: int, rad: int, x: int, y: int) -> bool {
    (x - cx) * (x - cx) + (y - cy) * (y - cy) <= rad * rad
}

/// Does the point at `(x, y)` lie inside the circle around `(cx, cy)` with
/// radius `r`?
pub fn in_circle(cx: i32, cy: i32, r: i32, x: i32, y: i32) -> (res: bool)
    ensures
        res == in_circle_spec(cx as int, cy as int, r as int, x as int, y as int),
{
    let dx: i128 = x as i128 - cx as i128;
    let dy: i128 = y as i128 - cy as i128;
    let rr: i128 = r as i128;
    proof {
        assert(dx * dx < 0x4000_0000_0000_0000_0000 && dx * dx >= 0) by (nonlinear_arith)
            requires -0x1_0000_0000 <= dx <= 0x1_0000_0000;
        assert(dy * dy < 0x4000_0000_0000_0000_0000 && dy * dy >= 0) by (nonlinear_arith)
            requires -0x1_0000_0000 <= dy <= 0x1_0000_0000;
        assert(rr * rr < 0x4000_0000_0000_0000_0000 && rr * rr >= -0x4000_0000_0000_0000_0000)
            by (nonlinear_arith)
            requires -0x1_0000_0000 <= rr <= 0x1_0000_0000;
    }
    dx * dx + dy * dy <= rr * rr
}

/// A raster of this size filled with one color.
pub open spec fn filled(w: int, h: int, color: Rgba) -> Seq<Rgba> {
    Seq::new((w * h) as nat, |i: int| color)
}

/// The raster with the circle painted over it: every pixel whose coordinates
/// lie in the circle takes the color, the rest keep theirs.
pub open spec fn circle_painted(
    px: Seq<Rgba>,
    w: int,
    cx: int,
    cy: int,
    rad: int,
    color: Rgba,
) -> Seq<Rgba> {
    Seq::new(
        px.len(),
        |i: int|
            if in_circle_spec(cx, cy, rad, i % w, i / w) {
                color
            } else {
                px[i]
            },
    )
}

/// The pixel lies in the mask stripe: a band across the face, clipped to the
/// face circle.
pub open spec fn in_stripe(cx: int, cy: int, rad: int, x: int, y: int) -> bool {
    &&& cy - rad / 6 <= y <= cy + rad / 8
    &&& cx - rad / 2 <= x <= cx + rad / 2
    &&& in_circle_spec(cx, cy, rad, x, y)
}

/// The raster with the mask stripe painted over it.
pub open spec fn stripe_painted(
    px: Seq<Rgba>,
    w: int,
    cx: int,
    cy: int,
    rad: int,
    color: Rgba,
) -> Seq<Rgba> {
    Seq::new(
        px.len(),
        |i: int|
            if in_stripe(cx, cy, rad, i % w, i / w) {
                color
            } else {
                px[i]
            },
    )
}

/// A canvas of this size filled with one color.
pub fn canvas_new(width: usize, height: usize, color: Rgba) -> (c: Canvas)
    requires
        0 < width <= 16384,
        0 < height <= 16384,
    ensures
        c.wf(),
        c.width == width,
        c.height == height,
        c.pixels@ == filled(width as int, height as int, color),
{
    proof {
        assert((width as int) * (height as int) <= 16384 * 16384) by (nonlinear_arith)
            requires 0 <= width as int <= 16384 && 0 <= height as int <= 16384;
    }
    let total: usize = width * height;
    let mut pixels: Vec<Rgba> = Vec::new();
    let mut i: usize = 0;
    while i < total
        invariant
            total == width * height,
            i <= total,
            pixels@.len() == i,
            forall|j: int| 0 <= j < i ==> pixels@[j] == color,
        decreases total - i,
    {
        pixels.push(color);
        i = i + 1;
    }
    let c = Canvas { width, height, pixels };
    proof {
        assert(c.pixels@ =~= filled(width as int, height as int, color));
    }
    c
}

/// Paint a filled circle onto the canvas: every pixel inside the circle
/// takes the color, the rest stay.
pub fn draw_filled_circle(canvas: &mut Canvas, cx: i32, cy: i32, r: i32, color: Rgba)
    requires
        old(canvas).wf(),
    ensures
        final(canvas).wf(),
        final(canvas).width == old(canvas).width,
        final(canvas).height == old(canvas).height,
        final(canvas).pixels@ == circle_painted(
            old(canvas).pixels@,
            old(canvas).width as int,
            cx as int,
            cy as int,
            r as int,
            color,
        ),
{
    let w = canvas.width;
    let h = canvas.height;
    let total = canvas.pixels.len();
    let mut next: Vec<Rgba> = Vec::new();
    let ghost px = canvas.pixels@;
    let mut i: usize = 0;
    while i < total
        invariant
            canvas.pixels@ == px,
            px.len() == total,
            total == w * h,
            0 < w <= 16384,
            0 < h <= 16384,
            i <= total,
            next@.len() == i,
            forall|j: int|
                0 <= j < i ==> next@[j] == circle_painted(
                    px,
                    w as int,
                    cx as int,
                    cy as int,
                    r as int,
                    color,
                )[j],
        decreases total - i,
    {
        let x = i % w;
        let y = i / w;
        proof {
            lemma_mod_division_less_than_divisor(i as int, w as int);
            lemma_multiply_divide_lt(i as int, w as int, h as int);
        }
        if in_circle(cx, cy, r, x as i32, y as i32) {
            next.push(color);
        } else {
            next.push(canvas.pixels[i]);
        }
        i = i + 1;
    }
    canvas.pixels = next;
    proof {
        assert(canvas.pixels@ =~= circle_painted(
            px,
            w as int,
            cx as int,
            cy as int,
            r as int,
            color,
        ));
    }
}

/// Paint the mask stripe onto the canvas.
fn draw_mask_stripe(canvas: &mut Canvas, cx: i32, cy: i32, r: i32, color: Rgba)
    requires
        old(canvas).wf(),
        0 <= r,
    ensures
        final(canvas).wf(),
        final(canvas).width == old(canvas).width,
        final(canvas).height == old(canvas).height,
        final(canvas).pixels@ == stripe_painted(
            old(canvas).pixels@,
            old(canvas).width as int,
            cx as int,
            cy as int,
            r as int,
            color,
        ),
{
    let w = canvas.width;
    let h = canvas.height;
    let total = canvas.pixels.len();
    let mut next: Vec<Rgba> = Vec::new();
    let ghost px = canvas.pixels@;
    let mut i: usize = 0;
    while i < total
        invariant
            canvas.pixels@ == px,
            px.len() == total,
            total == w * h,
            0 < w <= 16384,
            0 < h <= 16384,
            0 <= r,
            i <= total,
            next@.len() == i,
            forall|j: int|
                0 <= j < i ==> next@[j] == stripe_painted(
                    px,
                    w as int,
                    cx as int,
                    cy as int,
                    r as int,
                    color,
                )[j],
        decreases total - i,
    {
        let x = i % w;
        let y = i / w;
        proof {
            lemma_mod_division_less_than_divisor(i as int, w as int);
            lemma_multiply_divide_lt(i as int, w as int, h as int);
        }
        let xi = x as i64;
        let yi = y as i64;
        let band = (cy as i64 - (r / 6) as i64) <= yi && yi <= (cy as i64 + (r / 8) as i64)
            && (cx as i64 - (r / 2) as i64) <= xi && xi <= (cx as i64 + (r / 2) as i64);
        if band && in_circle(cx, cy, r, x as i32, y as i32) {
            next.push(color);
        } else {
            next.push(canvas.pixels[i]);
        }
        i = i + 1;
    }
    canvas.pixels = next;
    proof {
        assert(canvas.pixels@ =~= stripe_painted(
            px,
            w as int,
            cx as int,
            cy as int,
            r as int,
            color,
        ));
    }
}

/// The string starts with the prefix (case-sensitive).
pub open spec fn has_prefix(s: Seq<char>, prefix: Seq<char>) -> bool {
    prefix.len() <= s.len() && s.subrange(0, prefix.len() as int) == prefix
}

/// Does the string start with the prefix?
fn str_has_prefix(s: &str, prefix: &str) -> (r: bool)
    ensures
        r == has_prefix(s@, prefix@),
{
    let n = s.unicode_len();
    let m = prefix.unicode_len();
    if m > n {
        return false;
    }
    let mut i: usize = 0;
    while i < m
        invariant
            n == s@.len(),
            m == prefix@.len(),
            m <= n,
            i <= m,
            forall|j: int| 0 <= j < i ==> s@[j] == prefix@[j],
        decreases m - i,
    {
        if s.get_char(i) != prefix.get_char(i) {
            proof {
                assert(s@.subrange(0, m as int)[i as int] != prefix@[i as int]);
            }
            return false;
        }
        i = i + 1;
    }
    proof {
        assert(s@.subrange(0, m as int) =~= prefix@);
    }
    true
}

/// The background color of a category's placeholder.
pub open spec fn bg_of(key: Seq<char>) -> Rgba {
    if has_prefix(key, "tanuki"@) {
        Rgba { r: 0xFF, g: 0xD7, b: 0x00, a: 0xFF }
    } else if has_prefix(key, "anaguma"@) {
        Rgba { r: 0xA9, g: 0xA9, b: 0xA9, a: 0xFF }
    } else if has_prefix(key, "hakubishin"@) {
        Rgba { r: 0x8B, g: 0x45, b: 0x13, a: 0xFF }
    } else {
        Rgba { r: 0xDD, g: 0xDD, b: 0xDD, a: 0xFF }
    }
}

/// The face color of a category's placeholder.
pub open spec fn face_of(key: Seq<char>) -> Rgba {
    if has_prefix(key, "tanuki"@) {
        Rgba { r: 0xFF, g: 0xF5, b: 0xE6, a: 0xFF }
    } else if has_prefix(key, "anaguma"@) {
        Rgba { r: 0xF5, g: 0xF5, b: 0xF5, a: 0xFF }
    } else if has_prefix(key, "hakubishin"@) {
        Rgba { r: 0xFF, g: 0xFF, b: 0xFF, a: 0xFF }
    } else {
        Rgba { r: 0xFF, g: 0xFF, b: 0xFF, a: 0xFF }
    }
}

pub open spec fn eye_color() -> Rgba {
    Rgba { r: 0, g: 0, b: 0, a: 0xFF }
}

pub open spec fn stripe_color() -> Rgba {
    Rgba { r: 0x80, g: 0x80, b: 0x80, a: 0xFF }
}

/// The placeholder raster of a category key: background, face circle, two
/// eyes, and the mask stripe for the masked species — 800 by 600, drawn in
/// that order.
pub open spec fn render_spec(key: Seq<char>) -> Seq<Rgba> {
    let base = filled(800, 600, bg_of(key));
    let with_face = circle_painted(base, 800, 400, 300, 200, face_of(key));
    let with_eye1 = circle_painted(with_face, 800, 334, 267, 20, eye_color());
    let with_eye2 = circle_painted(with_eye1, 800, 466, 267, 20, eye_color());
    if has_prefix(key, "hakubishin"@) {
        stripe_painted(with_eye2, 800, 400, 300, 200, stripe_color())
    } else {
        with_eye2
    }
}

/// Draw the placeholder figure of a category key onto a fresh 800 by 600
/// canvas.
pub fn generate_image(key: &str) -> (c: Canvas)
    ensures
        c.wf(),
        c.width == 800,
        c.height == 600,
        c.pixels@ == render_spec(key@),
{
    let width: usize = 800;
    let height: usize = 600;
    let bg = if str_has_prefix(key, "tanuki") {
        Rgba { r: 0xFF, g: 0xD7, b: 0x00, a: 0xFF }
    } else if str_has_prefix(key, "anaguma") {
        Rgba { r: 0xA9, g: 0xA9, b: 0xA9, a: 0xFF }
    } else if str_has_prefix(key, "hakubishin") {
        Rgba { r: 0x8B, g: 0x45, b: 0x13, a: 0xFF }
    } else {
        Rgba { r: 0xDD, g: 0xDD, b: 0xDD, a: 0xFF }
    };
    let face = if str_has_prefix(key, "tanuki") {
        Rgba { r: 0xFF, g: 0xF5, b: 0xE6, a: 0xFF }
    } else if str_has_prefix(key, "anaguma") {
        Rgba { r: 0xF5, g: 0xF5, b: 0xF5, a: 0xFF }
    } else if str_has_prefix(key, "hakubishin") {
        Rgba { r: 0xFF, g: 0xFF, b: 0xFF, a: 0xFF }
    } else {
        Rgba { r: 0xFF, g: 0xFF, b: 0xFF, a: 0xFF }
    };
    proof {
        assert(bg == bg_of(key@));
        assert(face == face_of(key@));
    }
    let mut canvas = canvas_new(width, height, bg);
    let cx: i32 = 400;
    let cy: i32 = 300;
    let r: i32 = 200;
    draw_filled_circle(&mut canvas, cx, cy, r, face);
    let eye = Rgba { r: 0, g: 0, b: 0, a: 0xFF };
    draw_filled_circle(&mut canvas, cx - r / 3, cy - r / 6, r / 10, eye);
    draw_filled_circle(&mut canvas, cx + r / 3, cy - r / 6, r / 10, eye);
    if str_has_prefix(key, "hakubishin") {
        let stripe = Rgba { r: 0x80, g: 0x80, b: 0x80, a: 0xFF };
        draw_mask_stripe(&mut canvas, cx, cy, r, stripe);
    }
    canvas
}

/// The RGBA bytes of a raster, pixel by pixel.
pub open spec fn flat_bytes(px: Seq<Rgba>) -> Seq<u8>
    decreases px.len(),
{
    if px.len() == 0 {
        Seq::empty()
    } else {
        flat_bytes(px.drop_last()) + seq![
            px.last().r,
            px.last().g,
            px.last().b,
            px.last().a,
        ]
    }
}

/// The RGBA bytes of a canvas, row by row.
fn flatten_pixels(px: &Vec<Rgba>) -> (r: Vec<u8>)
    ensures
        r@ == flat_bytes(px@),
{
    let mut out: Vec<u8> = Vec::new();
    let n = px.len();
    let mut i: usize = 0;
    while i < n
        invariant
            n == px@.len(),
            i <= n,
            out@ == flat_bytes(px@.take(i as int)),
        decreases n - i,
    {
        let p = px[i];
        out.push(p.r);
        out.push(p.g);
        out.push(p.b);
        out.push(p.a);
        proof {
            assert(px@.take(i + 1).drop_last() =~= px@.take(i as int));
            assert(px@.take(i + 1).last() == px@[i as int]);
            assert(out@ =~= flat_bytes(px@.take(i + 1)));
        }
        i = i + 1;
    }
    proof {
        assert(px@.take(n as int) =~= px@);
    }
    out
}

/// The PNG encoding of an RGBA raster with the given dimensions, or nothing
/// when the byte count does not match the dimensions. Encoding is
/// deterministic in the dimensions and bytes.
pub uninterp spec fn png_of(w: u32, h: u32, rgba: Seq<u8>) -> Option<Seq<u8>>;

/// Relies on `image::RgbaImage::from_raw` (fails exactly when the byte count
/// does not match the dimensions) and PNG encoding through
/// `DynamicImage::write_to`: both deterministic functions of the dimensions
/// and bytes.
#[verifier::external_body]
fn encode_png(w: u32, h: u32, rgba: Vec<u8>) -> (r: Option<Vec<u8>>)
    ensures
        r is Some <==> png_of(w, h, rgba@) is Some,
        r matches Some(v) ==> v@ == png_of(w, h, rgba@).unwrap(),
{
    let buf = match image::RgbaImage::from_raw(w, h, rgba) {
        Some(b) => b,
        None => return None,
    };
    let img = image::DynamicImage::ImageRgba8(buf);
    let mut out: Vec<u8> = Vec::new();
    match img.write_to(&mut std::io::Cursor::new(&mut out), image::ImageOutputFormat::Png) {
        Ok(()) => Some(out),
        Err(_) => None,
    }
}

/// The placeholder image of a category key, as PNG bytes.
pub fn generate_image_bytes(key: &str) -> (r: Result<Vec<u8>, ()>)
    ensures
        r is Ok <==> png_of(800, 600, flat_bytes(render_spec(key@))) is Some,
        r matches Ok(v) ==> v@ == png_of(800, 600, flat_bytes(render_spec(key@))).unwrap(),
{
    let canvas = generate_image(key);
    let rgba = flatten_pixels(&canvas.pixels);
    match encode_png(800, 600, rgba) {
        Some(v) => Ok(v),
        None => Err(()),
    }
}

} // verus!
