//! The pixel buffer that shapes are drawn on, and what a drawing does to it.

use vstd::prelude::*;
use raster::{Color, Image};

verus! {

#[verifier::external_type_specification]
pub struct ExImage(raster::Image);

#[verifier::external_type_specification]
pub struct ExColor(raster::Color);

/// A surface that can show a colored pixel at a position.
pub trait Displayable {
    fn display(&mut self, x: i32, y: i32, color: Color);
}

/// An image whose byte buffer holds exactly four channels for each pixel,
/// and whose byte offsets fit the `i32` arithmetic of `Image::set_pixel`.
pub open spec fn canvas_ok(img: Image) -> bool {
    &&& 0 <= img.width
    &&& 0 <= img.height
    &&& 4 * img.width * img.height <= i32::MAX
    &&& img.bytes@.len() == 4 * img.width * img.height
}

pub open spec fn in_bounds(img: Image, x: int, y: int) -> bool {
    0 <= x < img.width && 0 <= y < img.height
}

/// Byte offset of the first channel of pixel `(x, y)`.
pub open spec fn offset(img: Image, x: int, y: int) -> int {
    4 * (y * img.width + x)
}

/// The four channels stored for pixel `(x, y)`.
pub open spec fn pixel_of(img: Image, x: int, y: int) -> (u8, u8, u8, u8) {
    let s = offset(img, x, y);
    (img.bytes@[s], img.bytes@[s + 1], img.bytes@[s + 2], img.bytes@[s + 3])
}

pub open spec fn rgba(c: Color) -> (u8, u8, u8, u8) {
    (c.r, c.g, c.b, c.a)
}

/// `after` is `before` with every pixel of `s` that lies inside the image set
/// to `c`, and every other pixel unchanged. Points of `s` outside the image
/// leave no trace.
pub open spec fn painted(before: Image, after: Image, s: Set<(int, int)>, c: Color) -> bool {
    &&& after.width == before.width
    &&& after.height == before.height
    &&& after.bytes@.len() == before.bytes@.len()
    &&& forall|x: int, y: int|
        in_bounds(before, x, y) ==> #[trigger] pixel_of(after, x, y) == if s.contains((x, y)) {
            rgba(c)
        } else {
            pixel_of(before, x, y)
        }
}

/// Relies on raster::Image::set_pixel: for a pixel inside the image it stores
/// the four channels of `color` at byte offset `4 * (y * width + x)`, changes
/// no other byte, and leaves `width` and `height` alone.
#[verifier::external_body]
fn store_pixel(image: &mut Image, x: i32, y: i32, color: &Color)
    requires
        canvas_ok(*old(image)),
        in_bounds(*old(image), x as int, y as int),
    ensures
        final(image).width == old(image).width,
        final(image).height == old(image).height,
        final(image).bytes@ == old(image).bytes@.update(
            offset(*old(image), x as int, y as int),
            color.r,
        ).update(offset(*old(image), x as int, y as int) + 1, color.g).update(
            offset(*old(image), x as int, y as int) + 2,
            color.b,
        ).update(offset(*old(image), x as int, y as int) + 3, color.a),
{
    let _ = image.set_pixel(x, y, color.clone());
}

/// Two distinct pixels of a well-formed image own disjoint groups of four bytes.
proof fn lemma_offsets_apart(img: Image, x1: int, y1: int, x2: int, y2: int)
    requires
        canvas_ok(img),
        in_bounds(img, x1, y1),
        in_bounds(img, x2, y2),
        (x1, y1) != (x2, y2),
    ensures
        offset(img, x1, y1) + 4 <= offset(img, x2, y2) || offset(img, x2, y2) + 4 <= offset(
            img,
            x1,
            y1,
        ),
{
    let w = img.width as int;
    if y1 < y2 {
        assert(y1 * w + x1 < y2 * w + x2) by (nonlinear_arith)
            requires y1 < y2, 0 <= x1 < w, 0 <= x2,;
    } else if y2 < y1 {
        assert(y2 * w + x2 < y1 * w + x1) by (nonlinear_arith)
            requires y2 < y1, 0 <= x2 < w, 0 <= x1,;
    }
}

/// The four bytes of a pixel inside a well-formed image lie inside its buffer.
proof fn lemma_offset_inside(img: Image, x: int, y: int)
    requires
        canvas_ok(img),
        in_bounds(img, x, y),
    ensures
        0 <= offset(img, x, y),
        offset(img, x, y) + 4 <= img.bytes@.len(),
{
    let w = img.width as int;
    let h = img.height as int;
    assert(0 <= y * w + x < w * h) by (nonlinear_arith)
        requires 0 <= y < h, 0 <= x < w,;
    assert(4 * w * h == 4 * (w * h)) by (nonlinear_arith);
}

/// Sets pixel `(x, y)` to `color` when it lies inside the image, and leaves the
/// image untouched otherwise.
pub fn plot(image: &mut Image, x: i64, y: i64, color: &Color)
    requires
        canvas_ok(*old(image)),
    ensures
        canvas_ok(*final(image)),
        painted(*old(image), *final(image), set![(x as int, y as int)], *color),
{
    if 0 <= x && x < image.width as i64 && 0 <= y && y < image.height as i64 {
        let ghost before = *image;
        proof {
            lemma_offset_inside(before, x as int, y as int);
        }
        store_pixel(image, x as i32, y as i32, color);
        assert(image.bytes@.len() == before.bytes@.len());
        assert(canvas_ok(*image));
        assert forall|px: int, py: int| in_bounds(before, px, py) implies #[trigger] pixel_of(
            *image,
            px,
            py,
        ) == if set![(x as int, y as int)].contains((px, py)) {
            rgba(*color)
        } else {
            pixel_of(before, px, py)
        } by {
            lemma_offset_inside(before, px, py);
            lemma_offset_inside(before, x as int, y as int);
            if (px, py) != (x as int, y as int) {
                lemma_offsets_apart(before, px, py, x as int, y as int);
            }
        }
    } else {
        assert(painted(*image, *image, set![(x as int, y as int)], *color));
    }
}

/// Painting `s` and then `t` in one color paints their union.
pub proof fn lemma_painted_union(a: Image, b: Image, d: Image, s: Set<(int, int)>, t: Set<(int, int)>, c: Color)
    requires
        painted(a, b, s, c),
        painted(b, d, t, c),
    ensures
        painted(a, d, s.union(t), c),
{
    assert forall|x: int, y: int| in_bounds(a, x, y) implies #[trigger] pixel_of(d, x, y) == if s.union(t).contains((x, y)) {
        rgba(c)
    } else {
        pixel_of(a, x, y)
    } by {
        assert(in_bounds(b, x, y));
    }
}

/// Painting nothing leaves the image as it is.
pub proof fn lemma_painted_nothing(a: Image, c: Color)
    ensures
        painted(a, a, Set::empty(), c),
{
}

} // verus!
