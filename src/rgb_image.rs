use vstd::prelude::*;

use crate::color::Color;
use crate::error::ThermoError;

verus! {

/// A row-major RGB image: three bytes per pixel, `width * height` pixels.
#[derive(Debug, Clone, PartialEq, Eq)]
pub struct RgbImage {
    pub width: u32,
    pub height: u32,
    pub data: Vec<u8>,
}

/// Byte offset of the first channel of pixel `(x, y)` in a row-major RGB
/// buffer of the given width.
pub open spec fn pixel_offset(width: int, x: int, y: int) -> int {
    (y * width + x) * 3
}

/// Whether `(qx, qy)` belongs to the plus-shaped marker centred at `(x, y)`:
/// the centre and two pixels on each side along both axes.
pub open spec fn on_marker(x: int, y: int, qx: int, qy: int) -> bool {
    (qy == y && x - 2 <= qx <= x + 2) || (qx == x && y - 2 <= qy <= y + 2)
}

/// What the Lanczos (a = 3) resampling of a row-major RGB buffer of
/// `width` by `height` pixels to `new_width` by `new_height` pixels gives.
pub uninterp spec fn lanczos3_resized(
    pixels: Seq<u8>,
    width: u32,
    height: u32,
    new_width: u32,
    new_height: u32,
) -> Seq<u8>;

pub open spec fn color_channel(c: Color, k: int) -> u8 {
    if k == 0 {
        c.r
    } else if k == 1 {
        c.g
    } else {
        c.b
    }
}

/// The colors laid out one after the other as red, green, blue bytes.
pub open spec fn rgb_bytes(colors: Seq<Color>) -> Seq<u8> {
    Seq::new(3 * colors.len(), |i: int| color_channel(colors[i / 3], i % 3))
}

/// The color whose channels are bytes `3 * p` to `3 * p + 2`.
pub open spec fn color_at(data: Seq<u8>, p: int) -> Color {
    Color { r: data[3 * p], g: data[3 * p + 1], b: data[3 * p + 2] }
}

impl RgbImage {
    pub open spec fn wf(&self) -> bool {
        self.data@.len() == self.width * self.height * 3
    }

    pub open spec fn in_bounds(&self, x: int, y: int) -> bool {
        0 <= x < self.width && 0 <= y < self.height
    }

    pub open spec fn pixel_at(&self, x: int, y: int) -> Color {
        color_at(self.data@, y * self.width + x)
    }

    /// Wraps a raw RGB buffer; fails unless it holds exactly three bytes for
    /// each of the `width * height` pixels.
    pub fn from_raw(width: u32, height: u32, data: Vec<u8>) -> (r: Result<Self, ThermoError>)
        ensures
            data@.len() == width * height * 3 <==> r is Ok,
            r is Ok ==> (r->Ok_0.width == width && r->Ok_0.height == height && r->Ok_0.data@
                == data@),
            r is Err ==> r == Err::<Self, ThermoError>(ThermoError::DimensionMismatch),
    {
        proof {
            lemma_u32_product(width, height);
        }
        if data.len() as u128 == (width as u128) * (height as u128) * 3 {
            Ok(RgbImage { width, height, data })
        } else {
            Err(ThermoError::DimensionMismatch)
        }
    }

    /// An image whose pixels, in scan order, are the given colors; fails
    /// unless there is exactly one color per pixel.
    pub fn build_image(colors: &Vec<Color>, width: u32, height: u32) -> (r: Result<Self, ThermoError>)
        requires
            width * height * 3 <= usize::MAX,
        ensures
            colors@.len() == width * height <==> r is Ok,
            r is Err ==> r == Err::<Self, ThermoError>(ThermoError::DimensionMismatch),
            r is Ok ==> {
                let img = r->Ok_0;
                &&& img.wf()
                &&& img.width == width
                &&& img.height == height
                &&& img.data@ == rgb_bytes(colors@)
                &&& forall|x: int, y: int|
                    img.in_bounds(x, y) ==> #[trigger] img.pixel_at(x, y) == colors@[y * width + x]
            },
    {
        proof {
            lemma_u32_product(width, height);
        }
        if colors.len() as u128 != (width as u128) * (height as u128) {
            return Err(ThermoError::DimensionMismatch);
        }
        let n = colors.len();
        let mut data: Vec<u8> = Vec::new();
        let mut i: usize = 0;
        while i < n
            invariant
                n == colors@.len(),
                n * 3 <= usize::MAX,
                i <= n,
                data@.len() == 3 * i,
                forall|p: int|
                    0 <= p < i ==> (#[trigger] data@[3 * p] == colors@[p].r && data@[3 * p + 1]
                        == colors@[p].g && data@[3 * p + 2] == colors@[p].b),
            decreases n - i,
        {
            let c = colors[i];
            let ghost before = data@;
            data.push(c.r);
            data.push(c.g);
            data.push(c.b);
            proof {
                assert(data@ == before + seq![c.r, c.g, c.b]);
                assert forall|p: int| 0 <= p < i + 1 implies (#[trigger] data@[3 * p] == colors@[p].r
                    && data@[3 * p + 1] == colors@[p].g && data@[3 * p + 2] == colors@[p].b) by {
                    if p < i {
                        assert(data@[3 * p] == before[3 * p]);
                        assert(data@[3 * p + 1] == before[3 * p + 1]);
                        assert(data@[3 * p + 2] == before[3 * p + 2]);
                    }
                }
            }
            i = i + 1;
        }
        assert(data@ =~= rgb_bytes(colors@)) by {
            assert forall|j: int| 0 <= j < 3 * n implies data@[j] == #[trigger] rgb_bytes(colors@)[j] by {
                let p = j / 3;
                assert(j == 3 * p + j % 3);
                assert(data@[3 * p] == colors@[p].r);
            }
        }
        let img = RgbImage { width, height, data };
        assert forall|x: int, y: int| img.in_bounds(x, y) implies #[trigger] img.pixel_at(x, y)
            == colors@[y * width + x] by {
            lemma_pixel_in_bounds(width as int, height as int, x, y);
            let p = y * width + x;
            assert(pixel_offset(width as int, x, y) == 3 * p);
        }
        Ok(img)
    }

    pub fn get_pixel(&self, x: u32, y: u32) -> (c: Color)
        requires
            self.wf(),
            self.in_bounds(x as int, y as int),
        ensures
            c == self.pixel_at(x as int, y as int),
    {
        let len = self.data.len();
        proof {
            lemma_pixel_in_bounds(self.width as int, self.height as int, x as int, y as int);
            assert(pixel_offset(self.width as int, x as int, y as int) + 3 <= len);
        }
        let i = ((y as usize) * (self.width as usize) + x as usize) * 3;
        Color { r: self.data[i], g: self.data[i + 1], b: self.data[i + 2] }
    }

    pub fn put_pixel(&mut self, x: u32, y: u32, color: Color)
        requires
            old(self).wf(),
            old(self).in_bounds(x as int, y as int),
        ensures
            final(self).wf(),
            final(self).width == old(self).width,
            final(self).height == old(self).height,
            forall|qx: int, qy: int|
                old(self).in_bounds(qx, qy) ==> #[trigger] final(self).pixel_at(qx, qy) == if qx
                    == x && qy == y {
                    color
                } else {
                    old(self).pixel_at(qx, qy)
                },
    {
        let len = self.data.len();
        proof {
            lemma_pixel_in_bounds(self.width as int, self.height as int, x as int, y as int);
            assert(pixel_offset(self.width as int, x as int, y as int) + 3 <= len);
        }
        let ghost before = *self;
        let i = ((y as usize) * (self.width as usize) + x as usize) * 3;
        self.data.set(i, color.r);
        self.data.set(i + 1, color.g);
        self.data.set(i + 2, color.b);
        proof {
            assert forall|qx: int, qy: int| before.in_bounds(qx, qy) implies #[trigger] self.pixel_at(
                qx,
                qy,
            ) == if qx == x && qy == y {
                color
            } else {
                before.pixel_at(qx, qy)
            } by {
                lemma_pixel_in_bounds(self.width as int, self.height as int, qx, qy);
                if qx != x || qy != y {
                    lemma_pixel_distinct(self.width as int, x as int, y as int, qx, qy);
                }
            }
        }
    }
}

proof fn lemma_u32_product(a: u32, b: u32)
    ensures
        0 <= a * b <= 0xffff_ffff * 0xffff_ffff,
{
    assert(0 <= a * b <= 0xffff_ffff * 0xffff_ffff) by (nonlinear_arith)
        requires
            a <= 0xffff_ffff,
            b <= 0xffff_ffff,
    ;
}

pub proof fn lemma_pixel_in_bounds(w: int, h: int, x: int, y: int)
    requires
        0 <= x < w,
        0 <= y < h,
    ensures
        0 <= y * w + x < w * h,
        0 <= pixel_offset(w, x, y),
        pixel_offset(w, x, y) + 3 <= w * h * 3,
{
    assert(0 <= y * w) by (nonlinear_arith)
        requires
            0 <= y,
            0 <= w,
    ;
    assert(y * w + x < w * h) by (nonlinear_arith)
        requires
            0 <= x < w,
            0 <= y < h,
    ;
}

proof fn lemma_pixel_distinct(w: int, x1: int, y1: int, x2: int, y2: int)
    requires
        0 <= x1 < w,
        0 <= x2 < w,
        0 <= y1,
        0 <= y2,
        x1 != x2 || y1 != y2,
    ensures
        y1 * w + x1 != y2 * w + x2,
{
    if y1 < y2 {
        assert(y1 * w + x1 < y2 * w + x2) by (nonlinear_arith)
            requires
                0 <= x1 < w,
                0 <= x2,
                y1 < y2,
        ;
    } else if y2 < y1 {
        assert(y2 * w + x2 < y1 * w + x1) by (nonlinear_arith)
            requires
                0 <= x2 < w,
                0 <= x1,
                y2 < y1,
        ;
    }
}

/// A scan-order pixel number names column `p % width` of row `p / width`.
pub proof fn lemma_scan_order(w: int, x: int, y: int)
    requires
        0 <= x < w,
        0 <= y,
    ensures
        (y * w + x) / w == y,
        (y * w + x) % w == x,
{
    vstd::arithmetic::div_mod::lemma_fundamental_div_mod_converse(y * w + x, w, y, x);
}

/// Color `p` of a buffer laid out by `rgb_bytes` is color `p` of the list.
pub proof fn lemma_rgb_bytes_color(colors: Seq<Color>, p: int)
    requires
        0 <= p < colors.len(),
    ensures
        color_at(rgb_bytes(colors), p) == colors[p],
{
    assert((3 * p) / 3 == p && (3 * p) % 3 == 0);
    assert((3 * p + 1) / 3 == p && (3 * p + 1) % 3 == 1);
    assert((3 * p + 2) / 3 == p && (3 * p + 2) % 3 == 2);
}

/// A scan-order pixel number below `rows * cols` lies in a row below `rows`.
pub proof fn lemma_row_of(k: int, rows: int, cols: int)
    requires
        0 <= k < rows * cols,
        cols > 0,
    ensures
        0 <= k / cols < rows,
        0 <= k % cols < cols,
{
    vstd::arithmetic::div_mod::lemma_fundamental_div_mod(k, cols);
    let q = k / cols;
    let r = k % cols;
    assert(0 <= q < rows) by (nonlinear_arith)
        requires
            k == cols * q + r,
            0 <= r < cols,
            0 <= k < rows * cols,
    ;
}

/// Sets pixel `(px, py)` when it lies inside the image; leaves the image as
/// it is otherwise.
fn put_pixel_if_inside(image: &mut RgbImage, px: i64, py: i64, color: Color)
    requires
        old(image).wf(),
    ensures
        final(image).wf(),
        final(image).width == old(image).width,
        final(image).height == old(image).height,
        forall|qx: int, qy: int|
            old(image).in_bounds(qx, qy) ==> #[trigger] final(image).pixel_at(qx, qy) == if qx
                == px && qy == py {
                color
            } else {
                old(image).pixel_at(qx, qy)
            },
{
    if 0 <= px && px < image.width as i64 && 0 <= py && py < image.height as i64 {
        image.put_pixel(px as u32, py as u32, color);
    }
}

/// Draws a plus-shaped marker centred at `(x, y)`: the centre and two pixels
/// on each side along both axes. Each of its pixels is written only where it
/// lies inside the image; every other pixel keeps its value.
pub fn draw_cross_into_image(x: u32, y: u32, color: Color, upscaled_image: &mut RgbImage)
    requires
        old(upscaled_image).wf(),
    ensures
        final(upscaled_image).wf(),
        final(upscaled_image).width == old(upscaled_image).width,
        final(upscaled_image).height == old(upscaled_image).height,
        forall|qx: int, qy: int|
            old(upscaled_image).in_bounds(qx, qy) ==> #[trigger] final(upscaled_image).pixel_at(
                qx,
                qy,
            ) == if on_marker(x as int, y as int, qx, qy) {
                color
            } else {
                old(upscaled_image).pixel_at(qx, qy)
            },
{
    let cx = x as i64;
    let cy = y as i64;
    put_pixel_if_inside(upscaled_image, cx - 2, cy, color);
    put_pixel_if_inside(upscaled_image, cx - 1, cy, color);
    put_pixel_if_inside(upscaled_image, cx, cy, color);
    put_pixel_if_inside(upscaled_image, cx + 1, cy, color);
    put_pixel_if_inside(upscaled_image, cx + 2, cy, color);
    put_pixel_if_inside(upscaled_image, cx, cy - 2, color);
    put_pixel_if_inside(upscaled_image, cx, cy - 1, color);
    put_pixel_if_inside(upscaled_image, cx, cy + 1, color);
    put_pixel_if_inside(upscaled_image, cx, cy + 2, color);
}

/// Relies on image::imageops::resize with the Lanczos3 filter: the result has
/// the requested dimensions, and it is a copy of the input when they are the
/// input's own.
#[verifier::external_body]
fn resize_lanczos3(img: &RgbImage, new_width: u32, new_height: u32) -> (r: RgbImage)
    requires
        img.wf(),
        img.width > 0,
        img.height > 0,
        new_width > 0,
        new_height > 0,
        new_width * new_height * 3 <= usize::MAX,
    ensures
        r.wf(),
        r.width == new_width,
        r.height == new_height,
        r.data@ == lanczos3_resized(img.data@, img.width, img.height, new_width, new_height),
        new_width == img.width && new_height == img.height ==> r.data@ == img.data@,
{
    let src = image::RgbImage::from_raw(img.width, img.height, img.data.clone()).unwrap();
    let out = image::imageops::resize(
        &src,
        new_width,
        new_height,
        image::imageops::FilterType::Lanczos3,
    );
    RgbImage { width: out.width(), height: out.height(), data: out.into_raw() }
}

/// Scales both dimensions by the integer `factor` with Lanczos (a = 3)
/// resampling. An image without pixels stays without pixels.
pub fn upscale(image: &RgbImage, factor: u32) -> (r: RgbImage)
    requires
        image.wf(),
        factor >= 1,
        image.width * factor <= u32::MAX,
        image.height * factor <= u32::MAX,
        (image.width * factor) * (image.height * factor) * 3 <= usize::MAX,
    ensures
        r.wf(),
        r.width == image.width * factor,
        r.height == image.height * factor,
        image.width > 0 && image.height > 0 ==> r.data@ == lanczos3_resized(
            image.data@,
            image.width,
            image.height,
            r.width,
            r.height,
        ),
        factor == 1 ==> r.data@ == image.data@,
{
    let new_width = image.width * factor;
    let new_height = image.height * factor;
    if image.width == 0 || image.height == 0 {
        proof {
            assert(new_width * new_height == 0) by (nonlinear_arith)
                requires
                    new_width == 0 || new_height == 0,
            ;
            assert(image.width * image.height == 0) by (nonlinear_arith)
                requires
                    image.width == 0 || image.height == 0,
            ;
        }
        return RgbImage { width: new_width, height: new_height, data: Vec::new() };
    }
    assert(new_width > 0 && new_height > 0) by (nonlinear_arith)
        requires
            new_width == image.width * factor,
            new_height == image.height * factor,
            image.width > 0,
            image.height > 0,
            factor >= 1,
    ;
    resize_lanczos3(image, new_width, new_height)
}

/// Relies on image::imageops::flip_horizontal: pixel `(x, y)` of the result is
/// pixel `(width - 1 - x, y)` of the input, with the dimensions kept.
#[verifier::external_body]
pub(crate) fn flip_horizontal(img: &RgbImage) -> (r: RgbImage)
    requires
        img.wf(),
    ensures
        r.wf(),
        r.width == img.width,
        r.height == img.height,
        forall|x: int, y: int|
            img.in_bounds(x, y) ==> #[trigger] r.pixel_at(x, y) == img.pixel_at(
                img.width - 1 - x,
                y,
            ),
{
    let src = image::RgbImage::from_raw(img.width, img.height, img.data.clone()).unwrap();
    let out = image::imageops::flip_horizontal(&src);
    RgbImage { width: out.width(), height: out.height(), data: out.into_raw() }
}

} // verus!
