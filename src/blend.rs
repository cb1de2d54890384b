use vstd::prelude::*;

use crate::color::{Color, Fraction};
use crate::rgb_image::{color_at, RgbImage};
use crate::thermo_image_processing::BlendMode;

verus! {

/// A hundred times the luminance of a color: `30 R + 59 G + 11 B`.
pub open spec fn luminance100(c: Color) -> int {
    30 * c.r + 59 * c.g + 11 * c.b
}

/// One output channel: the background channel weighted by `alpha` plus the
/// luminance weighted by `1 - alpha`, rounded down.
pub open spec fn blend_channel(bg: u8, lum100: int, alpha: Fraction) -> u8 {
    ((bg * alpha.num * 100 + lum100 * (alpha.den - alpha.num)) / (100 * alpha.den as int)) as u8
}

/// The nearest-neighbour sample position along one axis: `floor(i / n * m)`.
pub open spec fn sample_index(i: int, n: int, m: int) -> int {
    (i * m) / n
}

/// Pixel `(x, y)` of the fusion of `fg` (as grayscale) and `bg` (resampled to
/// the foreground's size) with `alpha` as the background's weight.
pub open spec fn blend_pixel(fg: RgbImage, bg: RgbImage, alpha: Fraction, x: int, y: int) -> Color {
    let s = bg.pixel_at(
        sample_index(x, fg.width as int, bg.width as int),
        sample_index(y, fg.height as int, bg.height as int),
    );
    let lum = luminance100(fg.pixel_at(x, y));
    Color {
        r: blend_channel(s.r, lum, alpha),
        g: blend_channel(s.g, lum, alpha),
        b: blend_channel(s.b, lum, alpha),
    }
}

/// The gray whose three channels are `v`.
pub open spec fn gray(v: int) -> Color {
    Color { r: v as u8, g: v as u8, b: v as u8 }
}

proof fn lemma_sample_in_range(i: int, n: int, m: int)
    requires
        0 <= i < n,
        m > 0,
    ensures
        0 <= sample_index(i, n, m) < m,
{
    vstd::arithmetic::div_mod::lemma_fundamental_div_mod(i * m, n);
    let q = (i * m) / n;
    let r = (i * m) % n;
    assert(0 <= q < m) by (nonlinear_arith)
        requires
            i * m == n * q + r,
            0 <= r < n,
            0 <= i < n,
            m > 0,
    ;
}

fn blend_channel_exec(bg: u8, lum100: u32, alpha: Fraction) -> (r: u8)
    requires
        alpha.wf(),
        0 <= alpha.num <= alpha.den,
        lum100 <= 25500,
    ensures
        r == blend_channel(bg, lum100 as int, alpha),
{
    let num = alpha.num as u128;
    let den = alpha.den as u128;
    let b = bg as u128;
    let l = lum100 as u128;
    assert(b * num * 100 <= 25500 * num && l * (den - num) <= 25500 * (den - num)) by (nonlinear_arith)
        requires
            b <= 255,
            l <= 25500,
            num <= den,
    ;
    let total = b * num * 100 + l * (den - num);
    proof {
        let t = total as int;
        let m = 100 * den as int;
        let q = t / m;
        vstd::arithmetic::div_mod::lemma_fundamental_div_mod(t, m);
        assert(q <= 255) by (nonlinear_arith)
            requires
                t == m * q + t % m,
                0 <= t % m,
                t <= 25500 * den,
                m == 100 * den,
                den > 0,
        ;
    }
    (total / (100 * den)) as u8
}

/// Fuses `image1` (the visible-light foreground, taken as grayscale) with
/// `image2` (the thermal background, sampled at the nearest pixel): each
/// channel is `background * alpha + luminance * (1 - alpha)`, rounded down.
/// The result replaces `image1` and keeps its dimensions.
pub fn blend_images_of_different_sizes(
    image1: &mut RgbImage,
    image2: &RgbImage,
    foreground_alpha: Fraction,
)
    requires
        old(image1).wf(),
        image2.wf(),
        image2.width > 0 && image2.height > 0 || foreground_alpha.num == 0,
        foreground_alpha.wf(),
        0 <= foreground_alpha.num <= foreground_alpha.den,
    ensures
        final(image1).wf(),
        final(image1).width == old(image1).width,
        final(image1).height == old(image1).height,
        forall|x: int, y: int|
            old(image1).in_bounds(x, y) ==> #[trigger] final(image1).pixel_at(x, y) == blend_pixel(
                *old(image1),
                *image2,
                foreground_alpha,
                x,
                y,
            ),
{
    let w = image1.width;
    let h = image1.height;
    let n = image1.data.len() / 3;
    let ghost fg = *image1;
    let mut data: Vec<u8> = Vec::new();
    let mut p: usize = 0;
    while p < n
        invariant
            fg == *image1,
            fg.wf(),
            image2.wf(),
            image2.width > 0 && image2.height > 0 || foreground_alpha.num == 0,
            foreground_alpha.wf(),
            0 <= foreground_alpha.num <= foreground_alpha.den,
            w == fg.width,
            h == fg.height,
            n == w * h,
            n * 3 <= usize::MAX,
            p <= n,
            data@.len() == 3 * p,
            forall|q: int|
                0 <= q < p ==> #[trigger] color_at(data@, q) == blend_pixel(
                    fg,
                    *image2,
                    foreground_alpha,
                    q % (w as int),
                    q / (w as int),
                ),
        decreases n - p,
    {
        assert(w > 0) by (nonlinear_arith)
            requires
                p < n,
                n == w * h,
        ;
        proof {
            assert(h * w == w * h) by (nonlinear_arith);
            crate::rgb_image::lemma_row_of(p as int, h as int, w as int);
        }
        let x = (p % (w as usize)) as u32;
        let y = (p / (w as usize)) as u32;
        let s = if foreground_alpha.num == 0 {
            Color { r: 0, g: 0, b: 0 }
        } else {
            proof {
                lemma_sample_in_range(x as int, w as int, image2.width as int);
                lemma_sample_in_range(y as int, h as int, image2.height as int);
                assert(x * image2.width <= 0xffff_ffff * 0xffff_ffff) by (nonlinear_arith)
                    requires
                        x <= 0xffff_ffff,
                        image2.width <= 0xffff_ffff,
                ;
                assert(y * image2.height <= 0xffff_ffff * 0xffff_ffff) by (nonlinear_arith)
                    requires
                        y <= 0xffff_ffff,
                        image2.height <= 0xffff_ffff,
                ;
            }
            let sx = ((x as u64 * image2.width as u64) / w as u64) as u32;
            let sy = ((y as u64 * image2.height as u64) / h as u64) as u32;
            image2.get_pixel(sx, sy)
        };
        let f = image1.get_pixel(x, y);
        let lum = 30 * f.r as u32 + 59 * f.g as u32 + 11 * f.b as u32;
        let c = Color {
            r: blend_channel_exec(s.r, lum, foreground_alpha),
            g: blend_channel_exec(s.g, lum, foreground_alpha),
            b: blend_channel_exec(s.b, lum, foreground_alpha),
        };
        proof {
            let sp = image2.pixel_at(
                sample_index(x as int, w as int, image2.width as int),
                sample_index(y as int, h as int, image2.height as int),
            );
            if foreground_alpha.num == 0 {
                lemma_zero_weight_channel(s.r, sp.r, lum as int, foreground_alpha);
                lemma_zero_weight_channel(s.g, sp.g, lum as int, foreground_alpha);
                lemma_zero_weight_channel(s.b, sp.b, lum as int, foreground_alpha);
            }
        }
        crate::decode::push_color(&mut data, c);
        p = p + 1;
    }
    image1.data = data;
    proof {
        assert forall|x: int, y: int| fg.in_bounds(x, y) implies #[trigger] image1.pixel_at(x, y)
            == blend_pixel(fg, *image2, foreground_alpha, x, y) by {
            crate::rgb_image::lemma_pixel_in_bounds(w as int, h as int, x, y);
            crate::rgb_image::lemma_scan_order(w as int, x, y);
        }
    }
}

proof fn lemma_zero_weight_channel(b1: u8, b2: u8, lum100: int, alpha: Fraction)
    requires
        alpha.num == 0,
    ensures
        blend_channel(b1, lum100, alpha) == blend_channel(b2, lum100, alpha),
{
    assert(b1 * alpha.num * 100 == 0 && b2 * alpha.num * 100 == 0) by (nonlinear_arith)
        requires
            alpha.num == 0,
    ;
}

/// With no weight on the background, two backgrounds of any size and
/// content give the same fusion.
pub proof fn lemma_zero_weight_ignores_background(
    fg: RgbImage,
    bg1: RgbImage,
    bg2: RgbImage,
    den: i64,
    x: int,
    y: int,
)
    requires
        den > 0,
    ensures
        blend_pixel(fg, bg1, Fraction { num: 0, den: den }, x, y) == blend_pixel(
            fg,
            bg2,
            Fraction { num: 0, den: den },
            x,
            y,
        ),
{
    lemma_zero_weight_is_grayscale(fg, bg1, den, x, y);
    lemma_zero_weight_is_grayscale(fg, bg2, den, x, y);
}

/// With no weight on the background, the fusion is the foreground's
/// luminance as gray, whatever the background holds.
pub proof fn lemma_zero_weight_is_grayscale(fg: RgbImage, bg: RgbImage, den: i64, x: int, y: int)
    requires
        den > 0,
    ensures
        blend_pixel(fg, bg, Fraction { num: 0, den: den }, x, y) == gray(
            luminance100(fg.pixel_at(x, y)) / 100,
        ),
{
    let l = luminance100(fg.pixel_at(x, y));
    let d = den as int;
    assert(l * (d - 0) == (100 * d) * (l / 100) + (l % 100) * d) by (nonlinear_arith);
    vstd::arithmetic::div_mod::lemma_fundamental_div_mod(l, 100);
    assert forall|b: u8| #![trigger blend_channel(b, l, Fraction { num: 0, den: den })]
        blend_channel(b, l, Fraction { num: 0, den: den }) == (l / 100) as u8 by {
        assert(b * 0 * 100 + l * (d - 0) == l * d) by (nonlinear_arith);
        vstd::arithmetic::div_mod::lemma_fundamental_div_mod(l, 100);
        let q = l / 100;
        let r = l % 100;
        assert(l * d == (100 * d) * q + r * d) by (nonlinear_arith)
            requires
                l == 100 * q + r,
        ;
        assert(0 <= r * d < 100 * d) by (nonlinear_arith)
            requires
                0 <= r < 100,
                d > 0,
        ;
        vstd::arithmetic::div_mod::lemma_fundamental_div_mod_converse(l * d, 100 * d, q, r * d);
    }
}

/// The image shown for a frame: the fusion of the camera and thermal images,
/// the camera image alone, or the thermal image alone.
pub fn compose_display_image(
    mode: BlendMode,
    camera: RgbImage,
    thermal: RgbImage,
    foreground_alpha: Fraction,
) -> (r: RgbImage)
    requires
        camera.wf(),
        thermal.wf(),
        thermal.width > 0 && thermal.height > 0 || foreground_alpha.num == 0,
        foreground_alpha.wf(),
        0 <= foreground_alpha.num <= foreground_alpha.den,
    ensures
        r.wf(),
        mode == BlendMode::VisibleOnly ==> r == camera,
        mode == BlendMode::ThermalOnly ==> r == thermal,
        mode == BlendMode::Fused ==> r.width == camera.width && r.height == camera.height
            && forall|x: int, y: int|
            camera.in_bounds(x, y) ==> #[trigger] r.pixel_at(x, y) == blend_pixel(
                camera,
                thermal,
                foreground_alpha,
                x,
                y,
            ),
{
    match mode {
        BlendMode::Fused => {
            let mut fused = camera;
            blend_images_of_different_sizes(&mut fused, &thermal, foreground_alpha);
            fused
        },
        BlendMode::VisibleOnly => camera,
        BlendMode::ThermalOnly => thermal,
    }
}

} // verus!
