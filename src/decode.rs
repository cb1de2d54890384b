use vstd::prelude::*;

use crate::color::Color;
use crate::error::ThermoError;
use crate::rgb_image::{color_at, flip_horizontal, RgbImage};

verus! {

/// The error type of the bayer crate, carried as an opaque value.
#[verifier::external_type_specification]
#[verifier::external_body]
pub struct ExBayerError(bayer::BayerError);

/// `num / scale` held to `[0, 255]` and rounded down.
pub open spec fn clamp_scaled(num: int, scale: int) -> u8 {
    if num < 0 {
        0
    } else if num / scale > 255 {
        255
    } else {
        (num / scale) as u8
    }
}

/// `num / scale` held to `[0, 255]` and rounded down.
pub fn clamp_to_u8(num: i64, scale: i64) -> (r: u8)
    requires
        scale > 0,
    ensures
        r == clamp_scaled(num as int, scale as int),
{
    if num < 0 {
        0
    } else {
        let q = (num as u64) / (scale as u64);
        if q > 255 {
            255
        } else {
            q as u8
        }
    }
}

// ---------------------------------------------------------------------------
// 10-bit packed Bayer
/// Pixel `k` (of 0 to 3) of a packed group: its eight high bits `hi` and its
/// two low bits taken from the shared byte `lo`.
pub open spec fn unpack10(hi: u8, lo: u8, k: u8) -> u16 {
    ((hi as u16) << 2u16) | (((lo >> (2 * k) as u8) & 3u8) as u16)
}

/// A 10-bit value brought to eight bits: `value * 255 / 1024` rounded down.
pub open spec fn scale_10_to_8(v: u16) -> u8 {
    ((v as int * 255) / 1024) as u8
}

/// Number of bytes that `n` packed 10-bit pixels take: five for each group of
/// up to four.
pub open spec fn raw10_len(n: int) -> int {
    5 * ((n + 3) / 4)
}

/// The 8-bit mosaic of the first `n` pixels of a packed 10-bit buffer.
pub open spec fn mosaic_of(raw: Seq<u8>, n: int) -> Seq<u8> {
    Seq::new(
        n as nat,
        |p: int| scale_10_to_8(unpack10(raw[5 * (p / 4) + p % 4], raw[5 * (p / 4) + 4], (p % 4) as u8)),
    )
}

/// What linear demosaicing of an 8-bit mosaic with the GBRG color filter
/// pattern gives: an RGB raster, three bytes per pixel.
pub uninterp spec fn linear_demosaic_gbrg(mosaic: Seq<u8>, width: u32, height: u32) -> Seq<u8>;

/// Relies on bayer::run_demosaic with 8-bit samples, the GBRG color filter
/// pattern and linear interpolation, writing into a raster that
/// bayer::RasterMut::new lays over a buffer of three bytes per pixel. With at
/// least two columns and two rows, matching depths, and a mosaic of exactly
/// `width * height` bytes to read rows of `width` bytes from, it succeeds.
#[verifier::external_body]
fn demosaic_linear_gbrg(mosaic: &Vec<u8>, width: u32, height: u32) -> (r: Result<
    Vec<u8>,
    bayer::BayerError,
>)
    requires
        width >= 2,
        height >= 2,
        mosaic@.len() == width * height,
        width * height * 3 <= usize::MAX,
    ensures
        r is Ok,
        r is Ok ==> r->Ok_0@ == linear_demosaic_gbrg(mosaic@, width, height),
        r is Ok ==> r->Ok_0@.len() == width * height * 3,
{
    let mut out = vec![0u8; 3 * width as usize * height as usize];
    let res = {
        let mut dst = bayer::RasterMut::new(width as usize, height as usize, bayer::RasterDepth::Depth8, &mut out);
        bayer::run_demosaic(&mut mosaic.as_slice(), bayer::BayerDepth::Depth8, bayer::CFA::GBRG, bayer::Demosaic::Linear, &mut dst)
    };
    match res {
        Ok(()) => Ok(out),
        Err(e) => Err(e),
    }
}

fn unpack_pixel(raw: &[u8], p: usize) -> (r: u8)
    requires
        5 * (p / 4) + 4 < raw@.len(),
    ensures
        r == scale_10_to_8(unpack10(raw@[5 * (p / 4) + p % 4], raw@[5 * (p / 4) + 4], (p % 4) as u8)),
{
    let len = raw.len();
    assert(5 * (p / 4) + 4 < len);
    let g = 5 * (p / 4);
    let k = (p % 4) as u8;
    let hi = raw[g + k as usize];
    let lo = raw[g + 4];
    let v: u16 = ((hi as u16) << 2u16) | (((lo >> (2 * k)) & 3u8) as u16);
    assert(v <= 1023) by (bit_vector)
        requires
            v == ((hi as u16) << 2u16) | (((lo >> (2 * k)) & 3u8) as u16),
    ;
    ((v as u32 * 255) / 1024) as u8
}

/// Unpacks `pixel_count` pixels of a packed 10-bit buffer (five bytes for four
/// pixels: four high bytes, then one byte with two low bits for each) and
/// brings each to eight bits.
pub fn unpack_raw10(raw: &[u8], pixel_count: usize) -> (r: Vec<u8>)
    requires
        raw@.len() >= raw10_len(pixel_count as int),
    ensures
        r@ == mosaic_of(raw@, pixel_count as int),
{
    let mut mosaic: Vec<u8> = Vec::new();
    let mut p: usize = 0;
    while p < pixel_count
        invariant
            raw@.len() >= raw10_len(pixel_count as int),
            p <= pixel_count,
            mosaic@ == mosaic_of(raw@, pixel_count as int).take(p as int),
        decreases pixel_count - p,
    {
        assert(5 * (p / 4) + 4 < raw10_len(pixel_count as int));
        let v = unpack_pixel(raw, p);
        mosaic.push(v);
        assert(mosaic@ =~= mosaic_of(raw@, pixel_count as int).take(p + 1));
        p = p + 1;
    }
    assert(mosaic@ =~= mosaic_of(raw@, pixel_count as int));
    mosaic
}

/// Decodes a 10-bit packed Bayer frame of `shape = (width, height)` into RGB:
/// unpacks it to an 8-bit mosaic and demosaics that linearly with the GBRG
/// pattern. Fails when the buffer is too short for the frame, and when the
/// frame is narrower or lower than two pixels; succeeds otherwise.
pub fn sgrbg10p_to_rgb(raw_camera_buffer: &[u8], camera_image_shape: (u32, u32)) -> (r: Result<
    RgbImage,
    ThermoError,
>)
    requires
        camera_image_shape.0 * camera_image_shape.1 * 3 <= usize::MAX,
    ensures
        raw_camera_buffer@.len() < raw10_len(camera_image_shape.0 * camera_image_shape.1) ==> r
            == Err::<RgbImage, ThermoError>(ThermoError::BufferTooShort),
        raw_camera_buffer@.len() >= raw10_len(camera_image_shape.0 * camera_image_shape.1) && (
        camera_image_shape.0 < 2 || camera_image_shape.1 < 2) ==> r == Err::<RgbImage, ThermoError>(
            ThermoError::UnsupportedDimensions,
        ),
        raw_camera_buffer@.len() >= raw10_len(camera_image_shape.0 * camera_image_shape.1)
            && camera_image_shape.0 >= 2 && camera_image_shape.1 >= 2 ==> r is Ok,
        r is Ok ==> {
            let img = r->Ok_0;
            &&& img.wf()
            &&& img.width == camera_image_shape.0
            &&& img.height == camera_image_shape.1
            &&& img.data@ == linear_demosaic_gbrg(
                mosaic_of(raw_camera_buffer@, camera_image_shape.0 * camera_image_shape.1),
                camera_image_shape.0,
                camera_image_shape.1,
            )
        },
{
    let (width, height) = camera_image_shape;
    let n = width as usize * height as usize;
    if (raw_camera_buffer.len() as u128) < 5 * ((n as u128 + 3) / 4) {
        return Err(ThermoError::BufferTooShort);
    }
    if width < 2 || height < 2 {
        return Err(ThermoError::UnsupportedDimensions);
    }
    let mosaic = unpack_raw10(raw_camera_buffer, n);
    let data = demosaic_linear_gbrg(&mosaic, width, height).unwrap();
    Ok(RgbImage { width, height, data })
}

/// Turns a 10-bit packed Bayer camera frame of `shape = (width, height)` into
/// the visible-light image shown: decoded as `sgrbg10p_to_rgb` does, then
/// mirrored left to right. Fails, and succeeds, as that decoder does.
pub fn process_raw_camera_data(raw_camera_buffer: &[u8], camera_image_shape: (u32, u32)) -> (r:
    Result<RgbImage, ThermoError>)
    requires
        camera_image_shape.0 * camera_image_shape.1 * 3 <= usize::MAX,
    ensures
        raw_camera_buffer@.len() < raw10_len(camera_image_shape.0 * camera_image_shape.1) ==> r
            == Err::<RgbImage, ThermoError>(ThermoError::BufferTooShort),
        raw_camera_buffer@.len() >= raw10_len(camera_image_shape.0 * camera_image_shape.1) && (
        camera_image_shape.0 < 2 || camera_image_shape.1 < 2) ==> r == Err::<RgbImage, ThermoError>(
            ThermoError::UnsupportedDimensions,
        ),
        raw_camera_buffer@.len() >= raw10_len(camera_image_shape.0 * camera_image_shape.1)
            && camera_image_shape.0 >= 2 && camera_image_shape.1 >= 2 ==> r is Ok,
        r is Ok ==> {
            let img = r->Ok_0;
            let (w, h) = camera_image_shape;
            let decoded = linear_demosaic_gbrg(mosaic_of(raw_camera_buffer@, w * h), w, h);
            &&& img.wf()
            &&& img.width == w
            &&& img.height == h
            &&& forall|x: int, y: int|
                img.in_bounds(x, y) ==> #[trigger] img.pixel_at(x, y) == color_at(
                    decoded,
                    y * w + (w - 1 - x),
                )
        },
{
    match sgrbg10p_to_rgb(raw_camera_buffer, camera_image_shape) {
        Ok(img) => Ok(flip_horizontal(&img)),
        Err(e) => Err(e),
    }
}

// ---------------------------------------------------------------------------
// YUYV 4:2:2
/// Number of bytes that `n` YUYV pixels take: four for each pair, the last
/// pair counted whole.
pub open spec fn yuyv_len(n: int) -> int {
    4 * ((n + 1) / 2)
}

/// Pixel `p` of a YUYV buffer: its own luma, with the chroma that its pair of
/// pixels shares.
pub open spec fn yuyv_pixel(buf: Seq<u8>, p: int) -> Color {
    let base = 4 * (p / 2);
    let y = buf[base + 2 * (p % 2)] as int;
    let u = buf[base + 1] as int - 128;
    let v = buf[base + 3] as int - 128;
    Color {
        r: clamp_scaled(10000 * y + 14065 * v, 10000),
        g: clamp_scaled(10000 * y - 3455 * v - 7169 * v, 10000),
        b: clamp_scaled(10000 * y + 11790 * u, 10000),
    }
}

fn yuyv_pixel_exec(buf: &[u8], p: usize) -> (c: Color)
    requires
        4 * (p / 2) + 3 < buf@.len(),
    ensures
        c == yuyv_pixel(buf@, p as int),
{
    let len = buf.len();
    assert(4 * (p / 2) + 3 < len);
    let base = 4 * (p / 2);
    let y = buf[base + 2 * (p % 2)] as i64;
    let u = buf[base + 1] as i64 - 128;
    let v = buf[base + 3] as i64 - 128;
    Color {
        r: clamp_to_u8(10000 * y + 14065 * v, 10000),
        g: clamp_to_u8(10000 * y - 3455 * v - 7169 * v, 10000),
        b: clamp_to_u8(10000 * y + 11790 * u, 10000),
    }
}

/// Decodes a YUYV 4:2:2 frame of `yuyv_shape = (width, height)` into RGB:
/// each four bytes `Y0 U Y1 V` give two pixels that share `U` and `V`. Every
/// channel is held to `[0, 255]`. Fails when the buffer is too short for the
/// frame.
pub fn yuyv_to_rgb(yuyv_buffer: &[u8], yuyv_shape: (u32, u32)) -> (r: Result<RgbImage, ThermoError>)
    requires
        yuyv_shape.0 * yuyv_shape.1 * 3 <= usize::MAX,
    ensures
        yuyv_buffer@.len() < yuyv_len(yuyv_shape.0 * yuyv_shape.1) <==> r is Err,
        r is Err ==> r == Err::<RgbImage, ThermoError>(ThermoError::BufferTooShort),
        r is Ok ==> {
            let img = r->Ok_0;
            &&& img.wf()
            &&& img.width == yuyv_shape.0
            &&& img.height == yuyv_shape.1
            &&& forall|x: int, y: int|
                img.in_bounds(x, y) ==> #[trigger] img.pixel_at(x, y) == yuyv_pixel(
                    yuyv_buffer@,
                    y * yuyv_shape.0 + x,
                )
        },
{
    let (width, height) = yuyv_shape;
    let n = width as usize * height as usize;
    if (yuyv_buffer.len() as u128) < 4 * ((n as u128 + 1) / 2) {
        return Err(ThermoError::BufferTooShort);
    }
    let mut data: Vec<u8> = Vec::new();
    let mut p: usize = 0;
    while p < n
        invariant
            n == width * height,
            n * 3 <= usize::MAX,
            yuyv_buffer@.len() >= yuyv_len(n as int),
            p <= n,
            data@.len() == 3 * p,
            forall|q: int| 0 <= q < p ==> #[trigger] color_at(data@, q) == yuyv_pixel(yuyv_buffer@, q),
        decreases n - p,
    {
        let c = yuyv_pixel_exec(yuyv_buffer, p);
        push_color(&mut data, c);
        p = p + 1;
    }
    let img = RgbImage { width, height, data };
    proof {
        assert forall|x: int, y: int| img.in_bounds(x, y) implies #[trigger] img.pixel_at(x, y)
            == yuyv_pixel(yuyv_buffer@, y * width + x) by {
            crate::rgb_image::lemma_pixel_in_bounds(width as int, height as int, x, y);
        }
    }
    Ok(img)
}

// ---------------------------------------------------------------------------
// Planar YUV 4:2:0
/// Offset of the chroma sample that pixel `(x, y)` uses within a chroma plane.
pub open spec fn chroma_index(w: int, x: int, y: int) -> int {
    (y / 2) * (w / 2) + x / 2
}

/// Offset of the V plane: one and one eighth of the luma plane's size.
pub open spec fn v_plane_offset(w: int, h: int) -> int {
    w * h + (w * h) / 8
}

/// Number of bytes that decoding a planar YUV 4:2:0 frame reads: up to the
/// chroma sample of its last pixel in the V plane.
pub open spec fn yuv420_read_len(w: int, h: int) -> int {
    if w == 0 || h == 0 {
        0
    } else {
        v_plane_offset(w, h) + chroma_index(w, w - 1, h - 1) + 1
    }
}

/// Size of the three planes of a YUV 4:2:0 frame: the luma plane and two
/// chroma planes of `(w / 2) * (h / 2)` bytes each.
pub open spec fn yuv420_planes_len(w: int, h: int) -> int {
    w * h + 2 * ((w / 2) * (h / 2))
}

/// Number of bytes that a planar YUV 4:2:0 frame needs: its three planes,
/// and at least every byte that decoding reads.
pub open spec fn yuv420_len(w: int, h: int) -> int {
    if yuv420_planes_len(w, h) >= yuv420_read_len(w, h) {
        yuv420_planes_len(w, h)
    } else {
        yuv420_read_len(w, h)
    }
}

/// Pixel `(x, y)` of a planar YUV 4:2:0 frame of width `w` and height `h`.
pub open spec fn yuv420_pixel(buf: Seq<u8>, w: int, h: int, x: int, y: int) -> Color {
    let c = chroma_index(w, x, y);
    let l = buf[y * w + x] as int;
    let u = buf[w * h + c] as int - 128;
    let v = buf[v_plane_offset(w, h) + c] as int - 128;
    Color {
        r: clamp_scaled(1000 * l + 1402 * v, 1000),
        g: clamp_scaled(1000 * l - 344 * u - 714 * v, 1000),
        b: clamp_scaled(1000 * l + 1772 * u, 1000),
    }
}

proof fn lemma_yuv420_indices(w: int, h: int, x: int, y: int)
    requires
        0 <= x < w,
        0 <= y < h,
    ensures
        0 <= y * w + x < w * h,
        0 <= chroma_index(w, x, y) <= chroma_index(w, w - 1, h - 1),
        chroma_index(w, x, y) <= y * w + x,
{
    crate::rgb_image::lemma_pixel_in_bounds(w, h, x, y);
    vstd::arithmetic::div_mod::lemma_div_is_ordered(y, h - 1, 2);
    vstd::arithmetic::div_mod::lemma_div_is_ordered(x, w - 1, 2);
    let a = y / 2;
    let b = (h - 1) / 2;
    let k = w / 2;
    assert(0 <= a * k <= b * k) by (nonlinear_arith)
        requires
            0 <= a <= b,
            0 <= k,
    ;
    assert(a * k <= y * w) by (nonlinear_arith)
        requires
            0 <= a <= y,
            0 <= k <= w,
    ;
}

fn yuv420_pixel_exec(buf: &[u8], w: usize, h: usize, x: usize, y: usize) -> (c: Color)
    requires
        x < w,
        y < h,
        w * h * 3 <= usize::MAX,
        buf@.len() >= yuv420_read_len(w as int, h as int),
    ensures
        c == yuv420_pixel(buf@, w as int, h as int, x as int, y as int),
{
    let len = buf.len();
    proof {
        lemma_yuv420_indices(w as int, h as int, x as int, y as int);
    }
    let n = w * h;
    let ci = (y / 2) * (w / 2) + x / 2;
    let l = buf[y * w + x] as i64;
    let u = buf[n + ci] as i64 - 128;
    let v = buf[n + n / 8 + ci] as i64 - 128;
    Color {
        r: clamp_to_u8(1000 * l + 1402 * v, 1000),
        g: clamp_to_u8(1000 * l - 344 * u - 714 * v, 1000),
        b: clamp_to_u8(1000 * l + 1772 * u, 1000),
    }
}

/// Decodes a planar YUV 4:2:0 frame of `shape = (width, height)` into RGB:
/// the luma plane of `width * height` bytes, then the U plane, with the V
/// plane at one and one eighth of the luma size; each chroma plane has a row
/// of `width / 2` samples for each two rows of pixels. Every channel is held
/// to `[0, 255]`. Fails when the buffer is too short for the frame.
pub fn yuv420_to_rgb(buf: &[u8], shape: (u32, u32)) -> (r: Result<RgbImage, ThermoError>)
    requires
        shape.0 * shape.1 * 3 <= usize::MAX,
    ensures
        buf@.len() < yuv420_len(shape.0 as int, shape.1 as int) <==> r is Err,
        r is Err ==> r == Err::<RgbImage, ThermoError>(ThermoError::BufferTooShort),
        r is Ok ==> {
            let img = r->Ok_0;
            &&& img.wf()
            &&& img.width == shape.0
            &&& img.height == shape.1
            &&& forall|x: int, y: int|
                img.in_bounds(x, y) ==> #[trigger] img.pixel_at(x, y) == yuv420_pixel(
                    buf@,
                    shape.0 as int,
                    shape.1 as int,
                    x,
                    y,
                )
        },
{
    let (width, height) = shape;
    let w = width as usize;
    let h = height as usize;
    let n = w * h;
    proof {
        assert(0 <= (w / 2) * (h / 2) <= w * h) by (nonlinear_arith)
            requires
                0 <= w / 2 <= w,
                0 <= h / 2 <= h,
        ;
    }
    assert(w == 0 || h == 0 <==> n == 0) by (nonlinear_arith)
        requires
            n == w * h,
            w >= 0,
            h >= 0,
    ;
    let planes = n as u128 + 2 * ((w / 2) as u128 * (h / 2) as u128);
    let mut needed = planes;
    if n > 0 {
        proof {
            lemma_yuv420_indices(w as int, h as int, w - 1, h - 1);
        }
        let read = (n + n / 8 + ((h - 1) / 2) * (w / 2) + (w - 1) / 2 + 1) as u128;
        if read > needed {
            needed = read;
        }
    }
    if (buf.len() as u128) < needed {
        return Err(ThermoError::BufferTooShort);
    }
    let mut data: Vec<u8> = Vec::new();
    let mut p: usize = 0;
    while p < n
        invariant
            n == w * h,
            n * 3 <= usize::MAX,
            n > 0 ==> w > 0,
            buf@.len() >= yuv420_read_len(w as int, h as int),
            p <= n,
            data@.len() == 3 * p,
            forall|q: int|
                0 <= q < p ==> #[trigger] color_at(data@, q) == yuv420_pixel(
                    buf@,
                    w as int,
                    h as int,
                    q % (w as int),
                    q / (w as int),
                ),
        decreases n - p,
    {
        let x = p % w;
        let y = p / w;
        proof {
            assert(h * w == w * h) by (nonlinear_arith);
            crate::rgb_image::lemma_row_of(p as int, h as int, w as int);
        }
        let c = yuv420_pixel_exec(buf, w, h, x, y);
        push_color(&mut data, c);
        p = p + 1;
    }
    let img = RgbImage { width, height, data };
    proof {
        assert forall|x: int, y: int| img.in_bounds(x, y) implies #[trigger] img.pixel_at(x, y)
            == yuv420_pixel(buf@, w as int, h as int, x, y) by {
            crate::rgb_image::lemma_pixel_in_bounds(w as int, h as int, x, y);
            crate::rgb_image::lemma_scan_order(w as int, x, y);
        }
    }
    Ok(img)
}

/// Appends the channels of `c` in the order red, green, blue.
pub(crate) fn push_color(data: &mut Vec<u8>, c: Color)
    requires
        old(data)@.len() % 3 == 0,
    ensures
        final(data)@.len() == old(data)@.len() + 3,
        forall|q: int|
            0 <= q < old(data)@.len() / 3 ==> #[trigger] color_at(final(data)@, q) == color_at(
                old(data)@,
                q,
            ),
        color_at(final(data)@, old(data)@.len() as int / 3) == c,
{
    data.push(c.r);
    data.push(c.g);
    data.push(c.b);
}

} // verus!
