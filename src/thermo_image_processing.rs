use vstd::prelude::*;

use crate::color::{lerp_spec, normalize, normalize_spec, Color, Fraction};
use crate::error::ThermoError;
use crate::rgb_image::{
    color_at, draw_cross_into_image, lanczos3_resized, on_marker, rgb_bytes, upscale, RgbImage,
};
use crate::statistics::{extract_statistics, is_statistics};
use crate::temperature_pixel::TemperaturPixel;

verus! {

/// Which image is shown: the fusion of both, the visible-light image alone,
/// or the thermal image alone.
#[derive(Debug, Clone, Copy, PartialEq, Eq, Structural)]
pub enum BlendMode {
    Fused,
    VisibleOnly,
    ThermalOnly,
}

/// Step of the manual scale bounds, in thousandths of a degree Celsius.
pub const MANUAL_SCALE_STEP: i32 = 1000;

/// Settings that drive the processing of one thermal frame. Temperatures are
/// in thousandths of a degree Celsius.
#[derive(Debug, Clone, Copy, PartialEq, Eq, Structural)]
pub struct ThermoImageProcessor {
    pub interpolation_factor: u32,
    pub autoscale_enabled: bool,
    pub manual_scale_min_temp: i32,
    pub manual_scale_max_temp: i32,
    pub min_temp_color: Color,
    pub max_temp_color: Color,
    pub mode: BlendMode,
}

/// `t + delta`, held inside the range of `i32`.
pub open spec fn saturating_shift(t: i32, delta: int) -> i32 {
    if t + delta > i32::MAX {
        i32::MAX
    } else if t + delta < i32::MIN {
        i32::MIN
    } else {
        (t + delta) as i32
    }
}

fn shift_temp(t: i32, up: bool) -> (r: i32)
    ensures
        r == saturating_shift(t, if up { MANUAL_SCALE_STEP as int } else { -MANUAL_SCALE_STEP }),
{
    if up {
        if t > i32::MAX - MANUAL_SCALE_STEP {
            i32::MAX
        } else {
            t + MANUAL_SCALE_STEP
        }
    } else {
        if t < i32::MIN + MANUAL_SCALE_STEP {
            i32::MIN
        } else {
            t - MANUAL_SCALE_STEP
        }
    }
}

impl BlendMode {
    /// The next mode in the order fused, visible only, thermal only; the
    /// last one stays.
    pub fn increased(self) -> (r: Self)
        ensures
            r == match self {
                BlendMode::Fused => BlendMode::VisibleOnly,
                _ => BlendMode::ThermalOnly,
            },
    {
        match self {
            BlendMode::Fused => BlendMode::VisibleOnly,
            _ => BlendMode::ThermalOnly,
        }
    }

    /// The previous mode in the order fused, visible only, thermal only; the
    /// first one stays.
    pub fn decreased(self) -> (r: Self)
        ensures
            r == match self {
                BlendMode::ThermalOnly => BlendMode::VisibleOnly,
                _ => BlendMode::Fused,
            },
    {
        match self {
            BlendMode::ThermalOnly => BlendMode::VisibleOnly,
            _ => BlendMode::Fused,
        }
    }
}

impl ThermoImageProcessor {
    /// Settings with autoscale on, a manual scale from -5 to 35 degrees
    /// Celsius, blue for the cold end, red for the hot end, fused display.
    pub fn new(interpolation_factor: u32) -> (r: Self)
        ensures
            r.interpolation_factor == interpolation_factor,
            r.autoscale_enabled,
            r.manual_scale_min_temp == -5000,
            r.manual_scale_max_temp == 35000,
            r.min_temp_color == (Color { r: 0, g: 0, b: 255 }),
            r.max_temp_color == (Color { r: 255, g: 0, b: 0 }),
            r.mode == BlendMode::Fused,
    {
        ThermoImageProcessor {
            interpolation_factor,
            autoscale_enabled: true,
            manual_scale_min_temp: -5000,
            manual_scale_max_temp: 35000,
            min_temp_color: Color { r: 0, g: 0, b: 255 },
            max_temp_color: Color { r: 255, g: 0, b: 0 },
            mode: BlendMode::Fused,
        }
    }

    pub fn with_autoscale_enabled(self, autoscale_enabled: bool) -> (r: Self)
        ensures
            r == (ThermoImageProcessor { autoscale_enabled, ..self }),
    {
        ThermoImageProcessor { autoscale_enabled, ..self }
    }

    pub fn with_manual_scale_min_temp(self, manual_scale_min_temp: i32) -> (r: Self)
        ensures
            r == (ThermoImageProcessor { manual_scale_min_temp, ..self }),
    {
        ThermoImageProcessor { manual_scale_min_temp, ..self }
    }

    pub fn with_manual_scale_max_temp(self, manual_scale_max_temp: i32) -> (r: Self)
        ensures
            r == (ThermoImageProcessor { manual_scale_max_temp, ..self }),
    {
        ThermoImageProcessor { manual_scale_max_temp, ..self }
    }

    pub fn with_min_temp_color(self, min_temp_color: Color) -> (r: Self)
        ensures
            r == (ThermoImageProcessor { min_temp_color, ..self }),
    {
        ThermoImageProcessor { min_temp_color, ..self }
    }

    pub fn with_max_temp_color(self, max_temp_color: Color) -> (r: Self)
        ensures
            r == (ThermoImageProcessor { max_temp_color, ..self }),
    {
        ThermoImageProcessor { max_temp_color, ..self }
    }

    pub fn with_mode(self, mode: BlendMode) -> (r: Self)
        ensures
            r == (ThermoImageProcessor { mode, ..self }),
    {
        ThermoImageProcessor { mode, ..self }
    }

    /// Moves the lower manual scale bound one step up or down.
    pub fn step_manual_scale_min_temp(&mut self, up: bool)
        ensures
            *final(self) == (ThermoImageProcessor {
                manual_scale_min_temp: saturating_shift(
                    old(self).manual_scale_min_temp,
                    if up { MANUAL_SCALE_STEP as int } else { -MANUAL_SCALE_STEP },
                ),
                ..*old(self)
            }),
    {
        self.manual_scale_min_temp = shift_temp(self.manual_scale_min_temp, up);
    }

    /// Moves the upper manual scale bound one step up or down.
    pub fn step_manual_scale_max_temp(&mut self, up: bool)
        ensures
            *final(self) == (ThermoImageProcessor {
                manual_scale_max_temp: saturating_shift(
                    old(self).manual_scale_max_temp,
                    if up { MANUAL_SCALE_STEP as int } else { -MANUAL_SCALE_STEP },
                ),
                ..*old(self)
            }),
    {
        self.manual_scale_max_temp = shift_temp(self.manual_scale_max_temp, up);
    }
}

/// The fraction at which a sample is colored: its place on the scale from
/// `lo` to `hi`, or one half where the scale is degenerate.
pub open spec fn scale_fraction(lo: i32, hi: i32, t: i32) -> Fraction {
    if lo == hi {
        Fraction { num: 1, den: 2 }
    } else {
        normalize_spec(lo, hi, t)
    }
}

/// The false color of each sample on the scale from `lo` to `hi`.
pub open spec fn thermal_colors(g: Seq<i32>, lo: i32, hi: i32, c1: Color, c2: Color) -> Seq<Color> {
    g.map_values(|t: i32| lerp_spec(c1, c2, scale_fraction(lo, hi, t)))
}

/// The scale of a frame: the extrema found when autoscale is on, the manual
/// bounds otherwise.
pub open spec fn frame_scale(
    s: ThermoImageProcessor,
    max_pixel: TemperaturPixel,
    min_pixel: TemperaturPixel,
) -> (i32, i32) {
    if s.autoscale_enabled {
        (min_pixel.value, max_pixel.value)
    } else {
        (s.manual_scale_min_temp, s.manual_scale_max_temp)
    }
}

/// Where the marker of a grid pixel lands in an image upscaled by `f`.
pub open spec fn marker_center(p: TemperaturPixel, f: u32) -> (int, int) {
    (p.x * f + f / 2, p.y * f + f / 2)
}

pub open spec fn marker_color_min() -> Color {
    Color { r: 0, g: 255, b: 0 }
}

pub open spec fn marker_color_max() -> Color {
    Color { r: 255, g: 255, b: 255 }
}

/// Pixel `(x, y)` of the processed thermal image: the markers of the maximum
/// (white, drawn last) and of the minimum (green) over the upscaled false
/// color image.
pub open spec fn thermal_image_pixel(
    g: Seq<i32>,
    shape: (u32, u32),
    s: ThermoImageProcessor,
    max_pixel: TemperaturPixel,
    min_pixel: TemperaturPixel,
    x: int,
    y: int,
) -> Color {
    let f = s.interpolation_factor;
    let (lo, hi) = frame_scale(s, max_pixel, min_pixel);
    let colors = thermal_colors(g, lo, hi, s.min_temp_color, s.max_temp_color);
    let w = (shape.1 * f) as u32;
    let h = (shape.0 * f) as u32;
    let upscaled = lanczos3_resized(rgb_bytes(colors), shape.1, shape.0, w, h);
    let (max_x, max_y) = marker_center(max_pixel, f);
    let (min_x, min_y) = marker_center(min_pixel, f);
    if on_marker(max_x, max_y, x, y) {
        marker_color_max()
    } else if on_marker(min_x, min_y, x, y) {
        marker_color_min()
    } else {
        color_at(upscaled, y * w + x)
    }
}

fn false_colors(grid: &Vec<i32>, lo: i32, hi: i32, c1: Color, c2: Color) -> (r: Vec<Color>)
    ensures
        r@ == thermal_colors(grid@, lo, hi, c1, c2),
{
    let mut colors: Vec<Color> = Vec::new();
    let mut i: usize = 0;
    while i < grid.len()
        invariant
            i <= grid@.len(),
            colors@ == thermal_colors(grid@.take(i as int), lo, hi, c1, c2),
        decreases grid@.len() - i,
    {
        let fraction = match normalize(lo, hi, grid[i]) {
            Ok(f) => f,
            Err(_) => Fraction { num: 1, den: 2 },
        };
        colors.push(Color::lerp(c1, c2, fraction));
        proof {
            assert(grid@.take(i + 1) == grid@.take(i as int).push(grid@[i as int]));
            assert(thermal_colors(grid@.take(i + 1), lo, hi, c1, c2) =~= thermal_colors(
                grid@.take(i as int),
                lo,
                hi,
                c1,
                c2,
            ).push(lerp_spec(c1, c2, scale_fraction(lo, hi, grid@[i as int]))));
        }
        i = i + 1;
    }
    assert(grid@.take(i as int) == grid@);
    colors
}

/// Processes one thermal frame of `shape = (rows, cols)`: finds its extrema
/// and mean, colors each sample on the frame's scale, upscales the false
/// color image by the interpolation factor, and marks the minimum (green)
/// and then the maximum (white). Fails on an empty grid and on one whose
/// length is not `rows * cols`.
pub fn process_raw_thermo_image_data(
    mlx_sensor_data: &Vec<i32>,
    mlx_sensor_data_shape: (u32, u32),
    settings: &ThermoImageProcessor,
) -> (r: Result<(TemperaturPixel, TemperaturPixel, i32, RgbImage), ThermoError>)
    requires
        settings.interpolation_factor >= 1,
        mlx_sensor_data_shape.1 * settings.interpolation_factor <= u32::MAX,
        mlx_sensor_data_shape.0 * settings.interpolation_factor <= u32::MAX,
        (mlx_sensor_data_shape.1 * settings.interpolation_factor) * (mlx_sensor_data_shape.0
            * settings.interpolation_factor) * 3 <= usize::MAX,
    ensures
        mlx_sensor_data@.len() == 0 ==> r == Err::<
            (TemperaturPixel, TemperaturPixel, i32, RgbImage),
            ThermoError,
        >(ThermoError::EmptyInput),
        mlx_sensor_data@.len() != 0 && mlx_sensor_data@.len() != mlx_sensor_data_shape.0
            * mlx_sensor_data_shape.1 ==> r == Err::<
            (TemperaturPixel, TemperaturPixel, i32, RgbImage),
            ThermoError,
        >(ThermoError::DimensionMismatch),
        mlx_sensor_data@.len() != 0 && mlx_sensor_data@.len() == mlx_sensor_data_shape.0
            * mlx_sensor_data_shape.1 ==> r is Ok,
        r is Ok ==> {
            let (max_pixel, min_pixel, mean, img) = r->Ok_0;
            &&& is_statistics(
                mlx_sensor_data@,
                mlx_sensor_data_shape.1,
                max_pixel,
                min_pixel,
                mean,
            )
            &&& img.wf()
            &&& img.width == mlx_sensor_data_shape.1 * settings.interpolation_factor
            &&& img.height == mlx_sensor_data_shape.0 * settings.interpolation_factor
            &&& settings.interpolation_factor == 1 ==> forall|x: int, y: int|
                img.in_bounds(x, y) && !on_marker(max_pixel.x as int, max_pixel.y as int, x, y)
                    && !on_marker(min_pixel.x as int, min_pixel.y as int, x, y)
                    ==> #[trigger] img.pixel_at(x, y) == thermal_colors(
                    mlx_sensor_data@,
                    frame_scale(*settings, max_pixel, min_pixel).0,
                    frame_scale(*settings, max_pixel, min_pixel).1,
                    settings.min_temp_color,
                    settings.max_temp_color,
                )[y * mlx_sensor_data_shape.1 + x]
            &&& forall|x: int, y: int|
                img.in_bounds(x, y) ==> #[trigger] img.pixel_at(x, y) == thermal_image_pixel(
                    mlx_sensor_data@,
                    mlx_sensor_data_shape,
                    *settings,
                    max_pixel,
                    min_pixel,
                    x,
                    y,
                )
        },
{
    let (rows, cols) = mlx_sensor_data_shape;
    let f = settings.interpolation_factor;
    let (max_pixel, min_pixel, mean) = match extract_statistics(mlx_sensor_data, mlx_sensor_data_shape) {
        Ok(stats) => stats,
        Err(e) => {
            return Err(e);
        },
    };
    let (lo, hi) = if settings.autoscale_enabled {
        (min_pixel.value, max_pixel.value)
    } else {
        (settings.manual_scale_min_temp, settings.manual_scale_max_temp)
    };
    let colors = false_colors(
        mlx_sensor_data,
        lo,
        hi,
        settings.min_temp_color,
        settings.max_temp_color,
    );
    proof {
        assert(cols * rows * 3 <= usize::MAX) by (nonlinear_arith)
            requires
                (cols * f) * (rows * f) * 3 <= usize::MAX,
                f >= 1,
        ;
    }
    let img = match RgbImage::build_image(&colors, cols, rows) {
        Ok(img) => img,
        Err(e) => {
            return Err(e);
        },
    };
    let mut upscaled = upscale(&img, f);
    let ghost plain = upscaled;
    proof {
        assert(cols > 0 && rows > 0) by (nonlinear_arith)
            requires
                mlx_sensor_data@.len() == rows * cols,
                mlx_sensor_data@.len() > 0,
        ;
        lemma_marker_fits(min_pixel.x, cols, f);
        lemma_marker_fits(min_pixel.y, rows, f);
        lemma_marker_fits(max_pixel.x, cols, f);
        lemma_marker_fits(max_pixel.y, rows, f);
    }
    let x = min_pixel.x * f + f / 2;
    let y = min_pixel.y * f + f / 2;
    draw_cross_into_image(x, y, Color { r: 0, g: 255, b: 0 }, &mut upscaled);
    let x = max_pixel.x * f + f / 2;
    let y = max_pixel.y * f + f / 2;
    draw_cross_into_image(x, y, Color { r: 255, g: 255, b: 255 }, &mut upscaled);
    proof {
        assert forall|x: int, y: int| upscaled.in_bounds(x, y) implies #[trigger] upscaled.pixel_at(
            x,
            y,
        ) == thermal_image_pixel(
            mlx_sensor_data@,
            mlx_sensor_data_shape,
            *settings,
            max_pixel,
            min_pixel,
            x,
            y,
        ) by {
            assert(plain.pixel_at(x, y) == color_at(plain.data@, y * plain.width + x));
        }
    }
    proof {
        if f == 1 {
            assert forall|x: int, y: int|
                upscaled.in_bounds(x, y) && !on_marker(max_pixel.x as int, max_pixel.y as int, x, y)
                    && !on_marker(min_pixel.x as int, min_pixel.y as int, x, y) implies #[trigger] upscaled.pixel_at(
                x,
                y,
            ) == colors@[y * cols + x] by {
                crate::rgb_image::lemma_pixel_in_bounds(cols as int, rows as int, x, y);
                crate::rgb_image::lemma_rgb_bytes_color(colors@, y * cols + x);
                assert(plain.pixel_at(x, y) == color_at(img.data@, y * cols + x));
            }
        }
    }
    Ok((max_pixel, min_pixel, mean, upscaled))
}

proof fn lemma_marker_fits(p: u32, n: u32, f: u32)
    requires
        p < n,
        f >= 1,
        n * f <= u32::MAX,
    ensures
        p * f + f / 2 < n * f,
{
    assert(p * f + f <= n * f) by (nonlinear_arith)
        requires
            p < n,
            f >= 1,
    ;
}

} // verus!
