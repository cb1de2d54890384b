//! Sensor-to-visual image pipeline for a thermal camera: statistics over the
//! thermal grid, false-color mapping, raw camera decoding, upscaling with
//! markers, and fusion of the visible-light and thermal images.

pub mod blend;
pub mod color;
pub mod decode;
pub mod error;
pub mod pixel;
pub mod rgb_image;
pub mod statistics;
pub mod temperature_pixel;
pub mod thermo_image_processing;

pub use blend::{blend_images_of_different_sizes, compose_display_image};
pub use color::{Color, Fraction};
pub use decode::{
    process_raw_camera_data, sgrbg10p_to_rgb, unpack_raw10, yuv420_to_rgb, yuyv_to_rgb,
};
pub use error::ThermoError;
pub use pixel::Pixel;
pub use rgb_image::{draw_cross_into_image, RgbImage};
pub use statistics::extract_statistics;
pub use temperature_pixel::TemperaturPixel;
pub use thermo_image_processing::{
    process_raw_thermo_image_data, BlendMode, ThermoImageProcessor,
};
