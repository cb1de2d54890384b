use thermocam::thermo_image_processing::MANUAL_SCALE_STEP;
use thermocam::{
    extract_statistics, process_raw_thermo_image_data, BlendMode, Color, TemperaturPixel,
    ThermoError, ThermoImageProcessor,
};

#[test]
fn statistics_of_a_small_grid_let_the_last_tie_win() {
    let grid = vec![5000, 9000, 9000, 1000];
    let (max_pixel, min_pixel, mean) = extract_statistics(&grid, (2, 2)).unwrap();
    assert_eq!(max_pixel, TemperaturPixel { x: 0, y: 1, value: 9000 });
    assert_eq!(min_pixel, TemperaturPixel { x: 1, y: 1, value: 1000 });
    assert_eq!(mean, 6000);
}

#[test]
fn statistics_find_extrema_outside_the_manual_scale() {
    let grid = vec![40000, 41000, 42000];
    let (max_pixel, min_pixel, mean) = extract_statistics(&grid, (1, 3)).unwrap();
    assert_eq!(max_pixel, TemperaturPixel { x: 2, y: 0, value: 42000 });
    assert_eq!(min_pixel, TemperaturPixel { x: 0, y: 0, value: 40000 });
    assert_eq!(mean, 41000);
}

#[test]
fn statistics_of_one_sample() {
    let (max_pixel, min_pixel, mean) = extract_statistics(&vec![40000], (1, 1)).unwrap();
    assert_eq!(max_pixel, TemperaturPixel { x: 0, y: 0, value: 40000 });
    assert_eq!(min_pixel, TemperaturPixel { x: 0, y: 0, value: 40000 });
    assert_eq!(mean, 40000);
}

#[test]
fn thermal_frame_extrema_are_grid_samples_with_default_settings() {
    let settings = ThermoImageProcessor::new(1);
    let (max_pixel, min_pixel, _, _) =
        process_raw_thermo_image_data(&vec![40000], (1, 1), &settings).unwrap();
    assert_eq!(min_pixel.value, 40000);
    assert_eq!(max_pixel.value, 40000);
}

#[test]
fn statistics_mean_rounds_down() {
    let grid = vec![-1, -2];
    let (_, _, mean) = extract_statistics(&grid, (1, 2)).unwrap();
    assert_eq!(mean, -2);
}

#[test]
fn statistics_reject_an_empty_grid() {
    assert_eq!(extract_statistics(&vec![], (0, 0)), Err(ThermoError::EmptyInput));
}

#[test]
fn statistics_reject_a_grid_of_the_wrong_length() {
    assert_eq!(extract_statistics(&vec![1, 2, 3], (2, 2)), Err(ThermoError::DimensionMismatch));
}

#[test]
fn settings_start_from_the_defaults() {
    let s = ThermoImageProcessor::new(10);
    assert_eq!(s.interpolation_factor, 10);
    assert!(s.autoscale_enabled);
    assert_eq!(s.manual_scale_min_temp, -5000);
    assert_eq!(s.manual_scale_max_temp, 35000);
    assert_eq!(s.min_temp_color, Color { r: 0, g: 0, b: 255 });
    assert_eq!(s.max_temp_color, Color { r: 255, g: 0, b: 0 });
    assert_eq!(s.mode, BlendMode::Fused);
}

#[test]
fn settings_builders_set_one_field_each() {
    let s = ThermoImageProcessor::new(3)
        .with_autoscale_enabled(false)
        .with_manual_scale_min_temp(18000)
        .with_manual_scale_max_temp(35000)
        .with_min_temp_color(Color { r: 1, g: 2, b: 3 })
        .with_max_temp_color(Color { r: 4, g: 5, b: 6 })
        .with_mode(BlendMode::ThermalOnly);
    assert!(!s.autoscale_enabled);
    assert_eq!(s.manual_scale_min_temp, 18000);
    assert_eq!(s.manual_scale_max_temp, 35000);
    assert_eq!(s.min_temp_color, Color { r: 1, g: 2, b: 3 });
    assert_eq!(s.max_temp_color, Color { r: 4, g: 5, b: 6 });
    assert_eq!(s.mode, BlendMode::ThermalOnly);
    assert_eq!(s.interpolation_factor, 3);
}

#[test]
fn manual_scale_steps_by_one_degree_and_saturates() {
    let mut s = ThermoImageProcessor::new(1);
    s.step_manual_scale_min_temp(true);
    assert_eq!(s.manual_scale_min_temp, -5000 + MANUAL_SCALE_STEP);
    s.step_manual_scale_max_temp(false);
    assert_eq!(s.manual_scale_max_temp, 35000 - MANUAL_SCALE_STEP);
    let mut s = s.with_manual_scale_max_temp(i32::MAX - 1);
    s.step_manual_scale_max_temp(true);
    assert_eq!(s.manual_scale_max_temp, i32::MAX);
}

#[test]
fn blend_mode_steps_stay_in_range() {
    assert_eq!(BlendMode::Fused.increased(), BlendMode::VisibleOnly);
    assert_eq!(BlendMode::VisibleOnly.increased(), BlendMode::ThermalOnly);
    assert_eq!(BlendMode::ThermalOnly.increased(), BlendMode::ThermalOnly);
    assert_eq!(BlendMode::ThermalOnly.decreased(), BlendMode::VisibleOnly);
    assert_eq!(BlendMode::VisibleOnly.decreased(), BlendMode::Fused);
    assert_eq!(BlendMode::Fused.decreased(), BlendMode::Fused);
}

fn pixel(img: &thermocam::RgbImage, x: usize, y: usize) -> [u8; 3] {
    let i = (y * img.width as usize + x) * 3;
    [img.data[i], img.data[i + 1], img.data[i + 2]]
}

#[test]
fn thermal_frame_is_colored_and_marked() {
    let grid = vec![0, 1000, 2000, 3000, 4000, 5000, 6000];
    let settings = ThermoImageProcessor::new(1);
    let (max_pixel, min_pixel, mean, img) =
        process_raw_thermo_image_data(&grid, (1, 7), &settings).unwrap();
    assert_eq!(max_pixel, TemperaturPixel { x: 6, y: 0, value: 6000 });
    assert_eq!(min_pixel, TemperaturPixel { x: 0, y: 0, value: 0 });
    assert_eq!(mean, 3000);
    assert_eq!((img.width, img.height), (7, 1));
    assert_eq!(pixel(&img, 0, 0), [0, 255, 0]);
    assert_eq!(pixel(&img, 2, 0), [0, 255, 0]);
    assert_eq!(pixel(&img, 3, 0), [127, 0, 127]);
    assert_eq!(pixel(&img, 4, 0), [255, 255, 255]);
    assert_eq!(pixel(&img, 6, 0), [255, 255, 255]);
}

#[test]
fn thermal_frame_with_manual_scale_uses_the_manual_bounds() {
    let grid = vec![0, 0, 0, 0, 0, 0, 4000, 0, 0, 0, 0, 0, 8000];
    let settings = ThermoImageProcessor::new(1)
        .with_autoscale_enabled(false)
        .with_manual_scale_min_temp(0)
        .with_manual_scale_max_temp(16000);
    let (_, _, _, img) = process_raw_thermo_image_data(&grid, (1, 13), &settings).unwrap();
    assert_eq!(pixel(&img, 6, 0), [63, 0, 191]);
}

#[test]
fn thermal_frame_with_a_degenerate_scale_uses_the_middle_color() {
    let grid = vec![5000; 9];
    let settings = ThermoImageProcessor::new(1);
    let (_, _, _, img) = process_raw_thermo_image_data(&grid, (1, 9), &settings).unwrap();
    assert_eq!(pixel(&img, 4, 0), [127, 0, 127]);
}

#[test]
fn thermal_frame_is_upscaled_by_the_factor() {
    let grid = vec![1000, 2000, 3000, 4000, 5000, 6000];
    let settings = ThermoImageProcessor::new(4);
    let (_, _, _, img) = process_raw_thermo_image_data(&grid, (2, 3), &settings).unwrap();
    assert_eq!((img.width, img.height), (12, 8));
    assert_eq!(img.data.len(), 12 * 8 * 3);
    // the minimum (column 0, row 0) is marked around (2, 2)
    assert_eq!(pixel(&img, 2, 2), [0, 255, 0]);
    assert_eq!(pixel(&img, 0, 2), [0, 255, 0]);
    // the maximum (column 2, row 1) is marked around (10, 6)
    assert_eq!(pixel(&img, 10, 6), [255, 255, 255]);
    assert_eq!(pixel(&img, 10, 4), [255, 255, 255]);
}

#[test]
fn thermal_frame_errors() {
    let settings = ThermoImageProcessor::new(2);
    assert_eq!(
        process_raw_thermo_image_data(&vec![], (0, 0), &settings).err(),
        Some(ThermoError::EmptyInput)
    );
    assert_eq!(
        process_raw_thermo_image_data(&vec![1, 2, 3], (2, 2), &settings).err(),
        Some(ThermoError::DimensionMismatch)
    );
}
