use thermocam::decode::clamp_to_u8;
use thermocam::{
    process_raw_camera_data, sgrbg10p_to_rgb, unpack_raw10, yuv420_to_rgb, yuyv_to_rgb,
    ThermoError,
};

fn pixel(img: &thermocam::RgbImage, x: usize, y: usize) -> [u8; 3] {
    let i = (y * img.width as usize + x) * 3;
    [img.data[i], img.data[i + 1], img.data[i + 2]]
}

#[test]
fn unpacking_a_packed_group() {
    let raw = [0x3F, 0x00, 0x00, 0x00, 0b0000_0000];
    assert_eq!(unpack_raw10(&raw, 4), vec![62, 0, 0, 0]);
}

#[test]
fn unpacking_takes_two_low_bits_per_pixel() {
    // pixel 0: 0xFF << 2 | 0b11 = 1023 -> 254; pixel 1: 0x80 << 2 | 0b01 = 513 -> 127
    // pixel 2: 0x01 << 2 | 0b10 = 6 -> 1; pixel 3: 0x00 << 2 | 0b00 = 0 -> 0
    let raw = [0xFF, 0x80, 0x01, 0x00, 0b0010_0111];
    assert_eq!(unpack_raw10(&raw, 4), vec![254, 127, 1, 0]);
    assert_eq!(unpack_raw10(&raw, 2), vec![254, 127]);
}

#[test]
fn bayer_frame_of_one_level_stays_that_level() {
    let raw: Vec<u8> = [0x3F, 0x3F, 0x3F, 0x3F, 0x00].repeat(4);
    let img = sgrbg10p_to_rgb(&raw, (4, 4)).unwrap();
    assert_eq!((img.width, img.height), (4, 4));
    assert_eq!(img.data, vec![62; 48]);
}

#[test]
fn bayer_frame_errors() {
    assert_eq!(sgrbg10p_to_rgb(&[0; 19], (4, 4)), Err(ThermoError::BufferTooShort));
    assert_eq!(sgrbg10p_to_rgb(&[0; 5], (1, 4)), Err(ThermoError::UnsupportedDimensions));
    assert_eq!(sgrbg10p_to_rgb(&[0; 5], (4, 1)), Err(ThermoError::UnsupportedDimensions));
    assert!(sgrbg10p_to_rgb(&[0; 5], (2, 2)).is_ok());
}

#[test]
fn camera_frame_is_mirrored() {
    let raw: Vec<u8> = vec![
        0x10, 0x20, 0x30, 0x40, 0x00, 0x50, 0x60, 0x70, 0x80, 0x00, 0x90, 0xA0, 0xB0, 0xC0, 0x00,
        0xD0, 0xE0, 0xF0, 0xFF, 0x00,
    ];
    let plain = sgrbg10p_to_rgb(&raw, (4, 4)).unwrap();
    let mirrored = process_raw_camera_data(&raw, (4, 4)).unwrap();
    assert_eq!((mirrored.width, mirrored.height), (4, 4));
    for y in 0..4 {
        for x in 0..4 {
            assert_eq!(pixel(&mirrored, x, y), pixel(&plain, 3 - x, y));
        }
    }
    assert_ne!(mirrored, plain);
}

#[test]
fn yuyv_pair_shares_its_chroma() {
    let buf = [100, 128, 200, 128];
    let img = yuyv_to_rgb(&buf, (2, 1)).unwrap();
    assert_eq!(img.data, vec![100, 100, 100, 200, 200, 200]);
}

#[test]
fn yuyv_clamps_every_channel() {
    // V - 128 = 127: R = 100 + 178.6 -> 255, G = 100 - 134.9 -> 0
    // U - 128 = -128: B = 100 - 150.9 -> 0
    let buf = [100, 0, 50, 255];
    let img = yuyv_to_rgb(&buf, (2, 1)).unwrap();
    assert_eq!(pixel(&img, 0, 0), [255, 0, 0]);
    assert_eq!(pixel(&img, 1, 0), [228, 0, 0]);
}

#[test]
fn yuyv_exact_values() {
    // V - 128 = 10: R = 50 + 14.065, G = 50 - 10.624; U - 128 = 20: B = 50 + 23.58
    let buf = [50, 148, 60, 138];
    let img = yuyv_to_rgb(&buf, (2, 1)).unwrap();
    assert_eq!(pixel(&img, 0, 0), [64, 39, 73]);
    assert_eq!(pixel(&img, 1, 0), [74, 49, 83]);
}

#[test]
fn yuyv_rejects_a_short_buffer() {
    assert_eq!(yuyv_to_rgb(&[0; 7], (2, 2)), Err(ThermoError::BufferTooShort));
    assert_eq!(yuyv_to_rgb(&[0; 7], (3, 1)), Err(ThermoError::BufferTooShort));
    assert!(yuyv_to_rgb(&[0; 8], (3, 1)).is_ok());
}

#[test]
fn yuv420_neutral_chroma_gives_gray() {
    let buf = [10, 20, 30, 40, 128, 128];
    let img = yuv420_to_rgb(&buf, (2, 2)).unwrap();
    assert_eq!(img.data, vec![10, 10, 10, 20, 20, 20, 30, 30, 30, 40, 40, 40]);
}

#[test]
fn yuv420_reads_chroma_per_two_by_two_block() {
    // 4x2 frame: 8 luma bytes; U at 8, V at 8 + 1 = 9; two chroma samples per plane row
    let buf = [100, 100, 100, 100, 100, 100, 100, 100, 128, 138, 148, 0];
    let img = yuv420_to_rgb(&buf, (4, 2)).unwrap();
    // left block: U - 128 = 0, V - 128 = 10
    assert_eq!(pixel(&img, 0, 1), [114, 92, 100]);
    // right block: U - 128 = 10, V - 128 = 20
    assert_eq!(pixel(&img, 3, 0), [128, 82, 117]);
}

#[test]
fn yuv420_rejects_a_short_buffer() {
    assert_eq!(yuv420_to_rgb(&[0; 4], (2, 2)), Err(ThermoError::BufferTooShort));
    // luma plus two chroma planes of one byte each take six bytes
    assert_eq!(yuv420_to_rgb(&[0; 5], (2, 2)), Err(ThermoError::BufferTooShort));
    assert!(yuv420_to_rgb(&[0; 6], (2, 2)).is_ok());
    // 4x2: the planes take 12 bytes, the decoder reads 11
    assert_eq!(yuv420_to_rgb(&[0; 11], (4, 2)), Err(ThermoError::BufferTooShort));
    // 3x3: the planes take 11 bytes, the decoder reads up to byte 12
    assert_eq!(yuv420_to_rgb(&[0; 12], (3, 3)), Err(ThermoError::BufferTooShort));
    assert!(yuv420_to_rgb(&[0; 13], (3, 3)).is_ok());
    assert!(yuv420_to_rgb(&[], (0, 5)).is_ok());
}

#[test]
fn clamp_to_u8_holds_values_in_range() {
    assert_eq!(clamp_to_u8(-1, 10), 0);
    assert_eq!(clamp_to_u8(2559, 10), 255);
    assert_eq!(clamp_to_u8(9999, 10), 255);
    assert_eq!(clamp_to_u8(1239, 10), 123);
}
