use orochi::picture::{can_scale, data_url, exactly_holds_pixels, holds_pixels, make_thumb, thumb_url};

fn solid(w: u32, h: u32, pixel: [u8; 4]) -> Vec<u8> {
    let mut data = Vec::new();
    for _ in 0..w * h {
        data.extend_from_slice(&pixel);
    }
    data
}

fn decoded(url: &str) -> Vec<u8> {
    let text = url.strip_prefix("data:image/png;base64,").unwrap();
    base64::Engine::decode(&base64::engine::general_purpose::STANDARD, text).unwrap()
}

#[test]
fn data_urls_are_padded_base64() {
    assert_eq!(data_url(&[]), "data:image/png;base64,");
    assert_eq!(data_url(b"f"), "data:image/png;base64,Zg==");
    assert_eq!(data_url(b"fo"), "data:image/png;base64,Zm8=");
    assert_eq!(data_url(b"foo"), "data:image/png;base64,Zm9v");
    assert_eq!(data_url(&[0xFB, 0xEF, 0xFF]), "data:image/png;base64,++//");
    let all: Vec<u8> = (0..=255).collect();
    assert_eq!(decoded(&data_url(&all)), all);
}

#[test]
fn missing_file_has_an_empty_url() {
    assert_eq!(thumb_url(None), Some(String::new()));
    assert_eq!(thumb_url(Some(b"foo".to_vec())), Some("data:image/png;base64,Zm9v".to_string()));
}

#[test]
fn thumbnail_is_a_scaled_png() {
    let url = make_thumb(&solid(320, 200, [10, 200, 30, 255]), 320, 200, 100).unwrap();
    let png = decoded(&url);
    assert_eq!(&png[..8], &[0x89, b'P', b'N', b'G', 13, 10, 26, 10]);
    let picture = image::load_from_memory(&png).unwrap().to_rgba8();
    assert_eq!((picture.width(), picture.height()), (160, 100));
    assert!(picture.pixels().all(|p| p.0 == [10, 200, 30, 255]));
}

#[test]
fn thumbnail_is_what_the_image_crate_makes() {
    let mut data = Vec::new();
    for i in 0..(50u32 * 40) {
        data.extend_from_slice(&[i as u8, (i / 7) as u8, (i / 50) as u8, 255]);
    }
    let url = make_thumb(&data, 50, 40, 128).unwrap();
    let picture = image::RgbaImage::from_raw(50, 40, data).unwrap();
    let small =
        image::imageops::resize(&picture, 160, 128, image::imageops::FilterType::Triangle);
    assert_eq!(image::load_from_memory(&decoded(&url)).unwrap().to_rgba8(), small);
}

#[test]
fn thumbnail_is_at_least_one_pixel_high() {
    let url = make_thumb(&solid(900, 1, [1, 2, 3, 255]), 900, 1, 0).unwrap();
    let picture = image::load_from_memory(&decoded(&url)).unwrap();
    assert_eq!((picture.width(), picture.height()), (160, 1));
}

#[test]
fn thumbnail_of_a_short_buffer_is_empty() {
    assert_eq!(make_thumb(&[0; 15], 2, 2, 160), Some(String::new()));
    assert_eq!(make_thumb(&[], u32::MAX, u32::MAX, 160), Some(String::new()));
    assert_ne!(make_thumb(&[0; 17], 2, 2, 160), Some(String::new()));
}

#[test]
fn buffers_are_measured_in_pixels() {
    assert!(holds_pixels(16, 2, 2) && holds_pixels(17, 2, 2) && !holds_pixels(15, 2, 2));
    assert!(exactly_holds_pixels(16, 2, 2) && !exactly_holds_pixels(17, 2, 2));
    assert!(!holds_pixels(usize::MAX, u32::MAX, u32::MAX));
    assert!(holds_pixels(0, 0, u32::MAX));
}

#[test]
fn overlong_sides_cannot_be_scaled() {
    assert!(can_scale(1920, 1080, 160, 90));
    assert!(can_scale(1048576, 1, 1, 1048577));
    assert!(can_scale(2097152, 1, 160, 1));
    assert!(can_scale(1, 6554, 160, 1048640));
    assert!(can_scale(160, 1048577, 160, 1048577));
    assert!(!can_scale(160, 1048577, 160, 1048578));
    assert!(!can_scale(1048577, 1, 1048578, 1));
    assert!(!can_scale(1, 1, u32::MAX, u32::MAX));
}

#[test]
fn very_wide_picture_has_a_thumbnail() {
    let url = make_thumb(&solid(2097152, 1, [40, 50, 60, 255]), 2097152, 1, 0).unwrap();
    let picture = image::load_from_memory(&decoded(&url)).unwrap().to_rgba8();
    assert_eq!((picture.width(), picture.height()), (160, 1));
    assert!(picture.pixels().all(|p| p.0 == [40, 50, 60, 255]));
}
