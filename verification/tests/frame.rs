use orochi::frame::{crop, region_label, RegionDto};

/// A frame whose pixel (x, y) is [x, y, x + y, 255].
fn ramp(w: u32, h: u32) -> Vec<u8> {
    let mut data = Vec::new();
    for y in 0..h {
        for x in 0..w {
            data.extend_from_slice(&[x as u8, y as u8, (x + y) as u8, 255]);
        }
    }
    data
}

fn at(x: u32, y: u32, w: u32, h: u32) -> RegionDto {
    RegionDto { x, y, w, h }
}

#[test]
fn crop_takes_the_pixels_of_the_region() {
    let (data, w, h) = crop(&ramp(5, 4), 5, 4, at(1, 2, 3, 2));
    assert_eq!((w, h), (3, 2));
    assert_eq!(
        data,
        vec![
            1, 2, 3, 255, 2, 2, 4, 255, 3, 2, 5, 255, 1, 3, 4, 255, 2, 3, 5, 255, 3, 3, 6, 255,
        ]
    );
}

#[test]
fn crop_is_clamped_to_the_frame() {
    let (data, w, h) = crop(&ramp(5, 4), 5, 4, at(4, 3, 100, 100));
    assert_eq!((w, h), (1, 1));
    assert_eq!(data, vec![4, 3, 7, 255]);
    let (data, w, h) = crop(&ramp(5, 4), 5, 4, at(u32::MAX, u32::MAX, u32::MAX, u32::MAX));
    assert_eq!((w, h), (1, 1));
    assert_eq!(data, vec![4, 3, 7, 255]);
}

#[test]
fn empty_region_keeps_the_frame() {
    let raw = ramp(3, 2);
    assert_eq!(crop(&raw, 3, 2, at(1, 1, 0, 2)), (raw.clone(), 3, 2));
    assert_eq!(crop(&raw, 3, 2, at(1, 1, 2, 0)), (raw.clone(), 3, 2));
    assert_eq!(crop(&[], 0, 0, at(3, 3, 3, 3)), (vec![], 0, 0));
    assert_eq!(crop(&[7], 0, 9, at(0, 0, 1, 1)), (vec![7], 0, 9));
}

#[test]
fn crop_reads_no_further_than_the_region() {
    let mut raw = ramp(3, 3);
    raw.truncate(4 * 5);
    let (data, w, h) = crop(&raw, 3, 3, at(0, 0, 2, 2));
    assert_eq!((w, h), (2, 2));
    assert_eq!(data.len(), 16);
    assert_eq!(&data[12..], &[1, 1, 2, 255]);
}

#[test]
fn crop_to_the_full_size_changes_nothing() {
    let raw = ramp(4, 3);
    assert_eq!(crop(&raw, 4, 3, at(0, 0, 4, 3)), (raw, 4, 3));
}

#[test]
fn crop_of_a_crop_is_one_crop() {
    let raw = ramp(9, 8);
    let (inner, w, h) = crop(&raw, 9, 8, at(2, 1, 6, 5));
    let twice = crop(&inner, w, h, at(1, 3, 4, 9));
    assert_eq!(twice, crop(&raw, 9, 8, at(3, 4, 4, 2)));
}

#[test]
fn crop_of_a_whole_frame_is_whole() {
    for x in 0..4 {
        for w in 1..6 {
            let (data, cw, ch) = crop(&ramp(4, 4), 4, 4, at(x, x, w, w));
            assert_eq!(data.len() as u32, 4 * cw * ch);
            assert!(cw <= w && ch <= w);
        }
    }
}

#[test]
fn label_shows_what_is_cropped() {
    let d = region_label(5, 4, at(3, 0, 3, 4));
    assert_eq!(d, at(3, 0, 2, 4));
    assert_eq!(region_label(5, 4, at(9, 9, 9, 9)), at(4, 3, 1, 1));
    assert_eq!(region_label(0, 0, at(0, 0, 0, 0)), at(0, 0, 0, 0));
    for r in [at(3, 0, 3, 4), at(1, 1, 2, 2), at(9, 9, 9, 9), at(0, 0, 5, 4)] {
        let d = region_label(5, 4, r);
        let (_, w, h) = crop(&ramp(5, 4), 5, 4, r);
        assert_eq!((w, h), (d.w, d.h));
    }
}
