use image::AnimationDecoder;
use orochi::frame::CapturedFrame;
use orochi::gif::{can_generate, check_output, generate_gif, gif_name, gif_outcome, needs_scaling, FreeName};

fn solid(w: u32, h: u32, pixel: [u8; 4]) -> CapturedFrame {
    let mut data = Vec::new();
    for _ in 0..w * h {
        data.extend_from_slice(&pixel);
    }
    CapturedFrame { data, w, h }
}

/// The frames of a GIF file: size, delay in milliseconds and first pixel.
fn frames_of(bytes: &[u8]) -> Vec<(u32, u32, u32, [u8; 4])> {
    let decoder = image::codecs::gif::GifDecoder::new(std::io::Cursor::new(bytes.to_vec())).unwrap();
    let mut out = Vec::new();
    for frame in decoder.into_frames() {
        let frame = frame.unwrap();
        let (numer, denom) = frame.delay().numer_denom_ms();
        let p = frame.buffer().get_pixel(0, 0).0;
        out.push((frame.buffer().width(), frame.buffer().height(), numer / denom, p));
    }
    out
}

#[test]
fn no_frames_make_no_gif() {
    assert_eq!(needs_scaling(&vec![], 100), Err("No frames captured yet.".to_string()));
}

#[test]
fn only_a_wider_first_frame_is_scaled() {
    let frames = vec![solid(30, 20, [0; 4]), solid(90, 20, [0; 4])];
    assert_eq!(needs_scaling(&frames, 0), Ok(None));
    assert_eq!(needs_scaling(&frames, 30), Ok(None));
    assert_eq!(needs_scaling(&frames, 29), Ok(Some((30, 20))));
}

#[test]
fn frames_become_an_endless_gif() {
    let frames = vec![solid(8, 6, [255, 0, 0, 255]), solid(8, 6, [0, 0, 255, 255])];
    assert!(can_generate(&frames, 0, 0));
    let gif = generate_gif(&frames, 120, 0, 0);
    assert_eq!(gif.error, None);
    assert_eq!(&gif.bytes[..6], b"GIF89a");
    assert_eq!(gif.bytes.last(), Some(&0x3B));
    let netscape = b"NETSCAPE2.0\x03\x01\x00\x00\x00";
    assert!(gif.bytes.windows(netscape.len()).any(|w| w == netscape));
    assert_eq!(
        frames_of(&gif.bytes),
        vec![(8, 6, 120, [255, 0, 0, 255]), (8, 6, 120, [0, 0, 255, 255])]
    );
}

#[test]
fn frames_are_brought_to_one_size() {
    let frames = vec![solid(40, 20, [9, 9, 9, 255]), solid(5, 5, [8, 8, 8, 255])];
    let gif = generate_gif(&frames, 100, 20, 10);
    assert_eq!(gif.error, None);
    assert_eq!(
        frames_of(&gif.bytes),
        vec![(20, 10, 100, [9, 9, 9, 255]), (20, 10, 100, [8, 8, 8, 255])]
    );
    let gif = generate_gif(&vec![solid(40, 1, [9, 9, 9, 255])], 100, 4, 0);
    assert_eq!(frames_of(&gif.bytes), vec![(4, 1, 100, [9, 9, 9, 255])]);
}

#[test]
fn gif_is_what_the_image_crate_makes() {
    let mut data = Vec::new();
    for i in 0..(20u32 * 20) {
        data.extend_from_slice(&[i as u8, (i / 3) as u8, (i / 20) as u8, 255]);
    }
    let frames = vec![CapturedFrame { data: data.clone(), w: 20, h: 20 }];
    let mut expected: Vec<u8> = Vec::new();
    {
        let mut encoder = image::codecs::gif::GifEncoder::new_with_speed(&mut expected, 10);
        encoder.set_repeat(image::codecs::gif::Repeat::Infinite).unwrap();
        let picture = image::RgbaImage::from_raw(20, 20, data).unwrap();
        let delay = image::Delay::from_numer_denom_ms(1, 1);
        encoder.encode_frame(image::Frame::from_parts(picture, 0, 0, delay)).unwrap();
    }
    let gif = generate_gif(&frames, 0, 0, 0);
    assert_eq!(gif.bytes, expected);
}

#[test]
fn corrupt_frame_ends_the_gif() {
    let mut frames = vec![solid(4, 4, [1, 1, 1, 255]), solid(4, 4, [2, 2, 2, 255]), solid(4, 4, [3, 3, 3, 255])];
    let whole = generate_gif(&frames, 50, 0, 0);
    assert_eq!(frames_of(&whole.bytes).len(), 3);
    frames[1].data.pop();
    let cut = generate_gif(&frames, 50, 0, 0);
    assert_eq!(cut.error, Some("Corrupt frame buffer".to_string()));
    assert_eq!(frames_of(&cut.bytes), vec![(4, 4, 50, [1, 1, 1, 255])]);
    frames[0].data.clear();
    let none = generate_gif(&frames, 50, 0, 0);
    assert_eq!(none.error, Some("Corrupt frame buffer".to_string()));
    assert!(none.bytes.is_empty());
}

#[test]
fn frame_larger_than_the_format_is_an_error() {
    let frames = vec![solid(70000, 1, [1, 1, 1, 255])];
    assert!(can_generate(&frames, 0, 0));
    let gif = generate_gif(&frames, 50, 0, 0);
    assert!(gif.error.is_some());
    assert_ne!(gif.error, Some("Corrupt frame buffer".to_string()));
    let mut two = frames;
    two.push(CapturedFrame { data: vec![], w: 1, h: 1 });
    assert_eq!(generate_gif(&two, 50, 0, 0).error, gif.error);
}

#[test]
fn surplus_bytes_cannot_be_encoded() {
    let mut frames = vec![solid(2, 2, [1, 1, 1, 255]), solid(3, 3, [1, 1, 1, 255])];
    frames[1].data.push(0);
    assert!(can_generate(&frames, 0, 0));
    frames[0].data.push(0);
    assert!(!can_generate(&frames, 0, 0));
}

#[test]
fn encoder_error_counts_before_a_corrupt_frame() {
    let r = gif_outcome(vec![1], Some("disk".to_string()), true);
    assert_eq!((r.bytes, r.error), (vec![1], Some("disk".to_string())));
    let r = gif_outcome(vec![], None, true);
    assert_eq!(r.error, Some("Corrupt frame buffer".to_string()));
    let r = gif_outcome(vec![2], None, false);
    assert_eq!((r.bytes, r.error), (vec![2], None));
}

#[test]
fn file_names_end_in_gif() {
    assert_eq!(gif_name(""), "orochi.gif");
    assert_eq!(gif_name(" \t"), "orochi.gif");
    assert_eq!(gif_name("clip"), "clip.gif");
    assert_eq!(gif_name("  clip.gif "), "clip.gif");
    assert_eq!(gif_name("clip.GIF"), "clip.GIF");
    assert_eq!(gif_name("clip.gif.png"), "clip.gif.png.gif");
    assert_eq!(gif_name("gif"), "gif.gif");
    assert_eq!(gif_name(".gif"), ".gif");
    assert_eq!(gif_name("a b"), "a b.gif");
}

#[test]
fn suffix_is_found_like_in_lower_case() {
    for name in ["x.gİf", "x.Gif", "x.giF", "x.gıf", "é.gIf", "x\u{212a}.gif", "ΑΣ.GIF"] {
        let lower = name.to_lowercase().ends_with(".gif");
        let expected = if lower { name.to_string() } else { format!("{}.gif", name) };
        assert_eq!(gif_name(name), expected);
    }
}

#[test]
fn made_names_are_settled() {
    for entered in ["", " x ", "y.GIF", "\u{3000}z\u{3000}"] {
        let name = gif_name(entered);
        assert_eq!(gif_name(&name), name);
    }
}

#[test]
fn taken_names_are_numbered() {
    let mut names = FreeName::start(Some("clip".to_string()));
    assert!(names.has_next());
    assert_eq!(names.next_name(), "clip_1.gif");
    assert_eq!(names.next_name(), "clip_2.gif");
    for _ in 0..7 {
        names.next_name();
    }
    assert_eq!(names.next_name(), "clip_10.gif");
    assert_eq!(FreeName::start(None).next_name(), "orochi_1.gif");
}

#[test]
fn very_high_frame_is_brought_to_size() {
    let frames = vec![solid(4, 4, [1, 1, 1, 255]), solid(1, 2097152, [7, 7, 7, 255])];
    assert!(can_generate(&frames, 0, 0));
    let gif = generate_gif(&frames, 50, 0, 0);
    assert_eq!(gif.error, None);
    assert_eq!(
        frames_of(&gif.bytes),
        vec![(4, 4, 50, [1, 1, 1, 255]), (4, 4, 50, [7, 7, 7, 255])]
    );
}

#[test]
fn least_free_name_is_kept() {
    let existing = ["clip.gif", "clip_1.gif", "clip_2.gif", "clip_4.gif"];
    let mut name = gif_name("clip");
    let mut search = FreeName::start(Some("clip".to_string()));
    while let Some(next) = search.answer(existing.contains(&name.as_str())) {
        name = next;
    }
    assert_eq!(name, "clip_3.gif");
    assert_eq!(search.answer(false), None);
    assert_eq!(search.answer(true), Some("clip_4.gif".to_string()));
    assert_eq!(FreeName::start(None).answer(false), None);
}

#[test]
fn output_needs_frames_and_a_folder() {
    let none = Err("No frames captured yet.".to_string());
    assert_eq!(check_output(&vec![], true), none);
    assert_eq!(check_output(&vec![], false), none);
    let frames = vec![solid(1, 1, [0; 4])];
    assert_eq!(check_output(&frames, false), Err("Output folder does not exist.".to_string()));
    assert_eq!(check_output(&frames, true), Ok(()));
}

#[test]
fn frame_is_stretched_beyond_the_format() {
    let frames = vec![solid(1, 1048600, [1, 1, 1, 255]), solid(1, 3, [2, 2, 2, 255])];
    assert!(can_generate(&frames, 0, 0));
    let gif = generate_gif(&frames, 50, 0, 0);
    assert_eq!(gif.error, generate_gif(&vec![solid(70000, 1, [1; 4])], 50, 0, 0).error);
    assert!(gif.error.is_some());
}
