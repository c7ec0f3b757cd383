use orochi::winutil::{
    any_slot_set, clipboard_get_text, clipboard_set_text, key_event, make_cursor,
    restore_system_cursors, send_paste, set_system_cursor_image, InputStep, KeyEvent, OCR_IDS,
};

#[test]
fn no_clipboard_gives_no_text() {
    assert_eq!(clipboard_get_text(None), None);
}

#[test]
fn clipboard_text_ends_at_the_terminator() {
    let units: Vec<u16> = vec![104, 105, 0, 120, 121, 0];
    assert_eq!(clipboard_get_text(Some(&units)), Some("hi".to_string()));
    assert_eq!(clipboard_get_text(Some(&[])), Some(String::new()));
    assert_eq!(clipboard_get_text(Some(&[0, 65])), Some(String::new()));
    assert_eq!(clipboard_get_text(Some(&[65, 66])), Some("AB".to_string()));
}

#[test]
fn broken_surrogates_read_as_replacement_characters() {
    for units in [
        vec![0xD83D_u16, 0xDE00],
        vec![0xD83D],
        vec![0xDE00],
        vec![0xD83D, 0xD83D, 0xDE00],
        vec![0xDE00, 0xD83D],
        vec![65, 0xD800, 66],
        vec![0xDBFF, 0xDFFF],
        vec![0xD7FF, 0xE000, 0xFFFF],
        vec![0xD800, 0xDBFF, 0xDC00, 0xDC00],
    ] {
        assert_eq!(clipboard_get_text(Some(&units)), Some(String::from_utf16_lossy(&units)));
    }
}

#[test]
fn clipboard_block_is_terminated_utf16() {
    let block = clipboard_set_text("aß\u{1F600}");
    assert_eq!(block.units, vec![0x61, 0xDF, 0xD83D, 0xDE00, 0]);
    assert_eq!(block.bytes, 10);
    let empty = clipboard_set_text("");
    assert_eq!(empty.units, vec![0]);
    assert_eq!(empty.bytes, 2);
    let text = "\u{10000}\u{10FFFF}\u{FFFF}\u{E000}\u{D7FF}";
    let mut expected: Vec<u16> = text.encode_utf16().collect();
    expected.push(0);
    assert_eq!(clipboard_set_text(text).units, expected);
}

#[test]
fn clipboard_reads_back_what_was_put_there() {
    for text in ["", "plain", "zwei\r\nZeilen", "\u{1F600}\u{10FFFF}\u{FFFD}"] {
        let mut units = clipboard_set_text(text).units;
        units.extend_from_slice(&[77, 78, 0xD800]);
        assert_eq!(clipboard_get_text(Some(&units)), Some(text.to_string()));
    }
    let units = clipboard_set_text("cut\0off").units;
    assert_eq!(clipboard_get_text(Some(&units)), Some("cut".to_string()));
}

#[test]
fn key_events_press_and_release() {
    assert_eq!(key_event(0x56, false), KeyEvent { vk: 0x56, scan: 0, flags: 0, time: 0 });
    assert_eq!(key_event(0x11, true), KeyEvent { vk: 0x11, scan: 0, flags: 2, time: 0 });
}

#[test]
fn paste_releases_modifiers_then_presses_control_v() {
    let steps = send_paste();
    assert_eq!(steps.len(), 7);
    for (i, vk) in [0x11u16, 0x12, 0x10, 0x5B, 0x5C].iter().enumerate() {
        match &steps[i] {
            InputStep::Send(batch) => assert_eq!(batch, &vec![key_event(*vk, true)]),
            InputStep::Sleep(_) => panic!("a release was expected"),
        }
    }
    assert!(matches!(steps[5], InputStep::Sleep(15)));
    match &steps[6] {
        InputStep::Send(batch) => assert_eq!(
            batch,
            &vec![
                key_event(0x11, false),
                key_event(0x56, false),
                key_event(0x56, true),
                key_event(0x11, true),
            ]
        ),
        InputStep::Sleep(_) => panic!("a key stroke was expected"),
    }
}

#[test]
fn paste_leaves_no_key_down() {
    let mut held: Vec<u16> = vec![0x10, 0x12, 0x41];
    for step in send_paste() {
        if let InputStep::Send(batch) = step {
            for e in batch {
                held.retain(|vk| *vk != e.vk);
                if e.flags == 0 {
                    held.push(e.vk);
                }
            }
        }
    }
    assert_eq!(held, vec![0x41]);
}

#[test]
fn cursor_pixels_are_premultiplied_bgra() {
    let rgba = [200, 100, 50, 128, 10, 20, 30, 255, 9, 9, 9, 0, 255, 255, 255, 1, 77];
    let image = make_cursor(&rgba, 2, 2, 1, 0).unwrap();
    assert_eq!((image.width, image.height), (2, -2));
    assert_eq!((image.planes, image.bit_count), (1, 32));
    assert_eq!((image.hx, image.hy), (1, 0));
    assert_eq!(
        image.bgra,
        vec![25, 50, 100, 128, 30, 20, 10, 255, 0, 0, 0, 0, 1, 1, 1, 1]
    );
}

#[test]
fn cursor_needs_all_its_pixels() {
    assert!(make_cursor(&[0; 15], 2, 2, 0, 0).is_none());
    assert!(make_cursor(&[0; 16], 2, 2, 0, 0).is_some());
    assert!(make_cursor(&[0; 16], 0, 2, 0, 0).is_none());
    assert!(make_cursor(&[0; 16], 2, 0, 0, 0).is_none());
    assert!(make_cursor(&[0; 16], u32::MAX, u32::MAX, 0, 0).is_none());
    assert!(make_cursor(&[], 1, 0x8000_0000, 0, 0).is_none());
    assert!(make_cursor(&[0; 16], 0, 0x8000_0000, 0, 0).is_none());
    assert!(set_system_cursor_image(&[], 1, 0x8000_0000, 0, 0).is_none());
}

#[test]
fn cursor_image_goes_to_every_slot() {
    let plan = set_system_cursor_image(&[1, 2, 3, 255], 1, 1, 0, 0).unwrap();
    assert_eq!(plan.slots, OCR_IDS.to_vec());
    assert_eq!(plan.slots.len(), 14);
    assert_eq!(plan.image.bgra, vec![3, 2, 1, 255]);
    assert!(set_system_cursor_image(&[1, 2, 3], 1, 1, 0, 0).is_none());
}

#[test]
fn one_slot_is_enough() {
    assert!(any_slot_set(&[false, true, false]));
    assert!(!any_slot_set(&[false, false]));
    assert!(!any_slot_set(&[]));
}

#[test]
fn cursors_are_restored_by_a_system_parameter() {
    let call = restore_system_cursors();
    assert_eq!((call.action, call.param, call.flags), (0x57, 0, 2));
}
