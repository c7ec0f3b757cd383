use orochi::frame::{region_label, CapturedFrame, Region, RegionDto};
use orochi::monitors::Monitor;
use orochi::state::{take_shot, AppState};

fn solid(w: u32, h: u32) -> CapturedFrame {
    CapturedFrame { data: vec![255; (4 * w * h) as usize], w, h }
}

fn listing() -> Result<Vec<Monitor>, String> {
    Ok(vec![
        Monitor { x: Some(9), y: Some(9), primary: Some(false), width: Ok(1), height: Ok(1) },
        Monitor { x: Some(0), y: Some(0), primary: Some(true), width: Ok(1), height: Ok(1) },
    ])
}

#[test]
fn state_starts_empty() {
    let mut state = AppState::default();
    let s = state.get_state(None);
    assert_eq!((s.frame_count, s.hotkey.as_str(), s.region), (0, "", None));
    state.setup();
    assert_eq!(state.get_state(None).hotkey, "F8");
}

#[test]
fn region_is_remembered_with_its_monitor() {
    let mut state = AppState::default();
    let half = 0.5f64.to_bits();
    let r = state.submit_region(half, 0, half, half, Some((9, 9)), None);
    assert_eq!(r, Region { fx: half, fy: 0, fw: half, fh: half, mon_x: 9, mon_y: 9 });
    assert_eq!(state.region, Some(r));
    let r = state.submit_region(0, 0, 0, 0, None, Some((-3, 4)));
    assert_eq!((r.mon_x, r.mon_y), (-3, 4));
    let r = state.submit_region(0, 0, 0, 0, None, None);
    assert_eq!((r.mon_x, r.mon_y), (0, 0));
}

#[test]
fn snapshot_shows_the_region_where_one_is_set() {
    let pixels = RegionDto { x: 1, y: 2, w: 3, h: 4 };
    let mut state = AppState::default();
    assert_eq!(state.get_state(Some(pixels)).region, None);
    state.submit_region(0, 0, 0, 0, None, None);
    assert_eq!(state.get_state(Some(pixels)).region, Some(pixels));
}

#[test]
fn region_decides_which_monitor_is_grabbed() {
    let mut state = AppState::default();
    assert_eq!(state.capture_index(&listing()), Ok(1));
    state.submit_region(0, 0, 0, 0, Some((9, 9)), None);
    assert_eq!(state.capture_index(&listing()), Ok(0));
    assert_eq!(state.capture_index(&Ok(vec![])), Err("No monitor found".to_string()));
    assert_eq!(state.capture_index(&Err("denied".to_string())), Err("denied".to_string()));
}

#[test]
fn shot_is_the_region_of_the_monitor() {
    let raw: Vec<u8> = (0..16).collect();
    let whole = take_shot(raw.clone(), 2, 2, None);
    assert_eq!((whole.data, whole.w, whole.h), (raw.clone(), 2, 2));
    let part = take_shot(raw, 2, 2, Some(RegionDto { x: 1, y: 0, w: 1, h: 2 }));
    assert_eq!((part.data, part.w, part.h), (vec![4, 5, 6, 7, 12, 13, 14, 15], 1, 2));
}

#[test]
fn captures_are_counted_and_cleared() {
    let mut state = AppState::default();
    let c = state.do_capture(solid(4, 2), 80);
    assert_eq!(c.count, 1);
    assert!(c.thumb.unwrap().starts_with("data:image/png;base64,"));
    assert_eq!(state.do_capture(solid(1, 1), 160).count, 2);
    assert_eq!((state.frames[0].w, state.frames[1].w), (4, 1));
    state.setup();
    state.set_paste_bindings(vec![]);
    assert_eq!(state.get_state(None).frame_count, 2);
    assert_eq!(state.clear_frames(), 0);
    assert_eq!(state.get_state(None).frame_count, 0);
    assert_eq!(state.hotkey, "F8");
}

#[test]
fn short_buffer_is_stored_without_a_thumbnail() {
    let mut state = AppState::default();
    let c = state.do_capture(CapturedFrame { data: vec![1], w: 5, h: 5 }, 160);
    assert_eq!((c.count, c.thumb), (1, Some(String::new())));
}

#[test]
fn saved_frames_are_let_go() {
    let mut state = AppState::default();
    state.setup();
    state.do_capture(solid(2, 2), 160);
    state.submit_region(1, 2, 3, 4, None, None);
    assert_eq!(state.finish_gif(Some("disk full".to_string())), Err("disk full".to_string()));
    assert_eq!(state.get_state(None).frame_count, 1);
    assert_eq!(state.finish_gif(None), Ok(()));
    let s = state.get_state(None);
    assert_eq!((s.frame_count, s.hotkey.as_str()), (0, "F8"));
    assert_eq!(state.region.unwrap().fw, 3);
}

#[test]
fn later_changes_leave_the_region_on_its_monitor() {
    let mut state = AppState::default();
    state.submit_region(1, 2, 3, 4, Some((9, 9)), Some((0, 0)));
    state.setup();
    state.set_paste_bindings(vec![]);
    state.do_capture(solid(1, 1), 160);
    state.clear_frames();
    assert_eq!(state.capture_index(&listing()), Ok(0));
}

#[test]
fn stored_frame_has_the_size_shown() {
    let region = RegionDto { x: 3, y: 1, w: 3, h: 2 };
    let shown = region_label(5, 4, region);
    let mut state = AppState::default();
    state.do_capture(take_shot(vec![9; 80], 5, 4, Some(region)), 160);
    assert_eq!((state.frames[0].w, state.frames[0].h), (shown.w, shown.h));
    assert_eq!((shown.w, shown.h), (2, 2));
}

#[test]
fn thin_high_frame_is_stored() {
    let mut state = AppState::default();
    let c = state.do_capture(solid(1, 20), 160 * 20);
    assert_eq!(c.count, 1);
    assert!(c.thumb.unwrap().starts_with("data:image/png;base64,"));
    assert_eq!((state.frames[0].w, state.frames[0].h), (1, 20));
}
