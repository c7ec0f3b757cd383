use orochi::cursor::{read_request, CursorRequest, CursorState, CursorWatch};
use orochi::json::{Document, Field};
use orochi::monitors::{Bounds, Monitor};

fn asks(config: &str) -> (bool, bool) {
    let mut state = CursorState::default();
    let r = state.cursor_set(config.to_string());
    assert_eq!(state.cursor_get_config(), config);
    (r.enabled, r.hide_real)
}

fn request(enabled: bool, hide_real: bool) -> CursorRequest {
    CursorRequest { enabled, hide_real }
}

#[test]
fn overlay_starts_idle() {
    let state = CursorState::default();
    assert!(!state.tracking && !state.hiding);
    assert_eq!(state.origin, (0, 0));
    assert_eq!(state.cursor_get_config(), "null");
    assert!(!state.restore_on_exit());
}

#[test]
fn flags_are_read_from_the_configuration() {
    assert_eq!(asks("{\"enabled\":true,\"hideReal\":true,\"size\":32}"), (true, true));
    assert_eq!(asks("{\"enabled\":true}"), (true, false));
    assert_eq!(asks("{\"hideReal\":true}"), (false, true));
    assert_eq!(asks("{\"enabled\":1,\"hideReal\":\"true\"}"), (false, false));
    assert_eq!(asks("{\"enabled\":null}"), (false, false));
    assert_eq!(asks("null"), (false, false));
    assert_eq!(asks("[true]"), (false, false));
    assert_eq!(asks("no json"), (false, false));
}

#[test]
fn request_is_followed() {
    let mut state = CursorState::default();
    assert_eq!(state.cursor_apply(request(true, true), Ok(())), Ok(Some(true)));
    assert!(state.tracking && state.hiding && state.restore_on_exit());
    assert_eq!(state.cursor_apply(request(true, true), Ok(())), Ok(None));
    assert_eq!(state.cursor_apply(request(true, false), Ok(())), Ok(Some(false)));
    assert!(state.tracking && !state.hiding);
    assert_eq!(state.cursor_apply(request(false, true), Ok(())), Ok(None));
    assert!(!state.tracking && !state.hiding);
}

#[test]
fn turning_the_overlay_off_shows_the_cursor() {
    let mut state = CursorState::default();
    assert_eq!(state.cursor_apply(request(true, true), Ok(())), Ok(Some(true)));
    assert_eq!(
        state.cursor_apply(request(false, true), Err("ignored".to_string())),
        Ok(Some(false))
    );
    assert!(!state.restore_on_exit());
}

#[test]
fn failed_window_changes_nothing() {
    let mut state = CursorState::default();
    assert_eq!(
        state.cursor_apply(request(true, true), Err("no window".to_string())),
        Err("no window".to_string())
    );
    assert!(!state.tracking && !state.hiding);
}

#[test]
fn overlay_window_spans_the_desktop() {
    let listing = Ok(vec![Monitor {
        x: Some(-10),
        y: Some(20),
        primary: Some(true),
        width: Ok(640),
        height: Ok(480),
    }]);
    let bounds = Bounds { x: -10, y: 20, w: 640, h: 480 };
    assert_eq!(CursorState::ensure_cursor_window(false, &listing), Some(bounds));
    assert_eq!(CursorState::ensure_cursor_window(true, &listing), None);
    let mut state = CursorState::default();
    state.window_opened(bounds);
    assert_eq!(state.origin, (-10, 20));
}

#[test]
fn moved_cursor_is_reported_relative_to_the_overlay() {
    let mut watch = CursorWatch::start();
    assert_eq!(watch.last, (i32::MIN, i32::MIN));
    let t = watch.tick(true, Some((5, 6)), (-10, 20));
    assert_eq!((t.emit, t.sleep_ms), (Some((15, -14)), 8));
    let t = watch.tick(true, Some((5, 6)), (-10, 20));
    assert_eq!((t.emit, t.sleep_ms), (None, 8));
    let t = watch.tick(true, Some((5, 7)), (0, 0));
    assert_eq!(t.emit, Some((5, 7)));
}

#[test]
fn untracked_cursor_is_not_reported() {
    let mut watch = CursorWatch::start();
    let t = watch.tick(false, Some((5, 6)), (0, 0));
    assert_eq!((t.emit, t.sleep_ms), (None, 80));
    assert_eq!(watch.last, (i32::MIN, i32::MIN));
    let t = watch.tick(true, None, (0, 0));
    assert_eq!((t.emit, t.sleep_ms), (None, 8));
}

#[test]
fn flags_are_read_from_a_document() {
    let on = Field { text: None, flag: Some(true), items: None };
    let off = Field { text: Some("true".to_string()), flag: None, items: None };
    let document = Document {
        fields: Some(vec![("hideReal".to_string(), on), ("enabled".to_string(), off)]),
    };
    assert_eq!(read_request(&document), request(false, true));
    assert_eq!(read_request(&Document { fields: None }), request(false, false));
}

#[test]
fn pointer_is_visible_after_every_run() {
    for run in 0u32..4096 {
        let mut state = CursorState::default();
        let mut blank = false;
        for k in 0..4 {
            let bits = run >> (3 * k);
            let window = if bits & 4 == 0 { Ok(()) } else { Err("no window".to_string()) };
            let r = state.cursor_apply(request(bits & 1 != 0, bits & 2 != 0), window);
            if let Ok(Some(b)) = r {
                blank = b;
            }
            assert_eq!(state.hiding, blank);
        }
        if state.restore_on_exit() {
            blank = false;
        }
        assert!(!blank);
    }
}
