use orochi::monitors::{
    capture_monitor, capture_primary, desktop_can_fit, label_size, monitor_size, pick_monitor, primary_monitor,
    virtual_desktop_bounds, Bounds, Monitor,
};

fn monitor(x: i32, y: i32, primary: bool, w: u32, h: u32) -> Monitor {
    Monitor { x: Some(x), y: Some(y), primary: Some(primary), width: Ok(w), height: Ok(h) }
}

fn two() -> Vec<Monitor> {
    vec![monitor(-1920, 0, false, 1920, 1080), monitor(0, 0, true, 2560, 1440)]
}

#[test]
fn monitor_at_the_corner_is_picked() {
    assert_eq!(pick_monitor(&two(), -1920, 0), Some(0));
    assert_eq!(pick_monitor(&two(), 0, 0), Some(1));
}

#[test]
fn primary_then_first_monitor_is_the_fallback() {
    assert_eq!(pick_monitor(&two(), 5, 5), Some(1));
    let plain = vec![monitor(1, 1, false, 1, 1), monitor(2, 2, false, 1, 1)];
    assert_eq!(pick_monitor(&plain, 5, 5), Some(0));
    assert_eq!(primary_monitor(&plain), Some(0));
    assert_eq!(pick_monitor(&[], 5, 5), None);
    assert_eq!(primary_monitor(&[]), None);
}

#[test]
fn unknown_facts_match_nothing() {
    let unknown = Monitor { x: None, y: Some(7), primary: None, width: Ok(1), height: Ok(1) };
    let half = Monitor { x: Some(7), y: None, primary: Some(false), width: Ok(1), height: Ok(1) };
    let all = vec![unknown, half, monitor(3, 3, true, 1, 1), monitor(7, 7, false, 1, 1)];
    assert_eq!(pick_monitor(&all, 7, 7), Some(3));
    assert_eq!(pick_monitor(&all, 8, 8), Some(2));
}

#[test]
fn first_of_equal_monitors_is_picked() {
    let twins = vec![monitor(0, 0, true, 1, 1), monitor(0, 0, true, 2, 2)];
    assert_eq!(pick_monitor(&twins, 0, 0), Some(0));
    assert_eq!(pick_monitor(&twins, 9, 9), Some(0));
}

#[test]
fn capture_needs_a_monitor() {
    assert_eq!(capture_monitor(&Ok(two()), -1920, 0), Ok(0));
    assert_eq!(capture_primary(&Ok(two())), Ok(1));
    assert_eq!(capture_monitor(&Ok(vec![]), 0, 0), Err("No monitor found".to_string()));
    assert_eq!(capture_primary(&Ok(vec![])), Err("No monitor found".to_string()));
    assert_eq!(capture_monitor(&Err("denied".to_string()), 0, 0), Err("denied".to_string()));
    assert_eq!(capture_primary(&Err("denied".to_string())), Err("denied".to_string()));
}

#[test]
fn size_is_that_of_the_picked_monitor() {
    assert_eq!(monitor_size(&Ok(two()), -1920, 0), Ok((1920, 1080)));
    assert_eq!(monitor_size(&Ok(two()), 4, 4), Ok((2560, 1440)));
    assert_eq!(monitor_size(&Ok(vec![]), 4, 4), Err("No monitor found".to_string()));
    let mut odd = monitor(0, 0, true, 5, 5);
    odd.height = Err("no height".to_string());
    assert_eq!(monitor_size(&Ok(vec![odd]), 0, 0), Err("no height".to_string()));
    let mut odd = monitor(0, 0, true, 5, 5);
    odd.width = Err("no width".to_string());
    odd.height = Err("no height".to_string());
    assert_eq!(monitor_size(&Ok(vec![odd]), 0, 0), Err("no width".to_string()));
    assert_eq!(label_size(&Ok(two()), 0, 0), (2560, 1440));
    assert_eq!(label_size(&Err("denied".to_string()), 0, 0), (0, 0));
}

#[test]
fn desktop_spans_all_monitors() {
    let listing = Ok(vec![
        monitor(-1920, 200, false, 1920, 1080),
        monitor(0, 0, true, 2560, 1440),
        monitor(2560, -300, false, 1080, 1920),
    ]);
    assert_eq!(
        virtual_desktop_bounds(&listing),
        Bounds { x: -1920, y: -300, w: 5560, h: 1920 }
    );
}

#[test]
fn desktop_has_a_size_without_monitors() {
    let usual = Bounds { x: 0, y: 0, w: 1920, h: 1080 };
    assert_eq!(virtual_desktop_bounds(&Ok(vec![])), usual);
    assert_eq!(virtual_desktop_bounds(&Err("denied".to_string())), usual);
}

#[test]
fn desktop_is_never_empty() {
    let mut blind = monitor(40, 50, true, 9, 9);
    blind.width = Err("no width".to_string());
    blind.height = Err("no height".to_string());
    assert_eq!(
        virtual_desktop_bounds(&Ok(vec![blind])),
        Bounds { x: 40, y: 50, w: 1, h: 1 }
    );
    let nowhere =
        Monitor { x: None, y: None, primary: None, width: Ok(800), height: Ok(600) };
    assert_eq!(
        virtual_desktop_bounds(&Ok(vec![nowhere])),
        Bounds { x: 0, y: 0, w: 800, h: 600 }
    );
}

#[test]
fn desktop_size_has_limits() {
    assert!(desktop_can_fit(&Ok(two())));
    assert!(desktop_can_fit(&Ok(vec![])));
    assert!(desktop_can_fit(&Err("denied".to_string())));
    assert!(desktop_can_fit(&Ok(vec![monitor(i32::MAX - 5, 0, true, 5, 1)])));
    assert!(!desktop_can_fit(&Ok(vec![monitor(i32::MAX - 5, 0, true, 6, 1)])));
    assert!(!desktop_can_fit(&Ok(vec![monitor(0, i32::MAX, true, 1, 1)])));
    let far = vec![monitor(-2000000000, 0, true, 1, 1), monitor(2000000000, 0, true, 1, 1)];
    assert!(!desktop_can_fit(&Ok(far)));
    assert!(!desktop_can_fit(&Ok(vec![monitor(-1, 0, true, 1 << 31, 1)])));
}

#[test]
fn every_monitor_lies_on_the_desktop() {
    let listing = Ok(vec![
        monitor(-100, 7, false, 50, 60),
        monitor(300, -20, true, 10, 10),
        monitor(0, 0, false, 200, 5),
    ]);
    let b = virtual_desktop_bounds(&listing);
    for m in listing.unwrap() {
        let (x, y) = (m.x.unwrap(), m.y.unwrap());
        assert!(b.x <= x && x + m.width.unwrap() as i32 <= b.x + b.w as i32);
        assert!(b.y <= y && y + m.height.unwrap() as i32 <= b.y + b.h as i32);
    }
}

#[test]
fn desktop_touches_monitors_on_every_side() {
    let all = vec![
        monitor(-100, 7, false, 50, 60),
        monitor(300, -20, true, 10, 10),
        monitor(0, 0, false, 200, 5),
    ];
    let b = virtual_desktop_bounds(&Ok(all));
    assert_eq!(b, Bounds { x: -100, y: -20, w: 410, h: 87 });
    let one = virtual_desktop_bounds(&Ok(vec![monitor(5, 6, true, 1, 0)]));
    assert_eq!(one, Bounds { x: 5, y: 6, w: 1, h: 1 });
}
