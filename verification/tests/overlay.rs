use orochi::overlay::{close_overlays, region_origin, select_region, Screen, Selection};

fn labels(names: &[&str]) -> Vec<String> {
    names.iter().map(|n| n.to_string()).collect()
}

fn screen(x: i32, y: i32, width: u32, height: u32) -> Screen {
    Screen { x, y, width, height }
}

#[test]
fn overlays_are_found_by_their_labels() {
    let all = labels(&["main", "overlay-0", "cursor", "overlay", "overlayed", "Overlay-1"]);
    assert_eq!(close_overlays(&all), vec![1, 3, 4]);
    assert_eq!(close_overlays(&labels(&["main"])), Vec::<usize>::new());
    assert_eq!(close_overlays(&vec![]), Vec::<usize>::new());
}

#[test]
fn open_overlay_gets_the_focus() {
    let r = select_region(&labels(&["main", "overlay-1", "overlay-0"]), None).unwrap();
    assert!(matches!(r, Selection::Focus(1)));
}

#[test]
fn every_monitor_gets_an_overlay() {
    let screens = vec![screen(0, 0, 1920, 1080), screen(-800, 40, 800, 600)];
    match select_region(&labels(&["main"]), Some(Ok(screens))).unwrap() {
        Selection::Open(windows) => {
            assert_eq!(windows.len(), 2);
            assert_eq!(windows[0].label, "overlay-0");
            assert_eq!(windows[1].label, "overlay-1");
            assert_eq!(windows[0].place, screen(0, 0, 1920, 1080));
            assert_eq!(windows[1].place, screen(-800, 40, 800, 600));
            assert!(windows[0].focused && !windows[1].focused);
        }
        Selection::Focus(_) => panic!("windows were expected"),
    }
}

#[test]
fn selection_needs_the_main_window_and_monitors() {
    let open = labels(&["cursor"]);
    assert_eq!(select_region(&open, None).unwrap_err(), "no main window");
    assert_eq!(
        select_region(&open, Some(Err("denied".to_string()))).unwrap_err(),
        "denied"
    );
    assert_eq!(select_region(&open, Some(Ok(vec![]))).unwrap_err(), "No monitors found");
}

#[test]
fn opened_overlays_are_closed_again() {
    let screens: Vec<Screen> = (0..12).map(|i| screen(i, i, 1, 1)).collect();
    match select_region(&vec![], Some(Ok(screens))).unwrap() {
        Selection::Open(windows) => {
            let opened: Vec<String> = windows.into_iter().map(|w| w.label).collect();
            assert_eq!(close_overlays(&opened), (0..12).collect::<Vec<usize>>());
            assert_eq!(opened[11], "overlay-11");
        }
        Selection::Focus(_) => panic!("windows were expected"),
    }
}

#[test]
fn region_belongs_to_the_overlay_monitor() {
    assert_eq!(region_origin(Some((1, 2)), Some((3, 4))), (1, 2));
    assert_eq!(region_origin(None, Some((3, 4))), (3, 4));
    assert_eq!(region_origin(None, None), (0, 0));
}
