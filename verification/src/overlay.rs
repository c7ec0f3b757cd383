//! The windows in which a region is drawn, one per monitor.

use crate::text::{
    begins_with, decimal, decimal_reads_back, prefix_stands_at_the_start, push_decimal, starts_with,
};
use vstd::prelude::*;

verus! {

pub open spec fn label_views(labels: Seq<String>) -> Seq<Seq<char>> {
    labels.map_values(|l: String| l@)
}

/// A window with this label is one for drawing a region.
pub open spec fn is_overlay(label: Seq<char>) -> bool {
    begins_with(label, "overlay"@)
}

/// The places of the overlay windows among some windows, in order.
pub open spec fn overlays_among(labels: Seq<Seq<char>>) -> Seq<int>
    decreases labels.len(),
{
    if labels.len() == 0 {
        Seq::empty()
    } else {
        let before = overlays_among(labels.drop_last());
        if is_overlay(labels.last()) {
            before.push(labels.len() - 1)
        } else {
            before
        }
    }
}

pub open spec fn index_views(indices: Seq<usize>) -> Seq<int> {
    indices.map_values(|i: usize| i as int)
}

/// The windows to close so that no overlay is left, out of all windows by their labels.
pub fn close_overlays(labels: &Vec<String>) -> (r: Vec<usize>)
    ensures
        index_views(r@) == overlays_among(label_views(labels@)),
{
    let ghost all = label_views(labels@);
    let mut out: Vec<usize> = Vec::new();
    let mut i: usize = 0;
    assert(all.take(0) =~= Seq::empty());
    assert(index_views(out@) =~= Seq::empty());
    while i < labels.len()
        invariant
            i <= labels.len(),
            all == label_views(labels@),
            index_views(out@) == overlays_among(all.take(i as int)),
        decreases labels.len() - i,
    {
        assert(all.take(i + 1).drop_last() =~= all.take(i as int));
        assert(all[i as int] == labels@[i as int]@);
        let ghost before = out@;
        if starts_with(labels[i].as_str(), "overlay") {
            out.push(i);
            assert(index_views(out@) =~= index_views(before).push(i as int));
        }
        i = i + 1;
    }
    assert(all.take(all.len() as int) =~= all);
    out
}

/// A monitor as the window system places it: its corner and its size in physical pixels.
#[derive(Clone, Copy, Debug, PartialEq, Eq, Structural)]
pub struct Screen {
    pub x: i32,
    pub y: i32,
    pub width: u32,
    pub height: u32,
}

/// A window to open over a monitor.
#[derive(Debug)]
pub struct OverlayWindow {
    pub label: String,
    pub place: Screen,
    pub focused: bool,
}

/// The model of a window to open.
#[verifier::ext_equal]
pub struct OverlayView {
    pub label: Seq<char>,
    pub place: Screen,
    pub focused: bool,
}

impl View for OverlayWindow {
    type V = OverlayView;

    open spec fn view(&self) -> OverlayView {
        OverlayView { label: self.label@, place: self.place, focused: self.focused }
    }
}

/// How the selection of a region goes on: an overlay that is open gets the focus, or overlays
/// are opened.
#[derive(Debug)]
pub enum Selection {
    Focus(usize),
    Open(Vec<OverlayWindow>),
}

/// The model of a selection.
pub enum SelectionView {
    Focus(int),
    Open(Seq<OverlayView>),
}

pub open spec fn window_views(windows: Seq<OverlayWindow>) -> Seq<OverlayView> {
    windows.map_values(|w: OverlayWindow| w@)
}

impl View for Selection {
    type V = SelectionView;

    open spec fn view(&self) -> SelectionView {
        match self {
            Selection::Focus(i) => SelectionView::Focus(*i as int),
            Selection::Open(windows) => SelectionView::Open(window_views(windows@)),
        }
    }
}

/// The label of the overlay on monitor `i`.
pub open spec fn overlay_label(i: nat) -> Seq<char> {
    "overlay-"@ + decimal(i)
}

/// One overlay per monitor, placed exactly over it; the first has the focus.
pub open spec fn overlays_for(screens: Seq<Screen>) -> Seq<OverlayView> {
    Seq::new(
        screens.len(),
        |i: int|
            OverlayView { label: overlay_label(i as nat), place: screens[i], focused: i == 0 },
    )
}

/// How a selection goes: an open overlay is used again, and else every monitor gets one. It
/// fails without the main window, without an answer on the monitors, and without monitors.
pub open spec fn selection(
    labels: Seq<Seq<char>>,
    screens: Option<Result<Seq<Screen>, Seq<char>>>,
) -> Result<SelectionView, Seq<char>> {
    if overlays_among(labels).len() > 0 {
        Ok(SelectionView::Focus(overlays_among(labels)[0]))
    } else {
        match screens {
            None => Err("no main window"@),
            Some(Err(e)) => Err(e),
            Some(Ok(screens)) => if screens.len() == 0 {
                Err("No monitors found"@)
            } else {
                Ok(SelectionView::Open(overlays_for(screens)))
            },
        }
    }
}

pub open spec fn screens_view(screens: Option<Result<Vec<Screen>, String>>) -> Option<
    Result<Seq<Screen>, Seq<char>>,
> {
    match screens {
        None => None,
        Some(Err(e)) => Some(Err(e@)),
        Some(Ok(screens)) => Some(Ok(screens@)),
    }
}

pub open spec fn selection_view(r: Result<Selection, String>) -> Result<
    SelectionView,
    Seq<char>,
> {
    match r {
        Ok(s) => Ok(s@),
        Err(e) => Err(e@),
    }
}

/// Starts the selection of a region. `labels` are those of the open windows, and `screens` is
/// what the main window answered when asked for the monitors, `None` where there is no main
/// window.
pub fn select_region(labels: &Vec<String>, screens: Option<Result<Vec<Screen>, String>>) -> (r:
    Result<Selection, String>)
    ensures
        selection_view(r) == selection(label_views(labels@), screens_view(screens)),
{
    let existing = close_overlays(labels);
    if existing.len() > 0 {
        assert(index_views(existing@)[0] == existing@[0] as int);
        return Ok(Selection::Focus(existing[0]));
    }
    assert(index_views(existing@).len() == 0);
    let screens: Vec<Screen> = match screens {
        None => return Err("no main window".to_string()),
        Some(Err(e)) => return Err(e),
        Some(Ok(screens)) => screens,
    };
    if screens.len() == 0 {
        return Err("No monitors found".to_string());
    }
    let mut windows: Vec<OverlayWindow> = Vec::new();
    let mut i: usize = 0;
    assert(window_views(windows@) =~= overlays_for(screens@).take(0));
    while i < screens.len()
        invariant
            i <= screens.len(),
            window_views(windows@) == overlays_for(screens@).take(i as int),
        decreases screens.len() - i,
    {
        let mut label: String = "overlay-".to_string();
        push_decimal(&mut label, i as u64);
        assert(label@ == overlay_label(i as nat));
        let ghost before = windows@;
        windows.push(OverlayWindow { label, place: screens[i], focused: i == 0 });
        proof {
            assert(before.len() == window_views(before).len());
            let w = windows@[i as int];
            assert(w@ == overlays_for(screens@)[i as int]);
            assert(window_views(windows@) =~= window_views(before).push(w@));
            assert(overlays_for(screens@).take(i + 1) =~= overlays_for(screens@).take(
                i as int,
            ).push(w@));
        }
        i = i + 1;
    }
    assert(overlays_for(screens@).take(screens@.len() as int) =~= overlays_for(screens@));
    Ok(Selection::Open(windows))
}

/// Every overlay that is opened is one that closing the overlays closes, no two of them have the
/// same label, each lies over its own monitor, and exactly the first has the focus.
pub proof fn overlays_are_closed_again(screens: Seq<Screen>, i: int, j: int)
    requires
        0 <= i < screens.len(),
        0 <= j < screens.len(),
    ensures
        ({
            let windows = overlays_for(screens);
            &&& windows.len() == screens.len()
            &&& is_overlay(windows[i].label)
            &&& windows[i].place == screens[i]
            &&& windows[i].label == windows[j].label ==> i == j
            &&& windows[i].focused <==> i == 0
        }),
{
    reveal_strlit("overlay");
    reveal_strlit("overlay-");
    let a = overlay_label(i as nat);
    let b = overlay_label(j as nat);
    assert(a.take(7) =~= "overlay"@);
    assert(a.skip(8) =~= decimal(i as nat));
    assert(b.skip(8) =~= decimal(j as nat));
    decimal_reads_back(i as nat);
    decimal_reads_back(j as nat);
}

/// Closing leaves no overlay: a window is closed exactly where its label is that of an overlay,
/// and each of them once.
pub proof fn every_overlay_is_closed(labels: Seq<Seq<char>>, i: int)
    ensures
        overlays_among(labels).contains(i) <==> 0 <= i < labels.len() && is_overlay(labels[i]),
        overlays_among(labels).no_duplicates(),
    decreases labels.len(),
{
    if labels.len() > 0 {
        let rest = labels.drop_last();
        let before = overlays_among(rest);
        let all = overlays_among(labels);
        every_overlay_is_closed(rest, i);
        every_overlay_is_closed(rest, labels.len() - 1);
        if is_overlay(labels.last()) {
            assert(all == before.push(labels.len() - 1));
            assert(all[all.len() - 1] == labels.len() - 1);
            if before.contains(i) {
                let k = choose|k: int| 0 <= k < before.len() && before[k] == i;
                assert(all[k] == i);
            }
            if all.contains(i) {
                let k = choose|k: int| 0 <= k < all.len() && all[k] == i;
                if k < before.len() {
                    assert(before[k] == i);
                }
            }
        }
    }
}

/// The corner of the monitor that a selection was drawn on: that of the overlay's monitor, or
/// else the overlay's own position, or else the origin.
pub fn region_origin(monitor: Option<(i32, i32)>, outer: Option<(i32, i32)>) -> (r: (i32, i32))
    ensures
        r == (match monitor {
            Some(corner) => corner,
            None => match outer {
                Some(corner) => corner,
                None => (0i32, 0i32),
            },
        }),
{
    match monitor {
        Some(corner) => corner,
        None => match outer {
            Some(corner) => corner,
            None => (0, 0),
        },
    }
}

// ---------- How a selection starts ----------

/// An overlay is told by its label: the seven characters `overlay` at its start.
pub proof fn overlay_is_told_by_its_label(label: Seq<char>)
    ensures
        is_overlay(label) <==> label.len() >= 7 && label[0] == 'o' && label[1] == 'v' && label[2]
            == 'e' && label[3] == 'r' && label[4] == 'l' && label[5] == 'a' && label[6] == 'y',
{
    reveal_strlit("overlay");
    prefix_stands_at_the_start(label, "overlay"@);
    if is_overlay(label) {
        let p = "overlay"@;
        assert(label[0] == p[0] && label[1] == p[1] && label[2] == p[2] && label[3] == p[3]
            && label[4] == p[4] && label[5] == p[5] && label[6] == p[6]);
    }
}

/// An overlay that is open is used again: where a window's label is that of an overlay, the first
/// such window gets the focus and no window is opened, whatever is known of the monitors. Windows
/// are opened only where no label is that of an overlay: then there is a main window whose answer
/// lists monitors, and each of them gets one; else the selection fails with the reason.
pub proof fn open_overlay_is_used_again(
    labels: Seq<Seq<char>>,
    screens: Option<Result<Seq<Screen>, Seq<char>>>,
    i: int,
)
    ensures
        0 <= i < labels.len() && is_overlay(labels[i]) && (forall|j: int|
            0 <= j < i ==> !is_overlay(#[trigger] labels[j])) ==> selection(labels, screens) == Ok::<
            SelectionView,
            Seq<char>,
        >(SelectionView::Focus(i)),
        (forall|j: int| 0 <= j < labels.len() ==> !is_overlay(#[trigger] labels[j])) ==> {
            &&& screens is None ==> selection(labels, screens) == Err::<SelectionView, Seq<char>>(
                "no main window"@,
            )
            &&& screens matches Some(Err(e)) ==> selection(labels, screens) == Err::<
                SelectionView,
                Seq<char>,
            >(e)
            &&& screens matches Some(Ok(list)) ==> {
                &&& list.len() == 0 ==> selection(labels, screens) == Err::<
                    SelectionView,
                    Seq<char>,
                >("No monitors found"@)
                &&& list.len() > 0 ==> selection(labels, screens) == Ok::<SelectionView, Seq<char>>(
                    SelectionView::Open(overlays_for(list)),
                )
            }
        },
        (selection(labels, screens) is Ok && selection(labels, screens)->Ok_0 is Open) ==> forall|
            j: int,
        |
            0 <= j < labels.len() ==> !is_overlay(#[trigger] labels[j]),
{
    lemma_first_overlay(labels, i);
    if selection(labels, screens) is Ok && selection(labels, screens)->Ok_0 is Open {
        assert forall|j: int| 0 <= j < labels.len() implies !is_overlay(#[trigger] labels[j]) by {
            every_overlay_is_closed(labels, j);
        }
    }
}

proof fn lemma_first_overlay(labels: Seq<Seq<char>>, i: int)
    ensures
        0 <= i < labels.len() && is_overlay(labels[i]) && (forall|j: int|
            0 <= j < i ==> !is_overlay(#[trigger] labels[j])) ==> overlays_among(labels).len() > 0
            && overlays_among(labels)[0] == i,
        (forall|j: int| 0 <= j < labels.len() ==> !is_overlay(#[trigger] labels[j]))
            ==> overlays_among(labels).len() == 0,
    decreases labels.len(),
{
    if labels.len() > 0 {
        let rest = labels.drop_last();
        lemma_first_overlay(rest, i);
        assert forall|j: int| 0 <= j < rest.len() implies #[trigger] rest[j] == labels[j] by {}
        assert(labels[labels.len() - 1] == labels.last());
    }
}

/// The overlays are closed in the order of the windows.
pub proof fn overlays_are_closed_in_order(labels: Seq<Seq<char>>, a: int, b: int)
    requires
        0 <= a < b < overlays_among(labels).len(),
    ensures
        overlays_among(labels)[a] < overlays_among(labels)[b] < labels.len(),
    decreases labels.len(),
{
    let rest = labels.drop_last();
    let before = overlays_among(rest);
    if b < before.len() {
        overlays_are_closed_in_order(rest, a, b);
    } else {
        every_overlay_is_closed(rest, before[a]);
        assert(before.contains(before[a]));
    }
}

/// The overlay on monitor `i` has the label `overlay-` and the monitor's number.
pub proof fn overlay_is_labelled_by_its_monitor(screens: Seq<Screen>, i: int)
    requires
        0 <= i < screens.len(),
    ensures
        overlays_for(screens).len() == screens.len(),
        overlays_for(screens)[i].label == "overlay-"@ + decimal(i as nat),
        overlays_for(screens)[i].place.x == screens[i].x,
        overlays_for(screens)[i].place.y == screens[i].y,
        overlays_for(screens)[i].place.width == screens[i].width,
        overlays_for(screens)[i].place.height == screens[i].height,
        overlays_for(screens)[i].focused == (i == 0),
{
}

/// Labels, windows and selections are seen as they are.
pub proof fn selection_is_seen_as_it_is(
    labels: Seq<String>,
    windows: Vec<OverlayWindow>,
    list: Vec<Screen>,
    e: String,
    k: usize,
    i: int,
)
    ensures
        label_views(labels).len() == labels.len(),
        0 <= i < labels.len() ==> label_views(labels)[i] == labels[i]@,
        Selection::Focus(k)@ == SelectionView::Focus(k as int),
        Selection::Open(windows)@ is Open,
        Selection::Open(windows)@->Open_0.len() == windows@.len(),
        0 <= i < windows@.len() ==> {
            let v = Selection::Open(windows)@->Open_0[i];
            v.label == windows@[i].label@ && v.place == windows@[i].place && v.focused
                == windows@[i].focused
        },
        selection_view(Ok(Selection::Focus(k))) == Ok::<SelectionView, Seq<char>>(
            SelectionView::Focus(k as int),
        ),
        selection_view(Ok(Selection::Open(windows))) == Ok::<SelectionView, Seq<char>>(
            Selection::Open(windows)@,
        ),
        selection_view(Err(e)) == Err::<SelectionView, Seq<char>>(e@),
        screens_view(None) is None,
        screens_view(Some(Err(e))) == Some(Err::<Seq<Screen>, Seq<char>>(e@)),
        screens_view(Some(Ok(list))) == Some(Ok::<Seq<Screen>, Seq<char>>(list@)),
        index_views(seq![k]) == seq![k as int],
{
    assert(index_views(seq![k]) =~= seq![k as int]);
}

/// Positions are seen as numbers, each at its place.
pub proof fn positions_are_seen_in_order(indices: Seq<usize>, i: int)
    requires
        0 <= i < indices.len(),
    ensures
        index_views(indices).len() == indices.len(),
        index_views(indices)[i] == indices[i],
{
}

} // verus!
