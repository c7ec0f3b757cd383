//! The floating cursor overlay: its configuration, its window and what it is told.

use crate::json::{json_document, lookup, parse_document, Document, FieldView};
use crate::monitors::{desktop_bounds, desktop_fits, listed, virtual_desktop_bounds, Bounds, Monitor};
use vstd::prelude::*;

verus! {

/// The pause between two looks at the cursor while it is tracked, in milliseconds.
pub const TRACK_PAUSE: u64 = 8;

/// The pause while it is not tracked, in milliseconds.
pub const IDLE_PAUSE: u64 = 80;

/// The state of the overlay.
#[derive(Debug)]
pub struct CursorState {
    /// Whether cursor positions are emitted.
    pub tracking: bool,
    /// The physical top-left corner of the overlay window.
    pub origin: (i32, i32),
    /// The last configuration received, as JSON.
    pub config: String,
    /// Whether the system cursors are blanked.
    pub hiding: bool,
}

impl Default for CursorState {
    fn default() -> (r: CursorState)
        ensures
            !r.tracking,
            r.origin == (0i32, 0i32),
            r.config@ == "null"@,
            !r.hiding,
    {
        CursorState { tracking: false, origin: (0, 0), config: "null".to_string(), hiding: false }
    }
}

/// What a configuration asks for.
#[derive(Clone, Copy, Debug, PartialEq, Eq, Structural)]
pub struct CursorRequest {
    pub enabled: bool,
    pub hide_real: bool,
}

/// A flag of a document; one that is missing or no boolean counts as false.
pub open spec fn flag_of(document: Option<Seq<(Seq<char>, FieldView)>>, key: Seq<char>) -> bool {
    match lookup(document, key) {
        Some(FieldView { flag: Some(b), .. }) => b,
        _ => false,
    }
}

/// What a document asks for.
pub open spec fn request_of(document: Option<Seq<(Seq<char>, FieldView)>>) -> CursorRequest {
    CursorRequest {
        enabled: flag_of(document, "enabled"@),
        hide_real: flag_of(document, "hideReal"@),
    }
}

/// What a configuration asks for; a text that is no JSON asks for nothing.
pub open spec fn request_of_config(config: Seq<char>) -> CursorRequest {
    match json_document(config) {
        Ok(document) => request_of(document),
        Err(_) => CursorRequest { enabled: false, hide_real: false },
    }
}

fn flag(document: &Document, key: &str) -> (r: bool)
    ensures
        r == flag_of(document@, key@),
{
    match document.get(key) {
        Some(field) => match field.flag {
            Some(b) => b,
            None => false,
        },
        None => false,
    }
}

/// Reads what a document asks for.
pub fn read_request(document: &Document) -> (r: CursorRequest)
    ensures
        r == request_of(document@),
{
    CursorRequest { enabled: flag(document, "enabled"), hide_real: flag(document, "hideReal") }
}

/// Whether a request wants the system cursors blank.
pub open spec fn wants_blank(request: CursorRequest) -> bool {
    request.enabled && request.hide_real
}

/// What has to be done to the system cursors so that they are blank, or not, as wanted.
pub open spec fn change_to(hiding: bool, want: bool) -> Option<bool> {
    if want != hiding {
        Some(want)
    } else {
        None
    }
}

/// Whether the system cursors are blank once a change is made.
pub open spec fn blank_after(blank: bool, change: Option<bool>) -> bool {
    match change {
        Some(b) => b,
        None => blank,
    }
}

impl CursorState {
    /// Takes a new configuration and returns what it asks for. The overlay window has to be
    /// brought in line with it, and then `cursor_apply` called.
    pub fn cursor_set(&mut self, config: String) -> (r: CursorRequest)
        ensures
            r == request_of_config(config@),
            final(self).config@ == config@,
            final(self).tracking == old(self).tracking,
            final(self).origin == old(self).origin,
            final(self).hiding == old(self).hiding,
    {
        let request = match parse_document(config.as_str()) {
            Ok(document) => read_request(&document),
            Err(_) => CursorRequest { enabled: false, hide_real: false },
        };
        self.config = config;
        request
    }

    /// The configuration, for an overlay that asks for it.
    pub fn cursor_get_config(&self) -> (r: String)
        ensures
            r@ == self.config@,
    {
        self.config.clone()
    }

    /// The window to open for the overlay, spanning the whole desktop; `None` where it is open
    /// already.
    pub fn ensure_cursor_window(is_open: bool, listing: &Result<Vec<Monitor>, String>) -> (r:
        Option<Bounds>)
        requires
            !is_open ==> desktop_fits(listed(*listing)),
        ensures
            r == (if is_open {
                None
            } else {
                Some(desktop_bounds(listed(*listing)))
            }),
    {
        if is_open {
            return None;
        }
        Some(virtual_desktop_bounds(listing))
    }

    /// Notes where the overlay window was opened.
    pub fn window_opened(&mut self, bounds: Bounds)
        ensures
            final(self).origin == (bounds.x, bounds.y),
            final(self).tracking == old(self).tracking,
            final(self).config@ == old(self).config@,
            final(self).hiding == old(self).hiding,
    {
        self.origin = (bounds.x, bounds.y);
    }

    /// Follows a request once the overlay window is in line with it (`window` is the outcome of
    /// opening it; it counts only for a request that enables the overlay). Returns whether the
    /// system cursors have to be blanked (`Some(true)`), restored (`Some(false)`) or left as
    /// they are (`None`).
    pub fn cursor_apply(&mut self, request: CursorRequest, window: Result<(), String>) -> (r: Result<
        Option<bool>,
        String,
    >)
        ensures
            final(self).config@ == old(self).config@,
            final(self).origin == old(self).origin,
            r is Err <==> request.enabled && window is Err,
            r is Err ==> {
                &&& r->Err_0@ == window->Err_0@
                &&& final(self).tracking == old(self).tracking
                &&& final(self).hiding == old(self).hiding
            },
            r matches Ok(change) ==> {
                &&& final(self).tracking == request.enabled
                &&& final(self).hiding == wants_blank(request)
                &&& change == change_to(old(self).hiding, wants_blank(request))
            },
    {
        if request.enabled {
            match window {
                Ok(()) => {},
                Err(e) => return Err(e),
            }
            self.tracking = true;
        } else {
            self.tracking = false;
        }
        let want_hidden: bool = request.enabled && request.hide_real;
        if want_hidden != self.hiding {
            self.hiding = want_hidden;
            return Ok(Some(want_hidden));
        }
        Ok(None)
    }

    /// Whether the system cursors have to be restored before the program ends.
    pub fn restore_on_exit(&self) -> (r: bool)
        ensures
            r == self.hiding,
    {
        self.hiding
    }
}

/// What the state believes of the system cursors (`hiding`) and how they are (`blank`) after some
/// requests, each with whether the overlay window could be brought in line with it.
pub open spec fn cursors_after(
    hiding: bool,
    blank: bool,
    requests: Seq<(CursorRequest, bool)>,
) -> (bool, bool)
    decreases requests.len(),
{
    if requests.len() == 0 {
        (hiding, blank)
    } else {
        let (h, b) = cursors_after(hiding, blank, requests.drop_last());
        let (request, window) = requests.last();
        if request.enabled && !window {
            (h, b)
        } else {
            (wants_blank(request), blank_after(b, change_to(h, wants_blank(request))))
        }
    }
}

/// The pointer is never left invisible: from a start with visible cursors, whatever requests come
/// and whichever of them fail, the state knows whether the cursors are blank. So restoring them
/// at the end where the state says that they are hidden leaves them visible; and so does a last
/// request that turns the overlay off or does not hide the cursors.
pub proof fn pointer_is_never_left_invisible(requests: Seq<(CursorRequest, bool)>)
    ensures
        ({
            let (hiding, blank) = cursors_after(false, false, requests);
            &&& hiding == blank
            &&& !blank_after(
                blank,
                if hiding {
                    Some(false)
                } else {
                    None
                },
            )
            &&& requests.len() > 0 && (!requests.last().0.enabled || (requests.last().1
                && !requests.last().0.hide_real)) ==> !blank
        }),
    decreases requests.len(),
{
    if requests.len() > 0 {
        pointer_is_never_left_invisible(requests.drop_last());
    }
}

/// Following the same request again changes nothing.
pub proof fn repeated_request_changes_nothing(hiding: bool, request: CursorRequest)
    ensures
        change_to(wants_blank(request), wants_blank(request)) is None,
        blank_after(hiding, change_to(hiding, wants_blank(request))) == wants_blank(request),
{
}

/// What the overlay is told after a look at the cursor, and how long to wait until the next.
#[derive(Clone, Copy, Debug, PartialEq, Eq)]
pub struct Tick {
    pub emit: Option<(i32, i32)>,
    pub sleep_ms: u64,
}

/// The watch over the cursor: the last position that was seen.
#[derive(Clone, Copy, Debug, PartialEq, Eq)]
pub struct CursorWatch {
    pub last: (i32, i32),
}

/// The outcome of a look at the cursor: only a cursor that is tracked, whose position is known
/// and that has moved is reported, relative to the overlay's corner.
pub open spec fn reports(
    last: (i32, i32),
    tracking: bool,
    pos: Option<(i32, i32)>,
) -> bool {
    tracking && pos is Some && pos != Some(last)
}

/// A cursor that stands still is reported once: the position that was seen last is not reported.
pub proof fn standing_cursor_is_not_reported(last: (i32, i32), tracking: bool)
    ensures
        !reports(last, tracking, Some(last)),
        !reports(last, tracking, None),
{
}

impl CursorWatch {
    /// A watch that has seen no position yet.
    pub fn start() -> (r: CursorWatch)
        ensures
            r.last == (i32::MIN, i32::MIN),
    {
        CursorWatch { last: (i32::MIN, i32::MIN) }
    }

    /// Takes a look at the cursor: `pos` is its position on the desktop, if it is known.
    pub fn tick(&mut self, tracking: bool, pos: Option<(i32, i32)>, origin: (i32, i32)) -> (r: Tick)
        requires
            reports(old(self).last, tracking, pos) ==> {
                &&& i32::MIN <= pos->Some_0.0 - origin.0 <= i32::MAX
                &&& i32::MIN <= pos->Some_0.1 - origin.1 <= i32::MAX
            },
        ensures
            r.sleep_ms == (if tracking {
                TRACK_PAUSE
            } else {
                IDLE_PAUSE
            }),
            tracking && pos is Some && (pos->Some_0.0 != old(self).last.0 || pos->Some_0.1 != old(
                self,
            ).last.1) ==> r.emit is Some,
            if reports(old(self).last, tracking, pos) {
                &&& r.emit == Some(
                    (
                        (pos->Some_0.0 - origin.0) as i32,
                        (pos->Some_0.1 - origin.1) as i32,
                    ),
                )
                &&& final(self).last == pos->Some_0
            } else {
                &&& r.emit is None
                &&& final(self).last == old(self).last
            },
    {
        if !tracking {
            return Tick { emit: None, sleep_ms: IDLE_PAUSE };
        }
        if let Some((gx, gy)) = pos {
            let (lx, ly) = self.last;
            if gx != lx || gy != ly {
                self.last = (gx, gy);
                return Tick { emit: Some((gx - origin.0, gy - origin.1)), sleep_ms: TRACK_PAUSE };
            }
        }
        Tick { emit: None, sleep_ms: TRACK_PAUSE }
    }
}

// ---------- What is asked for and what is told ----------

/// A tracked cursor is followed: a look at it reports exactly where it is tracked, its position is
/// known, and that differs from the last one seen in x or in y.
pub proof fn moved_cursor_is_reported(last: (i32, i32), tracking: bool, x: i32, y: i32)
    ensures
        tracking && (x != last.0 || y != last.1) ==> reports(last, tracking, Some((x, y))),
        x == last.0 && y == last.1 ==> !reports(last, tracking, Some((x, y))),
        !tracking ==> !reports(last, tracking, Some((x, y))),
        !reports(last, tracking, None),
{
}

/// A flag is true exactly where the member of that key is the boolean true.
pub proof fn flag_is_a_true_member(
    document: Option<Seq<(Seq<char>, FieldView)>>,
    key: Seq<char>,
    found: Option<FieldView>,
)
    requires
        found == lookup(document, key),
    ensures
        flag_of(document, key) <==> found is Some && found->Some_0.flag == Some(true),
{
}

/// The overlay is enabled by the flag `enabled` and hides the real cursor by the flag `hideReal`; a
/// configuration that is no JSON asks for neither.
pub proof fn request_is_its_two_flags(
    document: Option<Seq<(Seq<char>, FieldView)>>,
    config: Seq<char>,
)
    ensures
        request_of(document).enabled == flag_of(document, "enabled"@),
        request_of(document).hide_real == flag_of(document, "hideReal"@),
        json_document(config) is Ok ==> request_of_config(config) == request_of(
            json_document(config)->Ok_0,
        ),
        json_document(config) is Err ==> !request_of_config(config).enabled && !request_of_config(
            config,
        ).hide_real,
{
}

/// The system cursors are to be blank exactly where the overlay is on and hides them, and are
/// touched exactly where they are not so yet.
pub proof fn cursors_are_changed_as_wanted(request: CursorRequest, hiding: bool, want: bool)
    ensures
        wants_blank(request) <==> request.enabled && request.hide_real,
        hiding == want ==> change_to(hiding, want) is None,
        hiding != want ==> change_to(hiding, want) == Some(want),
        blank_after(hiding, None) == hiding,
        blank_after(hiding, Some(want)) == want,
{
}

/// The cursor is looked at every 8 milliseconds while it is tracked, and else every 80.
pub proof fn looks_are_paced()
    ensures
        TRACK_PAUSE == 8,
        IDLE_PAUSE == 80,
{
}

} // verus!
