//! Monitors: which one to capture, how large it is, and the desktop they make up.

use vstd::prelude::*;

verus! {

/// What the platform tells of a monitor: its physical top-left corner, whether it is the primary
/// one, and its size in physical pixels. Each of these can fail to be told.
#[derive(Debug)]
pub struct Monitor {
    pub x: Option<i32>,
    pub y: Option<i32>,
    pub primary: Option<bool>,
    pub width: Result<u32, String>,
    pub height: Result<u32, String>,
}

impl Monitor {
    /// The monitor is known to stand at the given corner.
    pub open spec fn stands_at(self, x: i32, y: i32) -> bool {
        self.x == Some(x) && self.y == Some(y)
    }

    /// The monitor is known to be the primary one.
    pub open spec fn leads(self) -> bool {
        self.primary == Some(true)
    }
}

/// The first monitor with a property.
pub open spec fn first_monitor(monitors: Seq<Monitor>, p: spec_fn(Monitor) -> bool) -> Option<int>
    decreases monitors.len(),
{
    if monitors.len() == 0 {
        None
    } else {
        match first_monitor(monitors.drop_last(), p) {
            Some(i) => Some(i),
            None => if p(monitors.last()) {
                Some(monitors.len() - 1)
            } else {
                None
            },
        }
    }
}

/// The primary monitor, or the first one where none is known to be primary.
pub open spec fn fallback_monitor(monitors: Seq<Monitor>) -> Option<int> {
    match first_monitor(monitors, |m: Monitor| m.leads()) {
        Some(i) => Some(i),
        None => if monitors.len() > 0 {
            Some(0int)
        } else {
            None
        },
    }
}

/// The monitor at the given corner, falling back to the primary one and then to the first.
pub open spec fn picked_monitor(monitors: Seq<Monitor>, x: i32, y: i32) -> Option<int> {
    match first_monitor(monitors, |m: Monitor| m.stands_at(x, y)) {
        Some(i) => Some(i),
        None => fallback_monitor(monitors),
    }
}

/// An index, as an exact number.
pub open spec fn index_view(i: Option<usize>) -> Option<int> {
    match i {
        Some(i) => Some(i as int),
        None => None,
    }
}

/// The primary monitor, or the first one where none is known to be primary.
pub fn primary_monitor(monitors: &[Monitor]) -> (r: Option<usize>)
    ensures
        index_view(r) == fallback_monitor(monitors@),
{
    let ghost p = |m: Monitor| m.leads();
    let mut i: usize = 0;
    assert(monitors@.take(0) =~= Seq::empty());
    while i < monitors.len()
        invariant
            i <= monitors.len(),
            p == (|m: Monitor| m.leads()),
            first_monitor(monitors@.take(i as int), p) is None,
        decreases monitors.len() - i,
    {
        let ghost longer = monitors@.take(i + 1);
        assert(longer.drop_last() =~= monitors@.take(i as int));
        if let Some(true) = monitors[i].primary {
            assert(first_monitor(longer, p) == Some(i as int));
            proof {
                lemma_first_stays(monitors@, p, i + 1);
            }
            return Some(i);
        }
        i = i + 1;
    }
    assert(monitors@.take(monitors@.len() as int) =~= monitors@);
    if monitors.len() > 0 {
        Some(0)
    } else {
        None
    }
}

/// What is first in a part is first in the whole.
proof fn lemma_first_stays(monitors: Seq<Monitor>, p: spec_fn(Monitor) -> bool, n: int)
    requires
        0 <= n <= monitors.len(),
        first_monitor(monitors.take(n), p) is Some,
    ensures
        first_monitor(monitors, p) == first_monitor(monitors.take(n), p),
    decreases monitors.len(),
{
    if n == monitors.len() {
        assert(monitors.take(n) =~= monitors);
    } else {
        assert(monitors.drop_last().take(n) =~= monitors.take(n));
        lemma_first_stays(monitors.drop_last(), p, n);
    }
}

/// Pick the monitor whose physical origin matches `(mon_x, mon_y)`, falling back to the primary
/// monitor (then the first) when there is no exact match.
pub fn pick_monitor(monitors: &[Monitor], mon_x: i32, mon_y: i32) -> (r: Option<usize>)
    ensures
        index_view(r) == picked_monitor(monitors@, mon_x, mon_y),
{
    let ghost p = |m: Monitor| m.stands_at(mon_x, mon_y);
    let mut i: usize = 0;
    assert(monitors@.take(0) =~= Seq::empty());
    while i < monitors.len()
        invariant
            i <= monitors.len(),
            p == (|m: Monitor| m.stands_at(mon_x, mon_y)),
            first_monitor(monitors@.take(i as int), p) is None,
        decreases monitors.len() - i,
    {
        let ghost longer = monitors@.take(i + 1);
        assert(longer.drop_last() =~= monitors@.take(i as int));
        let x_matches = match monitors[i].x {
            Some(x) => x == mon_x,
            None => false,
        };
        let y_matches = match monitors[i].y {
            Some(y) => y == mon_y,
            None => false,
        };
        if x_matches && y_matches {
            assert(first_monitor(longer, p) == Some(i as int));
            proof {
                lemma_first_stays(monitors@, p, i + 1);
            }
            return Some(i);
        }
        i = i + 1;
    }
    assert(monitors@.take(monitors@.len() as int) =~= monitors@);
    primary_monitor(monitors)
}

/// The monitor that is picked exists, and there is one wherever there is any monitor. It is a
/// monitor at the wanted corner if there is one, and else a primary one if there is one.
pub proof fn pick_prefers_the_corner(monitors: Seq<Monitor>, x: i32, y: i32)
    ensures
        picked_monitor(monitors, x, y) is None <==> monitors.len() == 0,
        picked_monitor(monitors, x, y) matches Some(i) ==> {
            &&& 0 <= i < monitors.len()
            &&& (exists|j: int| 0 <= j < monitors.len() && #[trigger] monitors[j].stands_at(x, y))
                ==> monitors[i].stands_at(x, y)
            &&& (forall|j: int|
                0 <= j < monitors.len() ==> !(#[trigger] monitors[j].stands_at(x, y))) && (exists|
                j: int,
            |
                0 <= j < monitors.len() && #[trigger] monitors[j].leads()) ==> monitors[i].leads()
        },
{
    lemma_first_found(monitors, |m: Monitor| m.stands_at(x, y));
    lemma_first_found(monitors, |m: Monitor| m.leads());
}

proof fn lemma_first_found(monitors: Seq<Monitor>, p: spec_fn(Monitor) -> bool)
    ensures
        first_monitor(monitors, p) matches Some(i) ==> 0 <= i < monitors.len() && p(monitors[i])
            && forall|j: int| 0 <= j < i ==> !p(#[trigger] monitors[j]),
        first_monitor(monitors, p) is None ==> forall|j: int|
            0 <= j < monitors.len() ==> !p(#[trigger] monitors[j]),
    decreases monitors.len(),
{
    if monitors.len() > 0 {
        let rest = monitors.drop_last();
        lemma_first_found(rest, p);
        assert forall|j: int| 0 <= j < rest.len() implies p(rest[j]) == p(#[trigger] monitors[j]) by {
            assert(rest[j] == monitors[j]);
        }
        match first_monitor(rest, p) {
            Some(i) => {
                assert(rest[i] == monitors[i]);
                assert forall|j: int| 0 <= j < i implies !p(#[trigger] monitors[j]) by {
                    assert(!p(rest[j]));
                }
            },
            None => {
                assert forall|j: int| 0 <= j < monitors.len() - 1 implies !p(
                    #[trigger] monitors[j],
                ) by {
                    assert(!p(rest[j]));
                }
            },
        }
    }
}

/// What a monitor to capture can be: the index of a monitor, or the reason there is none.
pub open spec fn index_or_error(r: Result<usize, String>) -> Result<int, Seq<char>> {
    match r {
        Ok(i) => Ok(i as int),
        Err(e) => Err(e@),
    }
}

/// The choice, or the error where there is nothing to choose from.
pub open spec fn found(i: Option<int>) -> Result<int, Seq<char>> {
    match i {
        Some(i) => Ok(i),
        None => Err("No monitor found"@),
    }
}

/// The monitor to grab for a region drawn on the monitor at `(mon_x, mon_y)`. The listing is
/// what the platform answered when asked for its monitors.
pub fn capture_monitor(listing: &Result<Vec<Monitor>, String>, mon_x: i32, mon_y: i32) -> (r:
    Result<usize, String>)
    ensures
        index_or_error(r) == (match listing {
            Ok(monitors) => found(picked_monitor(monitors@, mon_x, mon_y)),
            Err(e) => Err(e@),
        }),
{
    match listing {
        Err(e) => Err(e.clone()),
        Ok(monitors) => match pick_monitor(monitors.as_slice(), mon_x, mon_y) {
            Some(i) => Ok(i),
            None => Err("No monitor found".to_string()),
        },
    }
}

/// The monitor to grab when no region is set.
pub fn capture_primary(listing: &Result<Vec<Monitor>, String>) -> (r: Result<usize, String>)
    ensures
        index_or_error(r) == (match listing {
            Ok(monitors) => found(fallback_monitor(monitors@)),
            Err(e) => Err(e@),
        }),
{
    match listing {
        Err(e) => Err(e.clone()),
        Ok(monitors) => match primary_monitor(monitors.as_slice()) {
            Some(i) => Ok(i),
            None => Err("No monitor found".to_string()),
        },
    }
}

/// The size of a monitor: the width's error counts before the height's.
pub open spec fn told_size(m: Monitor) -> Result<(u32, u32), Seq<char>> {
    match (m.width, m.height) {
        (Err(e), _) => Err(e@),
        (Ok(_), Err(e)) => Err(e@),
        (Ok(w), Ok(h)) => Ok((w, h)),
    }
}

/// The size of the monitor picked for a corner.
pub open spec fn picked_size(listing: Result<Vec<Monitor>, String>, x: i32, y: i32) -> Result<
    (u32, u32),
    Seq<char>,
> {
    match listing {
        Err(e) => Err(e@),
        Ok(monitors) => match picked_monitor(monitors@, x, y) {
            None => Err("No monitor found"@),
            Some(i) => told_size(monitors@[i]),
        },
    }
}

pub open spec fn size_or_error(r: Result<(u32, u32), String>) -> Result<(u32, u32), Seq<char>> {
    match r {
        Ok(size) => Ok(size),
        Err(e) => Err(e@),
    }
}

/// Physical size of the monitor at origin `(mon_x, mon_y)`.
pub fn monitor_size(listing: &Result<Vec<Monitor>, String>, mon_x: i32, mon_y: i32) -> (r: Result<
    (u32, u32),
    String,
>)
    ensures
        size_or_error(r) == picked_size(*listing, mon_x, mon_y),
{
    match listing {
        Err(e) => Err(e.clone()),
        Ok(monitors) => match pick_monitor(monitors.as_slice(), mon_x, mon_y) {
            None => Err("No monitor found".to_string()),
            Some(i) => {
                proof {
                    pick_prefers_the_corner(monitors@, mon_x, mon_y);
                }
                match (&monitors[i].width, &monitors[i].height) {
                    (Err(e), _) => Err(e.clone()),
                    (Ok(_), Err(e)) => Err(e.clone()),
                    (Ok(w), Ok(h)) => Ok((*w, *h)),
                }
            },
        },
    }
}

/// The size to label a region with: nothing by nothing where the size is not known.
pub fn label_size(listing: &Result<Vec<Monitor>, String>, mon_x: i32, mon_y: i32) -> (r: (u32, u32))
    ensures
        r == (match picked_size(*listing, mon_x, mon_y) {
            Ok(size) => size,
            Err(_) => (0u32, 0u32),
        }),
{
    match monitor_size(listing, mon_x, mon_y) {
        Ok(size) => size,
        Err(_) => (0, 0),
    }
}

// ---------- The virtual desktop ----------

/// The left edge of a monitor; one that is not told counts as 0.
pub open spec fn left(m: Monitor) -> int {
    match m.x {
        Some(x) => x as int,
        None => 0,
    }
}

pub open spec fn top(m: Monitor) -> int {
    match m.y {
        Some(y) => y as int,
        None => 0,
    }
}

/// The right edge of a monitor; a width that is not told counts as 0.
pub open spec fn right(m: Monitor) -> int {
    left(m) + match m.width {
        Ok(w) => w as i32 as int,
        Err(_) => 0,
    }
}

pub open spec fn bottom(m: Monitor) -> int {
    top(m) + match m.height {
        Ok(h) => h as i32 as int,
        Err(_) => 0,
    }
}

/// The least value of an edge over some monitors.
pub open spec fn least_edge(monitors: Seq<Monitor>, edge: spec_fn(Monitor) -> int) -> int
    decreases monitors.len(),
{
    if monitors.len() <= 1 {
        edge(monitors[0])
    } else {
        let rest = least_edge(monitors.drop_last(), edge);
        if edge(monitors.last()) < rest {
            edge(monitors.last())
        } else {
            rest
        }
    }
}

/// The greatest value of an edge over some monitors.
pub open spec fn greatest_edge(monitors: Seq<Monitor>, edge: spec_fn(Monitor) -> int) -> int
    decreases monitors.len(),
{
    if monitors.len() <= 1 {
        edge(monitors[0])
    } else {
        let rest = greatest_edge(monitors.drop_last(), edge);
        if edge(monitors.last()) > rest {
            edge(monitors.last())
        } else {
            rest
        }
    }
}

/// A rectangle in physical pixels.
#[derive(Clone, Copy, Debug, PartialEq, Eq, Structural)]
pub struct Bounds {
    pub x: i32,
    pub y: i32,
    pub w: u32,
    pub h: u32,
}

/// At least one.
pub open spec fn at_least_one(n: int) -> int {
    if n < 1 {
        1
    } else {
        n
    }
}

/// The bounding box of the monitors, at least one pixel wide and high.
pub open spec fn desktop_bounds(monitors: Seq<Monitor>) -> Bounds {
    if monitors.len() == 0 {
        Bounds { x: 0, y: 0, w: 1920, h: 1080 }
    } else {
        let x = least_edge(monitors, |m: Monitor| left(m));
        let y = least_edge(monitors, |m: Monitor| top(m));
        Bounds {
            x: x as i32,
            y: y as i32,
            w: at_least_one(greatest_edge(monitors, |m: Monitor| right(m)) - x) as u32,
            h: at_least_one(greatest_edge(monitors, |m: Monitor| bottom(m)) - y) as u32,
        }
    }
}

/// Every edge, and the size of the whole, is a 32-bit number.
pub open spec fn desktop_fits(monitors: Seq<Monitor>) -> bool {
    &&& forall|i: int|
        0 <= i < monitors.len() ==> i32::MIN <= right(#[trigger] monitors[i]) <= i32::MAX
            && i32::MIN <= bottom(monitors[i]) <= i32::MAX
    &&& monitors.len() > 0 ==> {
        &&& i32::MIN <= greatest_edge(monitors, |m: Monitor| right(m)) - least_edge(
            monitors,
            |m: Monitor| left(m),
        ) <= i32::MAX
        &&& i32::MIN <= greatest_edge(monitors, |m: Monitor| bottom(m)) - least_edge(
            monitors,
            |m: Monitor| top(m),
        ) <= i32::MAX
    }
}

/// The monitors of a listing; none where it failed.
pub open spec fn listed(listing: Result<Vec<Monitor>, String>) -> Seq<Monitor> {
    match listing {
        Ok(monitors) => monitors@,
        Err(_) => Seq::empty(),
    }
}

/// The outermost edges of some monitors, and the least right and bottom edge among them.
struct Edges {
    left: i64,
    top: i64,
    right: i64,
    bottom: i64,
    least_right: i64,
    least_bottom: i64,
}

impl Edges {
    /// The edges are those of the monitors.
    spec fn are_of(self, monitors: Seq<Monitor>) -> bool {
        &&& self.left == least_edge(monitors, |m: Monitor| left(m))
        &&& self.top == least_edge(monitors, |m: Monitor| top(m))
        &&& self.right == greatest_edge(monitors, |m: Monitor| right(m))
        &&& self.bottom == greatest_edge(monitors, |m: Monitor| bottom(m))
        &&& self.least_right == least_edge(monitors, |m: Monitor| right(m))
        &&& self.least_bottom == least_edge(monitors, |m: Monitor| bottom(m))
    }

    /// The edges are sums of a 32-bit corner and a 32-bit size.
    spec fn bounded(self) -> bool {
        &&& i32::MIN <= self.left <= i32::MAX && i32::MIN <= self.top <= i32::MAX
        &&& 2 * i32::MIN <= self.right <= 2 * i32::MAX && 2 * i32::MIN <= self.bottom <= 2
            * i32::MAX
    }
}

/// The edges of one monitor.
fn edges_of_one(m: &Monitor) -> (r: Edges)
    ensures
        r.left == left(*m),
        r.top == top(*m),
        r.right == right(*m) && r.least_right == right(*m),
        r.bottom == bottom(*m) && r.least_bottom == bottom(*m),
        r.bounded(),
{
    let x: i64 = match m.x {
        Some(x) => x as i64,
        None => 0,
    };
    let y: i64 = match m.y {
        Some(y) => y as i64,
        None => 0,
    };
    let w: i32 = match m.width {
        Ok(w) => #[verifier::truncate] (w as i32),
        Err(_) => 0,
    };
    let h: i32 = match m.height {
        Ok(h) => #[verifier::truncate] (h as i32),
        Err(_) => 0,
    };
    let right: i64 = x + w as i64;
    let bottom: i64 = y + h as i64;
    Edges { left: x, top: y, right, bottom, least_right: right, least_bottom: bottom }
}

/// The edges of all monitors.
fn edges(monitors: &Vec<Monitor>) -> (r: Edges)
    requires
        monitors@.len() > 0,
    ensures
        r.are_of(monitors@),
        r.bounded(),
{
    let mut e = edges_of_one(&monitors[0]);
    assert(monitors@.take(1)[0] == monitors@[0]);
    let mut i: usize = 1;
    while i < monitors.len()
        invariant
            1 <= i <= monitors.len(),
            e.are_of(monitors@.take(i as int)),
            e.bounded(),
        decreases monitors.len() - i,
    {
        let one = edges_of_one(&monitors[i]);
        let ghost longer = monitors@.take(i + 1);
        assert(longer.drop_last() =~= monitors@.take(i as int));
        assert(longer.last() == monitors@[i as int]);
        if one.left < e.left {
            e.left = one.left;
        }
        if one.top < e.top {
            e.top = one.top;
        }
        if one.right > e.right {
            e.right = one.right;
        }
        if one.bottom > e.bottom {
            e.bottom = one.bottom;
        }
        if one.right < e.least_right {
            e.least_right = one.right;
        }
        if one.bottom < e.least_bottom {
            e.least_bottom = one.bottom;
        }
        i = i + 1;
    }
    assert(monitors@.take(monitors@.len() as int) =~= monitors@);
    e
}

/// Bounding box of every monitor in physical pixels. The cursor overlay is sized to this so it
/// can host a pointer graphic anywhere on the virtual desktop.
pub fn virtual_desktop_bounds(listing: &Result<Vec<Monitor>, String>) -> (r: Bounds)
    requires
        desktop_fits(listed(*listing)),
    ensures
        r == desktop_bounds(listed(*listing)),
{
    let monitors: &Vec<Monitor> = match listing {
        Ok(monitors) => monitors,
        Err(_) => return Bounds { x: 0, y: 0, w: 1920, h: 1080 },
    };
    if monitors.len() == 0 {
        return Bounds { x: 0, y: 0, w: 1920, h: 1080 };
    }
    let e = edges(monitors);
    let width: i64 = if e.right - e.left < 1 {
        1
    } else {
        e.right - e.left
    };
    let height: i64 = if e.bottom - e.top < 1 {
        1
    } else {
        e.bottom - e.top
    };
    Bounds { x: e.left as i32, y: e.top as i32, w: width as u32, h: height as u32 }
}

/// Whether the edges and the size of the desktop are 32-bit numbers.
pub fn desktop_can_fit(listing: &Result<Vec<Monitor>, String>) -> (r: bool)
    ensures
        r == desktop_fits(listed(*listing)),
{
    let monitors: &Vec<Monitor> = match listing {
        Ok(monitors) => monitors,
        Err(_) => return true,
    };
    if monitors.len() == 0 {
        return true;
    }
    let e = edges(monitors);
    let low: i64 = i32::MIN as i64;
    let high: i64 = i32::MAX as i64;
    proof {
        let rights = |m: Monitor| right(m);
        let bottoms = |m: Monitor| bottom(m);
        lemma_edge_is_attained(monitors@, rights);
        lemma_edge_is_attained(monitors@, bottoms);
        assert forall|i: int| 0 <= i < monitors@.len() implies e.least_right <= right(
            #[trigger] monitors@[i],
        ) <= e.right && e.least_bottom <= bottom(monitors@[i]) <= e.bottom by {
            lemma_edges_bound(monitors@, rights, i);
            lemma_edges_bound(monitors@, bottoms, i);
        }
    }
    low <= e.least_right && e.right <= high && low <= e.least_bottom && e.bottom <= high && low
        <= e.right - e.left && e.right - e.left <= high && low <= e.bottom - e.top && e.bottom
        - e.top <= high
}

proof fn lemma_edges_bound(monitors: Seq<Monitor>, edge: spec_fn(Monitor) -> int, i: int)
    requires
        0 <= i < monitors.len(),
    ensures
        least_edge(monitors, edge) <= edge(monitors[i]) <= greatest_edge(monitors, edge),
    decreases monitors.len(),
{
    if monitors.len() > 1 && i < monitors.len() - 1 {
        lemma_edges_bound(monitors.drop_last(), edge, i);
    } else if monitors.len() > 1 {
        lemma_edges_bound(monitors.drop_last(), edge, 0);
    }
}

/// The desktop covers every monitor: none of them sticks out on any side. It is never empty.
pub proof fn desktop_covers_every_monitor(monitors: Seq<Monitor>, i: int)
    requires
        desktop_fits(monitors),
        0 <= i < monitors.len(),
    ensures
        ({
            let b = desktop_bounds(monitors);
            &&& b.x <= left(monitors[i]) && right(monitors[i]) <= b.x + b.w
            &&& b.y <= top(monitors[i]) && bottom(monitors[i]) <= b.y + b.h
            &&& b.w >= 1 && b.h >= 1
        }),
{
    lemma_edges_bound(monitors, |m: Monitor| left(m), i);
    lemma_edges_bound(monitors, |m: Monitor| right(m), i);
    lemma_edges_bound(monitors, |m: Monitor| top(m), i);
    lemma_edges_bound(monitors, |m: Monitor| bottom(m), i);
    lemma_edge_is_attained(monitors, |m: Monitor| left(m));
    lemma_edge_is_attained(monitors, |m: Monitor| top(m));
}

/// The desktop is the tightest box: its left and top sides touch a monitor, and where it is more
/// than the one pixel wide or high that it always is, so do its right and bottom sides.
pub proof fn desktop_is_tight(monitors: Seq<Monitor>)
    requires
        desktop_fits(monitors),
        monitors.len() > 0,
    ensures
        ({
            let b = desktop_bounds(monitors);
            &&& exists|i: int| 0 <= i < monitors.len() && left(#[trigger] monitors[i]) == b.x
            &&& exists|i: int| 0 <= i < monitors.len() && top(#[trigger] monitors[i]) == b.y
            &&& b.w > 1 ==> exists|i: int|
                0 <= i < monitors.len() && right(#[trigger] monitors[i]) == b.x + b.w
            &&& b.h > 1 ==> exists|i: int|
                0 <= i < monitors.len() && bottom(#[trigger] monitors[i]) == b.y + b.h
        }),
{
    lemma_edge_is_attained(monitors, |m: Monitor| left(m));
    lemma_edge_is_attained(monitors, |m: Monitor| top(m));
    lemma_edge_is_attained(monitors, |m: Monitor| right(m));
    lemma_edge_is_attained(monitors, |m: Monitor| bottom(m));
}

proof fn lemma_edge_is_attained(monitors: Seq<Monitor>, edge: spec_fn(Monitor) -> int)
    requires
        monitors.len() > 0,
    ensures
        exists|i: int|
            0 <= i < monitors.len() && edge(#[trigger] monitors[i]) == least_edge(monitors, edge),
        exists|i: int|
            0 <= i < monitors.len() && edge(#[trigger] monitors[i]) == greatest_edge(
                monitors,
                edge,
            ),
    decreases monitors.len(),
{
    if monitors.len() > 1 {
        let rest = monitors.drop_last();
        lemma_edge_is_attained(rest, edge);
        let i = choose|i: int|
            0 <= i < rest.len() && edge(#[trigger] rest[i]) == least_edge(rest, edge);
        let j = choose|j: int|
            0 <= j < rest.len() && edge(#[trigger] rest[j]) == greatest_edge(rest, edge);
        assert(monitors[i] == rest[i]);
        assert(monitors[j] == rest[j]);
        assert(monitors[monitors.len() - 1] == monitors.last());
    } else {
        assert(edge(monitors[0]) == least_edge(monitors, edge));
        assert(edge(monitors[0]) == greatest_edge(monitors, edge));
    }
}

// ---------- Which monitor, and how large ----------

/// The first monitor at the wanted corner is picked: monitor `i` where both its coordinates are
/// known and are those, and no earlier monitor has them.
pub proof fn first_monitor_at_the_corner_is_picked(monitors: Seq<Monitor>, x: i32, y: i32, i: int)
    requires
        0 <= i < monitors.len(),
        monitors[i].x == Some(x) && monitors[i].y == Some(y),
        forall|j: int|
            0 <= j < i ==> (#[trigger] monitors[j]).x != Some(x) || monitors[j].y != Some(y),
    ensures
        picked_monitor(monitors, x, y) == Some(i),
{
    let p = |m: Monitor| m.stands_at(x, y);
    lemma_first_found(monitors, p);
    assert(p(monitors[i]));
}

/// Without a monitor at the corner the fallback is picked.
pub proof fn corner_without_a_monitor_has_a_fallback(monitors: Seq<Monitor>, x: i32, y: i32)
    requires
        forall|j: int|
            0 <= j < monitors.len() ==> (#[trigger] monitors[j]).x != Some(x) || monitors[j].y
                != Some(y),
    ensures
        picked_monitor(monitors, x, y) == fallback_monitor(monitors),
{
    lemma_first_found(monitors, |m: Monitor| m.stands_at(x, y));
}

/// The fallback is the first monitor known to be primary, and without one the first of all.
pub proof fn fallback_is_the_first_primary(monitors: Seq<Monitor>, i: int)
    ensures
        0 <= i < monitors.len() && monitors[i].primary == Some(true) && (forall|j: int|
            0 <= j < i ==> (#[trigger] monitors[j]).primary != Some(true)) ==> fallback_monitor(
            monitors,
        ) == Some(i),
        monitors.len() > 0 && (forall|j: int|
            0 <= j < monitors.len() ==> (#[trigger] monitors[j]).primary != Some(true))
            ==> fallback_monitor(monitors) == Some(0int),
        monitors.len() == 0 ==> fallback_monitor(monitors) is None,
{
    let q = |m: Monitor| m.leads();
    lemma_first_found(monitors, q);
    if 0 <= i < monitors.len() && monitors[i].primary == Some(true) {
        assert(q(monitors[i]));
    }
}

/// Choices, errors and sizes are handed on as they are.
pub proof fn choices_are_seen_as_they_are(i: usize, e: String, size: (u32, u32))
    ensures
        index_view(Some(i)) == Some(i as int),
        index_view(None) is None,
        index_or_error(Ok(i)) == Ok::<int, Seq<char>>(i as int),
        index_or_error(Err(e)) == Err::<int, Seq<char>>(e@),
        found(Some(i as int)) == Ok::<int, Seq<char>>(i as int),
        found(None) == Err::<int, Seq<char>>("No monitor found"@),
        size_or_error(Ok(size)) == Ok::<(u32, u32), Seq<char>>(size),
        size_or_error(Err(e)) == Err::<(u32, u32), Seq<char>>(e@),
{
}

/// The size is that of the picked monitor: its width and its height, where both are told; else the
/// error of the width, or of the height where only that is not told.
pub proof fn size_is_that_of_the_picked(
    monitors: Vec<Monitor>,
    e: String,
    x: i32,
    y: i32,
    i: int,
)
    ensures
        picked_size(Err(e), x, y) == Err::<(u32, u32), Seq<char>>(e@),
        picked_monitor(monitors@, x, y) is None ==> picked_size(Ok(monitors), x, y) == Err::<
            (u32, u32),
            Seq<char>,
        >("No monitor found"@),
        picked_monitor(monitors@, x, y) == Some(i) ==> {
            let m = monitors@[i];
            let size = picked_size(Ok(monitors), x, y);
            &&& m.width is Ok && m.height is Ok ==> size == Ok::<(u32, u32), Seq<char>>(
                (m.width->Ok_0, m.height->Ok_0),
            )
            &&& m.width is Err ==> size == Err::<(u32, u32), Seq<char>>(m.width->Err_0@)
            &&& m.width is Ok && m.height is Err ==> size == Err::<(u32, u32), Seq<char>>(
                m.height->Err_0@,
            )
        },
{
}

/// The edges of a monitor are its corner and its corner plus its size; what is not told counts as
/// nothing.
pub proof fn edges_are_corner_and_size(m: Monitor)
    ensures
        m.x matches Some(x) ==> left(m) == x,
        m.x is None ==> left(m) == 0,
        m.y matches Some(y) ==> top(m) == y,
        m.y is None ==> top(m) == 0,
        m.width matches Ok(w) ==> right(m) == left(m) + (if w <= i32::MAX {
            w as int
        } else {
            w - 4294967296
        }),
        m.width is Err ==> right(m) == left(m),
        m.height matches Ok(h) ==> bottom(m) == top(m) + (if h <= i32::MAX {
            h as int
        } else {
            h - 4294967296
        }),
        m.height is Err ==> bottom(m) == top(m),
{
    if let Ok(w) = m.width {
        assert(w > 0x7FFF_FFFFu32 ==> (w as i32) as i64 == (w as i64) - 4294967296i64) by (bit_vector);
    }
    if let Ok(h) = m.height {
        assert(h > 0x7FFF_FFFFu32 ==> (h as i32) as i64 == (h as i64) - 4294967296i64) by (bit_vector);
    }
}

/// Where no monitor is listed the desktop counts as 1920 by 1080 at the origin.
pub proof fn desktop_without_monitors(e: String, monitors: Vec<Monitor>)
    ensures
        desktop_bounds(Seq::empty()) == (Bounds { x: 0, y: 0, w: 1920, h: 1080 }),
        listed(Err(e)) == Seq::<Monitor>::empty(),
        listed(Ok(monitors)) == monitors@,
        desktop_fits(Seq::empty()),
{
}

/// The desktop can be had exactly where every right and bottom edge is a 32-bit number, and no
/// such edge is further from a left or top one than that.
pub proof fn desktop_fits_where_its_edges_do(monitors: Seq<Monitor>)
    ensures
        desktop_fits(monitors) <==> forall|i: int, j: int|
            #![trigger monitors[i], monitors[j]]
            0 <= i < monitors.len() && 0 <= j < monitors.len() ==> {
                &&& i32::MIN <= right(monitors[i]) <= i32::MAX
                &&& i32::MIN <= bottom(monitors[i]) <= i32::MAX
                &&& right(monitors[i]) - left(monitors[j]) <= i32::MAX
                &&& bottom(monitors[i]) - top(monitors[j]) <= i32::MAX
            },
{
    let lefts = |m: Monitor| left(m);
    let tops = |m: Monitor| top(m);
    let rights = |m: Monitor| right(m);
    let bottoms = |m: Monitor| bottom(m);
    if monitors.len() > 0 {
        lemma_edge_is_attained(monitors, lefts);
        lemma_edge_is_attained(monitors, tops);
        lemma_edge_is_attained(monitors, rights);
        lemma_edge_is_attained(monitors, bottoms);
        assert forall|i: int| 0 <= i < monitors.len() implies least_edge(monitors, lefts) <= left(
            #[trigger] monitors[i],
        ) && least_edge(monitors, tops) <= top(monitors[i]) && right(monitors[i]) <= greatest_edge(
            monitors,
            rights,
        ) && bottom(monitors[i]) <= greatest_edge(monitors, bottoms) by {
            lemma_edges_bound(monitors, lefts, i);
            lemma_edges_bound(monitors, tops, i);
            lemma_edges_bound(monitors, rights, i);
            lemma_edges_bound(monitors, bottoms, i);
        }
        let a = choose|i: int|
            0 <= i < monitors.len() && lefts(#[trigger] monitors[i]) == least_edge(monitors, lefts);
        let b = choose|i: int|
            0 <= i < monitors.len() && tops(#[trigger] monitors[i]) == least_edge(monitors, tops);
        let c = choose|i: int|
            0 <= i < monitors.len() && rights(#[trigger] monitors[i]) == greatest_edge(
                monitors,
                rights,
            );
        let d = choose|i: int|
            0 <= i < monitors.len() && bottoms(#[trigger] monitors[i]) == greatest_edge(
                monitors,
                bottoms,
            );
        assert(right(monitors[a]) >= left(monitors[a]) + i32::MIN);
        assert(bottom(monitors[b]) >= top(monitors[b]) + i32::MIN);
        if desktop_fits(monitors) {
            assert forall|i: int, j: int|
                #![trigger monitors[i], monitors[j]]
                0 <= i < monitors.len() && 0 <= j < monitors.len() implies {
                &&& i32::MIN <= right(monitors[i]) <= i32::MAX
                &&& i32::MIN <= bottom(monitors[i]) <= i32::MAX
                &&& right(monitors[i]) - left(monitors[j]) <= i32::MAX
                &&& bottom(monitors[i]) - top(monitors[j]) <= i32::MAX
            } by {}
        } else {
            assert(monitors[a] == monitors[a] && monitors[c] == monitors[c]);
            assert(monitors[b] == monitors[b] && monitors[d] == monitors[d]);
        }
    }
}

} // verus!
