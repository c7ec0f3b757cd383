//! The state behind the GIF maker and the text paster.

use crate::frame::{
    clamp_region, crop, crop_fits, crop_picture, crop_stays_inside, empty_region,
    label_is_what_is_cropped, CapturedFrame, Picture, Region, RegionDto,
};
use crate::gif::picture_views;
use crate::json::text_view;
use crate::monitors::{
    capture_monitor, capture_primary, fallback_monitor, found, index_or_error,
    pick_prefers_the_corner, picked_monitor, Monitor,
};
use crate::overlay::region_origin;
use crate::picture::{make_thumb, positive, scalable, thumbnail, THUMB_WIDTH};
use crate::shortcuts::{
    actions_after, actions_view, binding_views, candidates, parse_shortcut, shortcut_parse, Action,
    ActionView, BindingView, PasteBinding, Reapply,
};
use std::collections::HashMap;
use vstd::prelude::*;
use vstd::std_specs::hash::*;

verus! {

broadcast use group_hash_axioms;

/// The GIF hotkey to start with.
pub const DEFAULT_HOTKEY: &'static str = "F8";

/// Frames, region, hotkeys and what they do.
pub struct AppState {
    pub frames: Vec<CapturedFrame>,
    pub region: Option<Region>,
    pub hotkey: String,
    pub paste_bindings: Vec<PasteBinding>,
    pub actions: HashMap<u32, Action>,
}

/// The model of the state.
#[verifier::ext_equal]
pub struct AppView {
    pub frames: Seq<Picture>,
    pub region: Option<Region>,
    pub hotkey: Seq<char>,
    pub paste_bindings: Seq<BindingView>,
    pub actions: Map<u32, ActionView>,
}

impl View for AppState {
    type V = AppView;

    open spec fn view(&self) -> AppView {
        AppView {
            frames: picture_views(self.frames@),
            region: self.region,
            hotkey: self.hotkey@,
            paste_bindings: binding_views(self.paste_bindings@),
            actions: actions_view(self.actions@),
        }
    }
}

/// The ways in which the state changes.
pub enum Change {
    Hotkey(Seq<char>),
    Bindings(Seq<BindingView>),
    Region(Region),
    Frame(Picture),
    NoFrames,
    Actions(Map<u32, ActionView>),
}

/// The state after a change.
pub open spec fn changed(state: AppView, change: Change) -> AppView {
    match change {
        Change::Hotkey(hotkey) => AppView { hotkey, ..state },
        Change::Bindings(paste_bindings) => AppView { paste_bindings, ..state },
        Change::Region(region) => AppView { region: Some(region), ..state },
        Change::Frame(frame) => AppView { frames: state.frames.push(frame), ..state },
        Change::NoFrames => AppView { frames: Seq::empty(), ..state },
        Change::Actions(actions) => AppView { actions, ..state },
    }
}

/// Frames live until they are let go, which clearing them and saving a GIF of them do: every
/// other change keeps them all, in order, and only a capture adds one. Nothing but setting it changes the hotkey, the bindings or the region, and
/// a region once set is never unset.
pub proof fn frames_live_until_cleared(state: AppView, change: Change)
    ensures
        !(change is NoFrames) ==> state.frames.is_prefix_of(changed(state, change).frames),
        !(change is NoFrames) && !(change is Frame) ==> changed(state, change).frames
            == state.frames,
        change is Frame ==> changed(state, change).frames.len() == state.frames.len() + 1,
        !(change is Hotkey) ==> changed(state, change).hotkey == state.hotkey,
        !(change is Bindings) ==> changed(state, change).paste_bindings == state.paste_bindings,
        !(change is Region) ==> changed(state, change).region == state.region,
        state.region is Some ==> changed(state, change).region is Some,
        !(change is Actions) ==> changed(state, change).actions == state.actions,
{
}

impl Default for AppState {
    fn default() -> (r: AppState)
        ensures
            r@ == (AppView {
                frames: Seq::empty(),
                region: None,
                hotkey: Seq::empty(),
                paste_bindings: Seq::empty(),
                actions: Map::empty(),
            }),
    {
        let r = AppState {
            frames: Vec::new(),
            region: None,
            hotkey: String::new(),
            paste_bindings: Vec::new(),
            actions: HashMap::new(),
        };
        assert(r@.frames =~= Seq::empty());
        assert(r@.paste_bindings =~= Seq::empty());
        assert(r@.actions =~= Map::empty());
        r
    }
}

/// What the user interface shows of the state.
#[derive(Debug)]
pub struct StateSnapshot {
    pub frame_count: usize,
    pub hotkey: String,
    pub region: Option<RegionDto>,
}

/// A frame that was stored: how many there are now, and its thumbnail.
#[derive(Debug)]
pub struct Captured {
    pub count: usize,
    pub thumb: Option<String>,
}

/// The picture of a grabbed monitor: the region of it, or all of it where no region is set.
pub open spec fn shot(p: Picture, region: Option<RegionDto>) -> Picture {
    match region {
        Some(r) => crop_picture(p, r),
        None => p,
    }
}

/// Cuts the region, if one is set, out of a grabbed monitor.
pub fn take_shot(raw: Vec<u8>, fw: u32, fh: u32, region: Option<RegionDto>) -> (r: CapturedFrame)
    requires
        region matches Some(r) ==> crop_fits(Picture { data: raw@, w: fw, h: fh }, r),
    ensures
        r@ == shot(Picture { data: raw@, w: fw, h: fh }, region),
{
    match region {
        Some(r) => {
            let (data, w, h) = crop(raw.as_slice(), fw, fh, r);
            CapturedFrame { data, w, h }
        },
        None => CapturedFrame { data: raw, w: fw, h: fh },
    }
}

/// Every frame is sound: of a monitor that was grabbed whole, any region can be cut out, and what
/// is stored holds exactly its pixels.
pub proof fn shots_are_whole(p: Picture, region: Option<RegionDto>)
    requires
        p.whole(),
    ensures
        region matches Some(r) ==> crop_fits(p, r),
        shot(p, region).whole(),
{
    if let Some(r) = region {
        crop_stays_inside(p, r);
    }
}

/// The size shown for a region is the size of the frames that it gives: a shot of the region on a
/// monitor of the size that the label was made for is stored with the label's width and height,
/// where the label has any pixels.
pub proof fn frames_have_the_size_shown(state: AppView, p: Picture, r: RegionDto)
    requires
        !empty_region(clamp_region(p.w, p.h, r)),
    ensures
        ({
            let d = clamp_region(p.w, p.h, r);
            let after = changed(state, Change::Frame(shot(p, Some(r))));
            after.frames.last().w == d.w && after.frames.last().h == d.h
        }),
{
    label_is_what_is_cropped(p, r);
}

/// The monitor to grab: the one that the region was drawn on, or the primary one where no region
/// is set.
pub open spec fn monitor_for(region: Option<Region>, monitors: Seq<Monitor>) -> Option<int> {
    match region {
        Some(region) => picked_monitor(monitors, region.mon_x, region.mon_y),
        None => fallback_monitor(monitors),
    }
}

/// The state after some changes.
pub open spec fn changed_by(state: AppView, changes: Seq<Change>) -> AppView
    decreases changes.len(),
{
    if changes.len() == 0 {
        state
    } else {
        changed(changed_by(state, changes.drop_last()), changes.last())
    }
}

/// A region is grabbed on the monitor it was drawn on: once a region is submitted, and whatever
/// else changes before the next one is, the monitor to grab is one at the region's corner as long
/// as there is any.
pub proof fn region_is_grabbed_where_it_was_drawn(
    state: AppView,
    region: Region,
    later: Seq<Change>,
    monitors: Seq<Monitor>,
)
    requires
        forall|i: int| 0 <= i < later.len() ==> !(#[trigger] later[i] is Region),
    ensures
        ({
            let after = changed_by(changed(state, Change::Region(region)), later);
            (exists|j: int|
                0 <= j < monitors.len() && #[trigger] monitors[j].stands_at(
                    region.mon_x,
                    region.mon_y,
                )) ==> {
                &&& monitor_for(after.region, monitors) is Some
                &&& monitors[monitor_for(after.region, monitors)->Some_0].stands_at(
                    region.mon_x,
                    region.mon_y,
                )
            }
        }),
{
    lemma_region_stays(changed(state, Change::Region(region)), later);
    pick_prefers_the_corner(monitors, region.mon_x, region.mon_y);
}

proof fn lemma_region_stays(state: AppView, changes: Seq<Change>)
    requires
        forall|i: int| 0 <= i < changes.len() ==> !(#[trigger] changes[i] is Region),
    ensures
        changed_by(state, changes).region == state.region,
    decreases changes.len(),
{
    if changes.len() > 0 {
        let before = changes.drop_last();
        assert forall|i: int| 0 <= i < before.len() implies !(#[trigger] before[i] is Region) by {
            assert(before[i] == changes[i]);
        }
        lemma_region_stays(state, before);
        assert(!(changes[changes.len() - 1] is Region));
    }
}

impl AppState {
    /// Registers the GIF hotkey that the program starts with.
    pub fn setup(&mut self)
        ensures
            final(self)@ == changed(old(self)@, Change::Hotkey(DEFAULT_HOTKEY@)),
    {
        self.hotkey = DEFAULT_HOTKEY.to_string();
    }

    /// The monitor to grab: the one the region was drawn on, or the primary one.
    pub fn capture_index(&self, listing: &Result<Vec<Monitor>, String>) -> (r: Result<
        usize,
        String,
    >)
        ensures
            index_or_error(r) == (match listing {
                Err(e) => Err(e@),
                Ok(monitors) => found(monitor_for(self@.region, monitors@)),
            }),
    {
        match self.region {
            Some(region) => capture_monitor(listing, region.mon_x, region.mon_y),
            None => capture_primary(listing),
        }
    }

    /// Store a captured picture as a frame. `scaled_h` is the height of its thumbnail that keeps
    /// the proportions.
    pub fn do_capture(&mut self, frame: CapturedFrame, scaled_h: u32) -> (r: Captured)
        requires
            frame@.data.len() >= frame@.area() ==> scalable(
                frame.w,
                frame.h,
                THUMB_WIDTH,
                positive(scaled_h),
            ),
        ensures
            final(self)@ == changed(old(self)@, Change::Frame(frame@)),
            r.count == final(self)@.frames.len(),
            text_view(r.thumb) == thumbnail(frame@, positive(scaled_h)),
    {
        let thumb = make_thumb(frame.data.as_slice(), frame.w, frame.h, scaled_h);
        self.frames.push(frame);
        assert(self@.frames =~= old(self)@.frames.push(frame@));
        Captured { count: self.frames.len(), thumb }
    }

    /// Ends the making of a GIF, by the error that it ended with, if any: the frames of one that
    /// was saved are let go, and an error is handed on with everything left as it was.
    pub fn finish_gif(&mut self, error: Option<String>) -> (r: Result<(), String>)
        ensures
            match error {
                None => r is Ok && final(self)@ == changed(old(self)@, Change::NoFrames),
                Some(e) => {
                    &&& r is Err
                    &&& r->Err_0@ == e@
                    &&& *final(self) == *old(self)
                },
            },
    {
        match error {
            None => {
                self.frames.clear();
                assert(self@.frames =~= Seq::empty());
                Ok(())
            },
            Some(e) => Err(e),
        }
    }

    /// Forgets all frames and returns how many are left.
    pub fn clear_frames(&mut self) -> (r: usize)
        ensures
            final(self)@ == changed(old(self)@, Change::NoFrames),
            r == 0,
    {
        self.frames.clear();
        assert(self@.frames =~= Seq::empty());
        0
    }

    /// Takes the region that was drawn on an overlay. `fx`, `fy`, `fw` and `fh` are the bits of
    /// its fractions; `monitor` is the corner of the overlay's monitor, and `outer` the position
    /// of the overlay itself, as far as they are known.
    pub fn submit_region(
        &mut self,
        fx: u64,
        fy: u64,
        fw: u64,
        fh: u64,
        monitor: Option<(i32, i32)>,
        outer: Option<(i32, i32)>,
    ) -> (r: Region)
        ensures
            ({
                let corner = match monitor {
                    Some(corner) => corner,
                    None => match outer {
                        Some(corner) => corner,
                        None => (0i32, 0i32),
                    },
                };
                r == Region { fx, fy, fw, fh, mon_x: corner.0, mon_y: corner.1 }
            }),
            final(self)@ == changed(old(self)@, Change::Region(r)),
    {
        let (mon_x, mon_y) = region_origin(monitor, outer);
        let region = Region { fx, fy, fw, fh, mon_x, mon_y };
        self.region = Some(region);
        region
    }

    /// Sets the GIF hotkey, unless the accelerator names no shortcut: a bad accelerator does not
    /// wipe the binding.
    pub fn set_hotkey(&mut self, accelerator: String) -> (r: Result<(), String>)
        ensures
            match shortcut_parse(accelerator@) {
                Ok(_) => {
                    &&& r is Ok
                    &&& final(self)@ == changed(old(self)@, Change::Hotkey(accelerator@))
                },
                Err(e) => {
                    &&& r is Err
                    &&& r->Err_0@ == e
                    &&& final(self)@ == old(self)@
                },
            },
    {
        match parse_shortcut(accelerator.as_str()) {
            Ok(_) => {},
            Err(e) => return Err(e),
        }
        self.hotkey = accelerator;
        Ok(())
    }

    /// Replace the full set of text-paster bindings.
    pub fn set_paste_bindings(&mut self, bindings: Vec<PasteBinding>)
        ensures
            final(self)@ == changed(old(self)@, Change::Bindings(binding_views(bindings@))),
    {
        self.paste_bindings = bindings;
    }

    /// Starts to register all shortcuts anew, from the current GIF hotkey and bindings.
    pub fn reapply_shortcuts(&self) -> (r: Reapply)
        ensures
            r.wf(),
            r.cands() == candidates(self@.hotkey, self@.paste_bindings),
            r.answers() == Seq::<bool>::empty(),
            !r.waiting(),
    {
        let mut bindings: Vec<PasteBinding> = Vec::new();
        let mut i: usize = 0;
        while i < self.paste_bindings.len()
            invariant
                i <= self.paste_bindings@.len(),
                binding_views(bindings@) == binding_views(self.paste_bindings@).take(i as int),
            decreases self.paste_bindings@.len() - i,
        {
            let b: &PasteBinding = &self.paste_bindings[i];
            let ghost before = bindings@;
            bindings.push(
                PasteBinding { accelerator: b.accelerator.clone(), text: b.text.clone() },
            );
            assert(binding_views(bindings@) =~= binding_views(before).push(b@));
            assert(binding_views(self.paste_bindings@).take(i + 1) =~= binding_views(
                self.paste_bindings@,
            ).take(i as int).push(b@));
            i = i + 1;
        }
        assert(binding_views(self.paste_bindings@).take(self.paste_bindings@.len() as int)
            =~= binding_views(self.paste_bindings@));
        Reapply::start(self.hotkey.clone(), bindings)
    }

    /// Puts the actions of a registration that is through in force.
    pub fn shortcuts_registered(&mut self, registered: Reapply)
        requires
            registered.wf(),
            registered.answers().len() == registered.cands().len(),
        ensures
            final(self)@ == changed(
                old(self)@,
                Change::Actions(
                    actions_after(
                        registered.cands(),
                        registered.answers(),
                        registered.cands().len(),
                    ),
                ),
            ),
    {
        self.actions = registered.finish();
    }

    /// What the user interface shows. `pixels` is the region in pixels; it counts only where a
    /// region is set.
    pub fn get_state(&self, pixels: Option<RegionDto>) -> (r: StateSnapshot)
        ensures
            r.frame_count == self@.frames.len(),
            r.hotkey@ == self@.hotkey,
            r.region == (if self@.region is Some {
                pixels
            } else {
                None
            }),
    {
        StateSnapshot {
            frame_count: self.frames.len(),
            hotkey: self.hotkey.clone(),
            region: match self.region {
                Some(_) => pixels,
                None => None,
            },
        }
    }
}

// ---------- What each change does ----------

/// Each change sets its own part of the state to what it brings and leaves the rest.
pub proof fn changes_set_what_they_bring(
    state: AppView,
    hotkey: Seq<char>,
    bindings: Seq<BindingView>,
    region: Region,
    frame: Picture,
    actions: Map<u32, ActionView>,
)
    ensures
        changed(state, Change::Hotkey(hotkey)).hotkey == hotkey,
        changed(state, Change::Bindings(bindings)).paste_bindings == bindings,
        changed(state, Change::Region(region)).region == Some(region),
        changed(state, Change::Frame(frame)).frames.len() == state.frames.len() + 1,
        changed(state, Change::Frame(frame)).frames.last() == frame,
        forall|i: int|
            0 <= i < state.frames.len() ==> #[trigger] changed(
                state,
                Change::Frame(frame),
            ).frames[i] == state.frames[i],
        changed(state, Change::NoFrames).frames.len() == 0,
        changed(state, Change::Actions(actions)).actions == actions,
        DEFAULT_HOTKEY@ == "F8"@,
{
}

/// Changes follow one another.
pub proof fn changes_follow_one_another(state: AppView, changes: Seq<Change>, last: Change)
    ensures
        changed_by(state, Seq::empty()) == state,
        changed_by(state, changes.push(last)) == changed(changed_by(state, changes), last),
{
    assert(changes.push(last).drop_last() =~= changes);
}

/// A shot is the grabbed monitor as it is where no region is set, and else the region cropped out
/// of it.
pub proof fn shot_is_the_monitor_or_its_region(p: Picture, r: RegionDto)
    ensures
        shot(p, None) == p,
        shot(p, Some(r)) == crop_picture(p, r),
{
}

/// The monitor to grab is picked by the region's own corner, and is the primary one where no region
/// is set.
pub proof fn region_picks_by_its_corner(region: Region, monitors: Seq<Monitor>)
    ensures
        monitor_for(Some(region), monitors) == picked_monitor(monitors, region.mon_x, region.mon_y),
        monitor_for(None, monitors) == fallback_monitor(monitors),
{
}

/// The state is seen as it is: its frames in order, its region, hotkey, bindings and actions.
pub proof fn state_is_seen_as_it_is(state: AppState, i: int, id: u32)
    ensures
        state@.frames.len() == state.frames@.len(),
        0 <= i < state.frames@.len() ==> state@.frames[i].data == state.frames@[i].data@
            && state@.frames[i].w == state.frames@[i].w && state@.frames[i].h == state.frames@[i].h,
        state@.region == state.region,
        state@.hotkey == state.hotkey@,
        state@.paste_bindings.len() == state.paste_bindings@.len(),
        0 <= i < state.paste_bindings@.len() ==> state@.paste_bindings[i].accelerator
            == state.paste_bindings@[i].accelerator@ && state@.paste_bindings[i].text
            == state.paste_bindings@[i].text@,
        state@.actions.dom() == state.actions@.dom(),
        state.actions@.dom().contains(id) ==> state@.actions[id] == state.actions@[id]@,
{
    assert(state@.actions.dom() =~= state.actions@.dom());
}

} // verus!
