//! What the text paster and the cursor overlay hand to the platform, and what they make of its
//! answers: clipboard blocks, synthesized key strokes and cursor images.

use crate::text::chars_of;
use vstd::prelude::*;

verus! {

// ---------- Clipboard ----------

pub open spec fn is_high_surrogate(u: u16) -> bool {
    0xD800 <= u <= 0xDBFF
}

pub open spec fn is_low_surrogate(u: u16) -> bool {
    0xDC00 <= u <= 0xDFFF
}

/// The UTF-16 code units of one character.
pub open spec fn utf16_units(c: char) -> Seq<u16> {
    let n = c as u32;
    if n < 0x10000 {
        seq![n as u16]
    } else {
        let m = (n - 0x10000) as u32;
        seq![(0xD800 + m / 0x400) as u16, (0xDC00 + m % 0x400) as u16]
    }
}

/// A text in UTF-16.
pub open spec fn utf16(s: Seq<char>) -> Seq<u16>
    decreases s.len(),
{
    if s.len() == 0 {
        Seq::empty()
    } else {
        utf16_units(s[0]) + utf16(s.drop_first())
    }
}

/// The character that a pair of surrogates stands for.
pub open spec fn surrogate_pair(high: u16, low: u16) -> char {
    (0x10000 + (high - 0xD800) * 0x400 + (low - 0xDC00)) as u32 as char
}

/// The text that UTF-16 code units stand for; each unpaired surrogate reads as U+FFFD.
pub open spec fn utf16_lossy(u: Seq<u16>) -> Seq<char>
    decreases u.len(),
{
    if u.len() == 0 {
        Seq::empty()
    } else if !is_high_surrogate(u[0]) && !is_low_surrogate(u[0]) {
        seq![u[0] as char] + utf16_lossy(u.skip(1))
    } else if is_high_surrogate(u[0]) && u.len() > 1 && is_low_surrogate(u[1]) {
        seq![surrogate_pair(u[0], u[1])] + utf16_lossy(u.skip(2))
    } else {
        seq!['\u{FFFD}'] + utf16_lossy(u.skip(1))
    }
}

/// The units before the first NUL, or all of them where there is none.
pub open spec fn before_nul(u: Seq<u16>) -> Seq<u16>
    decreases u.len(),
{
    if u.len() == 0 || u[0] == 0 {
        Seq::empty()
    } else {
        seq![u[0]] + before_nul(u.skip(1))
    }
}

/// The text of the clipboard. `block` holds the code units that the platform keeps for it, and
/// is `None` where there is no clipboard to open or no text on it.
pub fn clipboard_get_text(block: Option<&[u16]>) -> (r: Option<String>)
    ensures
        r is Some <==> block is Some,
        block matches Some(units) ==> r->Some_0@ == utf16_lossy(before_nul(units@)),
{
    let units: &[u16] = match block {
        None => return None,
        Some(units) => units,
    };
    let mut len: usize = 0;
    assert(units@.skip(0) == units@);
    assert(units@.take(0) + before_nul(units@) == before_nul(units@));
    while len < units.len() && units[len] != 0
        invariant
            len <= units.len(),
            before_nul(units@) == units@.take(len as int) + before_nul(units@.skip(len as int)),
        decreases units.len() - len,
    {
        proof {
            let rest = units@.skip(len as int);
            assert(rest.skip(1) == units@.skip(len + 1));
            assert(units@.take(len as int) + (seq![rest[0]] + before_nul(rest.skip(1)))
                =~= units@.take(len + 1) + before_nul(rest.skip(1)));
        }
        len = len + 1;
    }
    assert(before_nul(units@.skip(len as int)) == Seq::<u16>::empty());
    assert(before_nul(units@) =~= units@.take(len as int));
    let ghost all = units@.take(len as int);
    let mut out = String::new();
    let mut i: usize = 0;
    assert(all.skip(0) == all);
    while i < len
        invariant
            i <= len <= units.len(),
            all == units@.take(len as int),
            utf16_lossy(all) == out@ + utf16_lossy(all.skip(i as int)),
        decreases len - i,
    {
        let u = units[i];
        let ghost rest = all.skip(i as int);
        let ghost before = out@;
        assert(rest[0] == u);
        assert(rest.skip(1) == all.skip(i + 1));
        if u < 0xD800 || 0xDFFF < u {
            match char::from_u32(u as u32) {
                Some(c) => {
                    assert(c == u as char);
                    out.push(c);
                    assert(before + (seq![c] + utf16_lossy(rest.skip(1))) =~= out@ + utf16_lossy(
                        rest.skip(1),
                    ));
                },
                None => {
                    assert(false);
                },
            }
            i = i + 1;
        } else if u <= 0xDBFF && i + 1 < len && 0xDC00 <= units[i + 1] && units[i + 1] <= 0xDFFF {
            let v = units[i + 1];
            assert(rest[1] == v);
            assert(rest.skip(2) == all.skip(i + 2));
            match char::from_u32(
                0x10000u32 + (u as u32 - 0xD800) * 0x400 + (v as u32 - 0xDC00),
            ) {
                Some(c) => {
                    assert(c == surrogate_pair(u, v));
                    out.push(c);
                    assert(before + (seq![c] + utf16_lossy(rest.skip(2))) =~= out@ + utf16_lossy(
                        rest.skip(2),
                    ));
                },
                None => {
                    assert(false);
                },
            }
            i = i + 2;
        } else {
            out.push('\u{FFFD}');
            assert(before + (seq!['\u{FFFD}'] + utf16_lossy(rest.skip(1))) =~= out@ + utf16_lossy(
                rest.skip(1),
            ));
            i = i + 1;
        }
    }
    assert(all.skip(len as int) == Seq::<u16>::empty());
    assert(out@ + Seq::<char>::empty() =~= out@);
    Some(out)
}

/// What is put on the clipboard: NUL-terminated UTF-16 units, and the size in bytes of the
/// memory block that holds them.
#[derive(Debug)]
pub struct ClipboardBlock {
    pub units: Vec<u16>,
    pub bytes: usize,
}

/// The block that puts `text` on the clipboard.
pub fn clipboard_set_text(text: &str) -> (r: ClipboardBlock)
    requires
        (utf16(text@).len() + 1) * 2 <= usize::MAX,
    ensures
        r.units@ == utf16(text@).push(0),
        r.bytes == r.units@.len() * 2,
{
    let cs = chars_of(text);
    let mut units: Vec<u16> = Vec::new();
    let mut i: usize = 0;
    assert(cs@.skip(0) == cs@);
    while i < cs.len()
        invariant
            i <= cs.len(),
            cs@ == text@,
            utf16(text@) == units@ + utf16(cs@.skip(i as int)),
        decreases cs.len() - i,
    {
        let c = cs[i];
        let n: u32 = c as u32;
        let ghost before = units@;
        let ghost rest = cs@.skip(i as int);
        assert(rest[0] == c);
        assert(rest.drop_first() == cs@.skip(i + 1));
        if n < 0x10000 {
            units.push(n as u16);
        } else {
            let m: u32 = n - 0x10000;
            units.push((0xD800 + m / 0x400) as u16);
            units.push((0xDC00 + m % 0x400) as u16);
        }
        assert(units@ =~= before + utf16_units(c));
        assert(before + (utf16_units(c) + utf16(rest.drop_first())) =~= units@ + utf16(
            rest.drop_first(),
        ));
        i = i + 1;
    }
    assert(cs@.skip(cs@.len() as int) == Seq::<char>::empty());
    assert(units@ + Seq::<u16>::empty() =~= units@);
    units.push(0);
    let bytes: usize = units.len() * 2;
    ClipboardBlock { units, bytes }
}

proof fn lemma_units_of_char(c: char, rest: Seq<u16>)
    requires
        c != '\0',
    ensures
        utf16_lossy(utf16_units(c) + rest) == seq![c] + utf16_lossy(rest),
        before_nul(utf16_units(c) + rest) == utf16_units(c) + before_nul(rest),
{
    let u = utf16_units(c);
    let n = c as u32;
    let all = u + rest;
    if n < 0x10000 {
        assert(all[0] == n as u16);
        assert(all.skip(1) =~= rest);
        assert(!is_high_surrogate(all[0]) && !is_low_surrogate(all[0]));
        assert(all[0] as char == c);
        assert(before_nul(all) =~= u + before_nul(rest));
    } else {
        let m = (n - 0x10000) as u32;
        assert(all[0] == (0xD800 + m / 0x400) as u16);
        assert(all[1] == (0xDC00 + m % 0x400) as u16);
        assert(all.skip(2) =~= rest);
        assert(all.skip(1).skip(1) =~= rest);
        assert(surrogate_pair(all[0], all[1]) == c);
        assert(before_nul(all.skip(1)) =~= seq![all[1]] + before_nul(rest));
        assert(before_nul(all) =~= u + before_nul(rest));
    }
}

/// What is put on the clipboard reads back unchanged: the block made for a text without NUL
/// characters reads as that text, whatever follows its terminator in memory.
pub proof fn clipboard_reads_back(text: Seq<char>, junk: Seq<u16>)
    requires
        !text.contains('\0'),
    ensures
        before_nul(utf16(text).push(0) + junk) == utf16(text),
        utf16_lossy(before_nul(utf16(text).push(0) + junk)) == text,
    decreases text.len(),
{
    if text.len() == 0 {
        assert((utf16(text).push(0) + junk)[0] == 0);
        assert(utf16_lossy(Seq::<u16>::empty()) =~= text);
    } else {
        let c = text[0];
        let rest = text.drop_first();
        assert(text.contains(c));
        assert forall|d: char| rest.contains(d) implies text.contains(d) by {
            let i = choose|i: int| 0 <= i < rest.len() && rest[i] == d;
            assert(text[i + 1] == d);
        }
        clipboard_reads_back(rest, junk);
        let tail = utf16(rest).push(0) + junk;
        assert(utf16(text).push(0) + junk =~= utf16_units(c) + tail);
        lemma_units_of_char(c, tail);
        lemma_units_of_char(c, utf16(rest));
        assert(seq![c] + rest =~= text);
    }
}

/// A text with a NUL reads back as the part before its first NUL.
pub proof fn clipboard_stops_at_nul(head: Seq<char>, tail: Seq<char>, junk: Seq<u16>)
    requires
        !head.contains('\0'),
    ensures
        utf16_lossy(before_nul(utf16(head.push('\0') + tail).push(0) + junk)) == head,
{
    lemma_utf16_appends(head, seq!['\0'] + tail);
    assert(head.push('\0') + tail =~= head + (seq!['\0'] + tail));
    let rest = seq!['\0'] + tail;
    assert(rest.drop_first() =~= tail);
    assert(utf16_units('\0') =~= seq![0u16]);
    assert(utf16(rest) == seq![0u16] + utf16(tail));
    assert(utf16(head + rest).push(0) + junk =~= utf16(head).push(0) + (utf16(tail).push(0)
        + junk));
    clipboard_reads_back(head, utf16(tail).push(0) + junk);
}

proof fn lemma_utf16_appends(a: Seq<char>, b: Seq<char>)
    ensures
        utf16(a + b) == utf16(a) + utf16(b),
    decreases a.len(),
{
    if a.len() == 0 {
        assert(a + b =~= b);
        assert(utf16(a) + utf16(b) =~= utf16(b));
    } else {
        assert((a + b).drop_first() =~= a.drop_first() + b);
        lemma_utf16_appends(a.drop_first(), b);
        assert(utf16(a + b) =~= utf16(a) + utf16(b));
    }
}

// ---------- Synthesized input ----------

pub const VK_SHIFT: u16 = 0x10;

pub const VK_CONTROL: u16 = 0x11;

pub const VK_MENU: u16 = 0x12;

pub const VK_V: u16 = 0x56;

pub const VK_LWIN: u16 = 0x5B;

pub const VK_RWIN: u16 = 0x5C;

/// The flag of a keyboard event that releases a key.
pub const KEYEVENTF_KEYUP: u32 = 0x0002;

/// One synthesized keyboard event.
#[derive(Clone, Copy, Debug, PartialEq, Eq, Structural)]
pub struct KeyEvent {
    pub vk: u16,
    pub scan: u16,
    pub flags: u32,
    pub time: u32,
}

/// The event that presses (`up` false) or releases (`up` true) a key.
pub open spec fn key(vk: u16, up: bool) -> KeyEvent {
    KeyEvent {
        vk,
        scan: 0,
        flags: if up {
            KEYEVENTF_KEYUP
        } else {
            0
        },
        time: 0,
    }
}

/// Builds the event that presses or releases a key.
pub fn key_event(vk: u16, up: bool) -> (r: KeyEvent)
    ensures
        r == key(vk, up),
{
    KeyEvent {
        vk,
        scan: 0,
        flags: if up {
            KEYEVENTF_KEYUP
        } else {
            0
        },
        time: 0,
    }
}

/// One step of synthesized input: a batch of events that go in together, or a pause in
/// milliseconds.
#[derive(Debug)]
pub enum InputStep {
    Send(Vec<KeyEvent>),
    Sleep(u64),
}

/// The model of a step.
pub enum InputStepView {
    Send(Seq<KeyEvent>),
    Sleep(u64),
}

impl View for InputStep {
    type V = InputStepView;

    open spec fn view(&self) -> InputStepView {
        match self {
            InputStep::Send(events) => InputStepView::Send(events@),
            InputStep::Sleep(ms) => InputStepView::Sleep(*ms),
        }
    }
}

pub open spec fn step_views(steps: Seq<InputStep>) -> Seq<InputStepView> {
    steps.map_values(|s: InputStep| s@)
}

/// The keys of a hotkey that the user may still be holding, in the order they are let go.
pub open spec fn modifier_keys() -> Seq<u16> {
    seq![VK_CONTROL, VK_MENU, VK_SHIFT, VK_LWIN, VK_RWIN]
}

/// The steps of a paste: each modifier is released by itself, then, after a pause, Ctrl+V is
/// pressed and released in one batch.
pub open spec fn paste_steps() -> Seq<InputStepView> {
    modifier_keys().map_values(|vk: u16| InputStepView::Send(seq![key(vk, true)])) + seq![
        InputStepView::Sleep(15),
        InputStepView::Send(
            seq![key(VK_CONTROL, false), key(VK_V, false), key(VK_V, true), key(VK_CONTROL, true)],
        ),
    ]
}

/// Release any modifier keys the user may still be holding from the triggering hotkey, then
/// synthesize a clean Ctrl+V.
pub fn send_paste() -> (r: Vec<InputStep>)
    ensures
        step_views(r@) == paste_steps(),
{
    let mut steps: Vec<InputStep> = Vec::new();
    let held: [u16; 5] = [VK_CONTROL, VK_MENU, VK_SHIFT, VK_LWIN, VK_RWIN];
    let ghost releases = modifier_keys().map_values(
        |vk: u16| InputStepView::Send(seq![key(vk, true)]),
    );
    let mut i: usize = 0;
    while i < 5
        invariant
            i <= 5,
            held@ == modifier_keys(),
            releases == modifier_keys().map_values(
                |vk: u16| InputStepView::Send(seq![key(vk, true)]),
            ),
            step_views(steps@) == releases.take(i as int),
        decreases 5 - i,
    {
        let mut batch: Vec<KeyEvent> = Vec::new();
        batch.push(key_event(held[i], true));
        assert(batch@ =~= seq![key(held@[i as int], true)]);
        let ghost before = steps@;
        steps.push(InputStep::Send(batch));
        assert(step_views(steps@) =~= step_views(before).push(steps@[i as int]@));
        assert(releases.take(i + 1) =~= releases.take(i as int).push(releases[i as int]));
        i = i + 1;
    }
    assert(releases.take(5) =~= releases);
    let ghost before = steps@;
    steps.push(InputStep::Sleep(15));
    let mut batch: Vec<KeyEvent> = Vec::new();
    batch.push(key_event(VK_CONTROL, false));
    batch.push(key_event(VK_V, false));
    batch.push(key_event(VK_V, true));
    batch.push(key_event(VK_CONTROL, true));
    assert(batch@ =~= seq![
        key(VK_CONTROL, false),
        key(VK_V, false),
        key(VK_V, true),
        key(VK_CONTROL, true),
    ]);
    steps.push(InputStep::Send(batch));
    assert(step_views(steps@) =~= step_views(before) + seq![
        InputStepView::Sleep(15),
        InputStepView::Send(batch@),
    ]);
    steps
}

/// The keys that are down after one event.
pub open spec fn held_after_event(held: Set<u16>, e: KeyEvent) -> Set<u16> {
    if e.flags == KEYEVENTF_KEYUP {
        held.remove(e.vk)
    } else {
        held.insert(e.vk)
    }
}

/// The keys that are down after a run of events.
pub open spec fn held_after(held: Set<u16>, events: Seq<KeyEvent>) -> Set<u16>
    decreases events.len(),
{
    if events.len() == 0 {
        held
    } else {
        held_after_event(held_after(held, events.drop_last()), events.last())
    }
}

/// All events of the steps, in order.
pub open spec fn events_of(steps: Seq<InputStepView>) -> Seq<KeyEvent>
    decreases steps.len(),
{
    if steps.len() == 0 {
        Seq::empty()
    } else {
        events_of(steps.drop_last()) + match steps.last() {
            InputStepView::Send(events) => events,
            InputStepView::Sleep(_) => Seq::empty(),
        }
    }
}

pub open spec fn paste_events() -> Seq<KeyEvent> {
    seq![
        key(VK_CONTROL, true),
        key(VK_MENU, true),
        key(VK_SHIFT, true),
        key(VK_LWIN, true),
        key(VK_RWIN, true),
        key(VK_CONTROL, false),
        key(VK_V, false),
        key(VK_V, true),
        key(VK_CONTROL, true),
    ]
}

proof fn lemma_paste_events()
    ensures
        events_of(paste_steps()) == paste_events(),
{
    let s = paste_steps();
    reveal_with_fuel(events_of, 8);
    assert(s.len() == 7);
    let s6 = s.drop_last();
    let s5 = s6.drop_last();
    let s4 = s5.drop_last();
    let s3 = s4.drop_last();
    let s2 = s3.drop_last();
    let s1 = s2.drop_last();
    let s0 = s1.drop_last();
    assert(events_of(s0) =~= Seq::empty());
    assert(events_of(s1) =~= seq![key(VK_CONTROL, true)]);
    assert(events_of(s2) =~= seq![key(VK_CONTROL, true), key(VK_MENU, true)]);
    assert(events_of(s5) =~= paste_events().take(5));
    assert(events_of(s6) =~= paste_events().take(5));
    assert(events_of(s) =~= paste_events());
}

/// The paste is a clean Ctrl+V whatever the user holds when it starts: at the moment V goes
/// down, Control is the only modifier that is down, and once the steps are through no modifier
/// and no V is left down, while every other key is as it was.
pub proof fn paste_is_clean(held: Set<u16>)
    ensures
        ({
            let events = events_of(paste_steps());
            let at_v = held_after(held, events.take(7));
            let done = held_after(held, events);
            &&& events[6] == key(VK_V, false)
            &&& forall|vk: u16|
                modifier_keys().contains(vk) ==> (at_v.contains(vk) <==> vk == VK_CONTROL)
            &&& at_v.contains(VK_V)
            &&& forall|vk: u16| #[trigger]
                done.contains(vk) <==> held.contains(vk) && !modifier_keys().contains(vk) && vk
                    != VK_V
        }),
{
    lemma_paste_events();
    let e = paste_events();
    reveal_with_fuel(held_after, 11);
    assert(e.take(9) =~= e);
    let m = modifier_keys();
    assert(m[0] == VK_CONTROL && m[1] == VK_MENU && m[2] == VK_SHIFT && m[3] == VK_LWIN && m[4]
        == VK_RWIN);
    assert forall|vk: u16| m.contains(vk) <==> (vk == VK_CONTROL || vk == VK_MENU || vk == VK_SHIFT
        || vk == VK_LWIN || vk == VK_RWIN) by {
        if m.contains(vk) {
            let i = choose|i: int| 0 <= i < m.len() && m[i] == vk;
        }
    }
    let e5 = e.take(5);
    let e7 = e.take(7);
    assert(e7.drop_last() =~= e.take(6));
    assert(e.take(6).drop_last() =~= e5);
    assert(e5.drop_last() =~= e.take(4));
    assert(e.take(4).drop_last() =~= e.take(3));
    assert(e.take(3).drop_last() =~= e.take(2));
    assert(e.take(2).drop_last() =~= e.take(1));
    assert(e.take(1).drop_last() =~= Seq::empty());
    assert(e.drop_last() =~= e.take(8));
    assert(e.take(8).drop_last() =~= e7);
    let h5 = held_after(held, e5);
    assert(h5 == held.remove(VK_CONTROL).remove(VK_MENU).remove(VK_SHIFT).remove(VK_LWIN).remove(
        VK_RWIN,
    ));
    assert(held_after(held, e7) == h5.insert(VK_CONTROL).insert(VK_V));
    assert(held_after(held, e) == h5.insert(VK_CONTROL).insert(VK_V).remove(VK_V).remove(
        VK_CONTROL,
    ));
}

// ---------- System cursor replacement ----------

/// The standard system cursors that are replaced and restored, by their `OCR_*` ids.
pub const OCR_IDS: [u32; 14] = [
    32512,
    32513,
    32514,
    32515,
    32516,
    32642,
    32643,
    32644,
    32645,
    32646,
    32648,
    32649,
    32650,
    32651,
];

/// A cursor image ready for the platform: a top-down bitmap (hence the negative height) of
/// premultiplied BGRA pixels and the hotspot.
#[derive(Debug)]
pub struct CursorImage {
    pub width: i32,
    pub height: i32,
    pub planes: u16,
    pub bit_count: u16,
    pub bgra: Vec<u8>,
    pub hx: u32,
    pub hy: u32,
}

/// Byte `i` of the premultiplied BGRA form of straight-alpha RGBA pixels.
pub open spec fn premultiplied_byte(rgba: Seq<u8>, i: int) -> u8 {
    let p = i - i % 4;
    let a = rgba[p + 3];
    if i % 4 == 3 {
        a
    } else {
        ((rgba[p + 2 - i % 4] * a) / 255) as u8
    }
}

/// The premultiplied BGRA form of the first `px` straight-alpha RGBA pixels.
pub open spec fn premultiplied(rgba: Seq<u8>, px: nat) -> Seq<u8> {
    Seq::new(px * 4, |i: int| premultiplied_byte(rgba, i))
}

/// The picture has pixels and the buffer holds all of them.
pub open spec fn cursor_drawable(rgba: Seq<u8>, w: u32, h: u32) -> bool {
    w > 0 && h > 0 && rgba.len() >= w * h * 4
}

impl CursorImage {
    /// The image shows the first `w * h` pixels of `rgba` with the hotspot at (`hx`, `hy`).
    pub open spec fn depicts(self, rgba: Seq<u8>, w: u32, h: u32, hx: u32, hy: u32) -> bool {
        &&& self.width == w as i32
        &&& self.height == -(h as i32)
        &&& self.planes == 1
        &&& self.bit_count == 32
        &&& self.bgra@ == premultiplied(rgba, (w * h) as nat)
        &&& self.hx == hx
        &&& self.hy == hy
    }
}

/// Prepare a cursor image from a straight-alpha RGBA buffer (`w` by `h` pixels, top-down rows)
/// with its hotspot at (`hx`, `hy`).
pub fn make_cursor(rgba: &[u8], w: u32, h: u32, hx: u32, hy: u32) -> (r: Option<CursorImage>)
    requires
        cursor_drawable(rgba@, w, h) ==> h != 0x8000_0000,
    ensures
        r is Some <==> cursor_drawable(rgba@, w, h),
        r matches Some(c) ==> c.depicts(rgba@, w, h, hx, hy),
{
    assert(0 <= w * h <= 0xFFFF_FFFF * 0xFFFF_FFFF) by (nonlinear_arith)
        requires
            0 <= w <= 0xFFFF_FFFF,
            0 <= h <= 0xFFFF_FFFF,
    ;
    let need: u128 = w as u128 * h as u128;
    if w == 0 || h == 0 || (rgba.len() as u128) < need * 4 {
        return None;
    }
    let px: usize = need as usize;
    let mut bgra: Vec<u8> = Vec::new();
    let ghost full = premultiplied(rgba@, px as nat);
    let mut i: usize = 0;
    while i < px
        invariant
            i <= px,
            px * 4 <= rgba@.len(),
            rgba@.len() <= usize::MAX,
            full == premultiplied(rgba@, px as nat),
            bgra@ == full.take(i * 4),
        decreases px - i,
    {
        let r: u32 = rgba[i * 4] as u32;
        let g: u32 = rgba[i * 4 + 1] as u32;
        let b: u32 = rgba[i * 4 + 2] as u32;
        let a: u32 = rgba[i * 4 + 3] as u32;
        assert(r * a <= 255 * 255 && g * a <= 255 * 255 && b * a <= 255 * 255) by (nonlinear_arith)
            requires
                0 <= r <= 255,
                0 <= g <= 255,
                0 <= b <= 255,
                0 <= a <= 255,
        ;
        let ghost before = bgra@;
        bgra.push(((b * a) / 255) as u8);
        bgra.push(((g * a) / 255) as u8);
        bgra.push(((r * a) / 255) as u8);
        bgra.push(a as u8);
        proof {
            let j = i * 4;
            assert(full[j] == premultiplied_byte(rgba@, j));
            assert(full[j + 1] == premultiplied_byte(rgba@, j + 1));
            assert(full[j + 2] == premultiplied_byte(rgba@, j + 2));
            assert(full[j + 3] == premultiplied_byte(rgba@, j + 3));
            assert(bgra@ =~= full.take(j + 4));
        }
        i = i + 1;
    }
    assert(full.take(px * 4) =~= full);
    let width: i32 = #[verifier::truncate] (w as i32);
    let height: i32 = #[verifier::truncate] (h as i32);
    assert(h != 0x8000_0000u32 ==> h as i32 != i32::MIN) by (bit_vector);
    Some(CursorImage { width, height: -height, planes: 1, bit_count: 32, bgra, hx, hy })
}

/// Premultiplying keeps every colour channel at or below alpha, keeps the colours of an opaque
/// pixel (in the order blue, green, red), and turns a fully transparent pixel to zeros.
pub proof fn premultiplied_is_bounded(rgba: Seq<u8>, px: nat, k: int)
    requires
        0 <= k < px,
        px * 4 <= rgba.len(),
    ensures
        ({
            let out = premultiplied(rgba, px);
            let p = k * 4;
            &&& out[p + 3] == rgba[p + 3]
            &&& out[p] <= out[p + 3] && out[p + 1] <= out[p + 3] && out[p + 2] <= out[p + 3]
            &&& rgba[p + 3] == 255 ==> out[p] == rgba[p + 2] && out[p + 1] == rgba[p + 1] && out[p
                + 2] == rgba[p]
            &&& rgba[p + 3] == 0 ==> out[p] == 0 && out[p + 1] == 0 && out[p + 2] == 0
        }),
{
    let p = k * 4;
    let a = rgba[p + 3];
    assert forall|c: u8| #![trigger (c * a)] 0 <= (c * a) / 255 <= a && (a == 255 ==> (c * a) / 255
        == c) && (a == 0 ==> (c * a) / 255 == 0) by {
        assert(0 <= c * a <= 255 * a) by (nonlinear_arith)
            requires
                0 <= c <= 255,
                0 <= a,
        ;
        assert(a == 0 ==> c * a == 0) by (nonlinear_arith);
        assert(a == 255 ==> c * a == c * 255);
    }
    assert(0 <= rgba[p] * a && 0 <= rgba[p + 1] * a && 0 <= rgba[p + 2] * a);
}

/// The writes that replace the system cursors: the same image goes to each slot, which takes
/// the image over, so every slot needs a copy of its own.
#[derive(Debug)]
pub struct CursorPlan {
    pub image: CursorImage,
    pub slots: Vec<u32>,
}

/// Replace every standard system cursor with the supplied image: what to write, and to which
/// slots. `None` where the picture cannot be drawn, and then no slot is written.
pub fn set_system_cursor_image(rgba: &[u8], w: u32, h: u32, hx: u32, hy: u32) -> (r: Option<
    CursorPlan,
>)
    requires
        cursor_drawable(rgba@, w, h) ==> h != 0x8000_0000,
    ensures
        r is Some <==> cursor_drawable(rgba@, w, h),
        r matches Some(plan) ==> {
            &&& plan.image.depicts(rgba@, w, h, hx, hy)
            &&& plan.slots@ == OCR_IDS@
        },
{
    match make_cursor(rgba, w, h, hx, hy) {
        None => None,
        Some(image) => {
            let ids: [u32; 14] = OCR_IDS;
            let mut slots: Vec<u32> = Vec::new();
            let mut i: usize = 0;
            while i < 14
                invariant
                    i <= 14,
                    ids@ == OCR_IDS@,
                    slots@ == OCR_IDS@.take(i as int),
                decreases 14 - i,
            {
                slots.push(ids[i]);
                assert(slots@ =~= OCR_IDS@.take(i + 1));
                i = i + 1;
            }
            assert(OCR_IDS@.take(14) =~= OCR_IDS@);
            Some(CursorPlan { image, slots })
        },
    }
}

/// Whether replacing the cursors took effect: at least one slot was set.
pub fn any_slot_set(outcomes: &[bool]) -> (r: bool)
    ensures
        r == outcomes@.contains(true),
{
    let mut i: usize = 0;
    while i < outcomes.len()
        invariant
            i <= outcomes.len(),
            forall|j: int| 0 <= j < i ==> !outcomes@[j],
        decreases outcomes.len() - i,
    {
        if outcomes[i] {
            assert(outcomes@[i as int] == true);
            return true;
        }
        i = i + 1;
    }
    false
}

/// A call that changes a system parameter.
#[derive(Clone, Copy, Debug, PartialEq, Eq, Structural)]
pub struct SystemParameter {
    pub action: u32,
    pub param: u32,
    pub flags: u32,
}

/// `SPI_SETCURSORS`: reload the system cursors.
pub const SPI_SETCURSORS: u32 = 0x0057;

/// `SPIF_SENDCHANGE`: tell every window about it.
pub const SPIF_SENDCHANGE: u32 = 0x0002;

/// Reload every system cursor from the registry defaults: the call that does it.
pub fn restore_system_cursors() -> (r: SystemParameter)
    ensures
        r == (SystemParameter { action: SPI_SETCURSORS, param: 0, flags: SPIF_SENDCHANGE }),
{
    SystemParameter { action: SPI_SETCURSORS, param: 0, flags: SPIF_SENDCHANGE }
}

// ---------- What reaches the platform, number by number ----------

/// A text goes to the clipboard as Unicode asks: a character below 65536 is one unit of that
/// number, any other one is a high and a low surrogate that hold the upper and the lower ten bits of
/// what it is above 65536; and the units of the characters follow each other.
pub proof fn characters_become_utf16(c: char, rest: Seq<char>)
    ensures
        utf16(Seq::empty()).len() == 0,
        ({
            let n = c as u32;
            let all = utf16(seq![c] + rest);
            &&& n < 65536 ==> all.len() == 1 + utf16(rest).len() && all[0] == n && all.skip(1)
                == utf16(rest)
            &&& n >= 65536 ==> {
                &&& all.len() == 2 + utf16(rest).len() && all.skip(2) == utf16(rest)
                &&& 55296 <= all[0] < 56320 && 56320 <= all[1] < 57344
                &&& n == 65536 + (all[0] - 55296) * 1024 + (all[1] - 56320)
            }
        }),
{
    let s = seq![c] + rest;
    assert(s.drop_first() =~= rest);
    let all = utf16(s);
    let n = c as u32;
    if n < 65536 {
        assert(all.skip(1) =~= utf16(rest));
    } else {
        assert(all.skip(2) =~= utf16(rest));
    }
}

/// Units are read as Unicode asks: one that is no surrogate is the character of its number, a high
/// and a low surrogate make one character, and any other surrogate reads as U+FFFD.
pub proof fn units_become_characters(u: Seq<u16>)
    ensures
        u.len() == 0 ==> utf16_lossy(u).len() == 0,
        u.len() > 0 && (u[0] < 55296 || u[0] >= 57344) ==> utf16_lossy(u) == seq![u[0] as char]
            + utf16_lossy(u.skip(1)),
        u.len() > 1 && 55296 <= u[0] < 56320 && 56320 <= u[1] < 57344 ==> utf16_lossy(u) == seq![
            (65536 + (u[0] - 55296) * 1024 + (u[1] - 56320)) as u32 as char,
        ] + utf16_lossy(u.skip(2)),
        u.len() > 0 && 56320 <= u[0] < 57344 ==> utf16_lossy(u) == seq!['\u{FFFD}'] + utf16_lossy(
            u.skip(1),
        ),
        u.len() > 0 && 55296 <= u[0] < 56320 && !(u.len() > 1 && 56320 <= u[1] < 57344)
            ==> utf16_lossy(u) == seq!['\u{FFFD}'] + utf16_lossy(u.skip(1)),
{
}

/// A text on the clipboard ends at its first NUL: what is read is the first `n` units where these
/// are not zero and the next one is, or there is none.
pub proof fn text_ends_at_the_first_nul(u: Seq<u16>, n: nat)
    requires
        n <= u.len(),
        forall|i: int| 0 <= i < n ==> #[trigger] u[i] != 0,
        n < u.len() ==> u[n as int] == 0,
    ensures
        before_nul(u) == u.take(n as int),
    decreases u.len(),
{
    if n > 0 {
        assert(u[0] != 0);
        let rest = u.skip(1);
        assert forall|i: int| 0 <= i < n - 1 implies #[trigger] rest[i] != 0 by {
            assert(rest[i] == u[i + 1]);
        }
        text_ends_at_the_first_nul(rest, (n - 1) as nat);
        assert(before_nul(u) =~= u.take(n as int));
    } else {
        assert(before_nul(u) =~= u.take(0));
    }
}

/// A keyboard event names its key and says whether it goes up; it carries nothing else.
pub proof fn key_event_names_its_key(vk: u16, up: bool)
    ensures
        key(vk, up).vk == vk,
        key(vk, up).flags == (if up {
            2u32
        } else {
            0u32
        }),
        key(vk, up).scan == 0,
        key(vk, up).time == 0,
{
}

/// A paste lets go of Control, Alt, Shift and the two Windows keys, one batch each, waits 15
/// milliseconds, and then presses Control and V and lets go of V and Control in one batch.
pub proof fn paste_is_control_v()
    ensures
        ({
            let s = paste_steps();
            &&& s.len() == 7
            &&& s[0] == InputStepView::Send(seq![key(17, true)])
            &&& s[1] == InputStepView::Send(seq![key(18, true)])
            &&& s[2] == InputStepView::Send(seq![key(16, true)])
            &&& s[3] == InputStepView::Send(seq![key(91, true)])
            &&& s[4] == InputStepView::Send(seq![key(92, true)])
            &&& s[5] == InputStepView::Sleep(15)
            &&& s[6] == InputStepView::Send(
                seq![key(17, false), key(86, false), key(86, true), key(17, true)],
            )
        }),
{
}

/// Steps are seen as they are, each at its place.
pub proof fn input_is_seen_as_it_is(events: Vec<KeyEvent>, ms: u64, steps: Seq<InputStep>, i: int)
    ensures
        InputStep::Send(events)@ == InputStepView::Send(events@),
        InputStep::Sleep(ms)@ == InputStepView::Sleep(ms),
        step_views(steps).len() == steps.len(),
        0 <= i < steps.len() ==> step_views(steps)[i] == steps[i]@,
{
}

/// Pixel `k` of a cursor image holds blue, green and red, each times alpha over 255 and rounded
/// down, and then alpha, of pixel `k` of the picture.
pub proof fn cursor_pixels_are_blended(rgba: Seq<u8>, px: nat, k: int)
    requires
        0 <= k < px,
    ensures
        premultiplied(rgba, px).len() == 4 * px,
        premultiplied(rgba, px)[4 * k] == (rgba[4 * k + 2] * rgba[4 * k + 3]) / 255,
        premultiplied(rgba, px)[4 * k + 1] == (rgba[4 * k + 1] * rgba[4 * k + 3]) / 255,
        premultiplied(rgba, px)[4 * k + 2] == (rgba[4 * k] * rgba[4 * k + 3]) / 255,
        premultiplied(rgba, px)[4 * k + 3] == rgba[4 * k + 3],
{
    let p = 4 * k;
    let a = rgba[p + 3];
    assert(0 <= rgba[p] * a <= 255 * 255 && 0 <= rgba[p + 1] * a <= 255 * 255 && 0 <= rgba[p + 2] * a
        <= 255 * 255) by (nonlinear_arith)
        requires
            0 <= rgba[p] <= 255,
            0 <= rgba[p + 1] <= 255,
            0 <= rgba[p + 2] <= 255,
            0 <= a <= 255,
    ;
    assert(p % 4 == 0 && (p + 1) % 4 == 1 && (p + 2) % 4 == 2 && (p + 3) % 4 == 3);
}

/// A cursor image shows its picture: it has the picture's width, its height top-down, one plane of
/// 32 bits, all its pixels, and the hotspot that was asked for. It can be made where the picture has
/// pixels and four bytes for each.
pub proof fn cursor_image_shows_its_picture(
    image: CursorImage,
    rgba: Seq<u8>,
    w: u32,
    h: u32,
    hx: u32,
    hy: u32,
)
    ensures
        cursor_drawable(rgba, w, h) <==> w > 0 && h > 0 && rgba.len() >= w * h * 4,
        image.depicts(rgba, w, h, hx, hy) ==> {
            &&& w <= i32::MAX ==> image.width == w
            &&& h <= i32::MAX ==> image.height == -(h as int)
            &&& image.planes == 1 && image.bit_count == 32
            &&& image.bgra@ == premultiplied(rgba, (w * h) as nat)
            &&& image.hx == hx && image.hy == hy
        },
{
}

/// The slots are the fourteen standard cursors, and restoring them is a call that reloads the
/// cursors and tells every window.
pub proof fn platform_numbers_are_the_documented_ones()
    ensures
        OCR_IDS@ == seq![
            32512u32,
            32513,
            32514,
            32515,
            32516,
            32642,
            32643,
            32644,
            32645,
            32646,
            32648,
            32649,
            32650,
            32651,
        ],
        SPI_SETCURSORS == 0x57,
        SPIF_SENDCHANGE == 2,
        KEYEVENTF_KEYUP == 2,
{
    assert(OCR_IDS@ =~= seq![
        32512u32,
        32513,
        32514,
        32515,
        32516,
        32642,
        32643,
        32644,
        32645,
        32646,
        32648,
        32649,
        32650,
        32651,
    ]);
}

} // verus!
