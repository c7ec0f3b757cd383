//! Animated GIFs from captured frames, and the names of the files they go to.

use crate::frame::{CapturedFrame, Picture};
use crate::json::text_view;
use crate::picture::{
    can_scale, exactly_holds_pixels, holds_pixels, image_resize, positive, resize, scalable, Filter,
};
use crate::text::{
    chars_ignoring_case, chars_of, decimal, decimal_reads_back, is_space, push_decimal,
    case_is_that_of_ascii_letters, same_ignoring_case, trim, trim_end, trim_start, trimmed,
};
use vstd::prelude::*;

verus! {

/// The speed of the colour reduction, from 1 (best) to 30 (fastest).
pub const GIF_SPEED: i32 = 10;

/// The largest side that the GIF format has.
pub const GIF_MAX_SIDE: u32 = 65535;

pub open spec fn picture_views(frames: Seq<CapturedFrame>) -> Seq<Picture> {
    frames.map_values(|f: CapturedFrame| f@)
}

pub open spec fn data_views(frames: Seq<Vec<u8>>) -> Seq<Seq<u8>> {
    frames.map_values(|d: Vec<u8>| d@)
}

/// What `GifEncoder` writes for frames of one size, and the message of the error it ends with,
/// if any.
pub uninterp spec fn gif_stream(
    frames: Seq<Seq<u8>>,
    w: u32,
    h: u32,
    delay_ms: u32,
    speed: i32,
    repeat: Option<u16>,
) -> (Seq<u8>, Option<Seq<char>>);

/// A buffer that `GifEncoder` takes for a frame of `w` by `h` pixels: it holds the pixels, and
/// nothing more where the size is one that the format has.
pub open spec fn encodable(data: Seq<u8>, w: u32, h: u32) -> bool {
    &&& data.len() >= 4 * w * h
    &&& w <= GIF_MAX_SIDE && h <= GIF_MAX_SIDE ==> data.len() == 4 * w * h
}

/// `GifEncoder` of the `image` crate on a fresh buffer: `new_with_speed`, `set_repeat` (endless
/// where `repeat` is `None`) and `encode_frames`, then the end of the file. It stops at the first
/// error. What was written and the error depend on the arguments alone; the bytes of the file
/// are left to the crate.
#[verifier::external_body]
pub(crate) fn encode_gif(
    frames: Vec<Vec<u8>>,
    w: u32,
    h: u32,
    delay_ms: u32,
    speed: i32,
    repeat: Option<u16>,
) -> (r: (Vec<u8>, Option<String>))
    requires
        1 <= speed <= 30,
        forall|i: int| 0 <= i < frames@.len() ==> encodable(#[trigger] frames@[i]@, w, h),
    ensures
        (r.0@, text_view(r.1)) == gif_stream(data_views(frames@), w, h, delay_ms, speed, repeat),
{
    let mut bytes: Vec<u8> = Vec::new();
    let mut encoder = image::codecs::gif::GifEncoder::new_with_speed(&mut bytes, speed);
    let repeat = match repeat {
        Some(n) => image::codecs::gif::Repeat::Finite(n),
        None => image::codecs::gif::Repeat::Infinite,
    };
    let delay = image::Delay::from_numer_denom_ms(delay_ms, 1);
    let frames = frames.into_iter().map(|data| image::RgbaImage::from_raw(w, h, data).unwrap());
    let frames = frames.map(|picture| image::Frame::from_parts(picture, 0, 0, delay));
    let outcome = encoder.set_repeat(repeat).and_then(|_| encoder.encode_frames(frames));
    drop(encoder);
    (bytes, outcome.err().map(|e| e.to_string()))
}

/// Whether the first frame is wider than a GIF may be. A width of 0 is no limit.
pub open spec fn too_wide(first: Picture, max_width: u32) -> bool {
    max_width > 0 && first.w > max_width
}

/// The size of a GIF: that of its first frame, scaled down to the greatest width where the frame
/// is wider. `scaled_h` is the height that keeps the proportions then.
pub open spec fn target_size(first: Picture, max_width: u32, scaled_h: u32) -> (u32, u32) {
    if too_wide(first, max_width) {
        (max_width, positive(scaled_h))
    } else {
        (first.w, first.h)
    }
}

/// The greatest width caps the GIF and nothing else does: without one, or where the first frame
/// is no wider, the GIF has the first frame's size, and it is never wider than the cap. A frame
/// with pixels never makes a GIF without any.
pub proof fn gif_width_is_capped(first: Picture, max_width: u32, scaled_h: u32)
    ensures
        max_width == 0 || first.w <= max_width ==> target_size(first, max_width, scaled_h) == (
            first.w,
            first.h,
        ),
        max_width > 0 ==> target_size(first, max_width, scaled_h).0 <= max_width,
        first.w > 0 && first.h > 0 ==> target_size(first, max_width, scaled_h).0 > 0
            && target_size(first, max_width, scaled_h).1 > 0,
{
}

/// Before a GIF is made: whether it has to be scaled down, and from which size. Without frames
/// there is none to make.
pub fn needs_scaling(frames: &Vec<CapturedFrame>, max_width: u32) -> (r: Result<
    Option<(u32, u32)>,
    String,
>)
    ensures
        frames@.len() == 0 ==> r is Err && r->Err_0@ == "No frames captured yet."@,
        frames@.len() > 0 ==> r == Ok::<Option<(u32, u32)>, String>(
            if too_wide(frames@[0]@, max_width) {
                Some((frames@[0].w, frames@[0].h))
            } else {
                None
            },
        ),
{
    if frames.len() == 0 {
        return Err("No frames captured yet.".to_string());
    }
    let w: u32 = frames[0].w;
    let h: u32 = frames[0].h;
    if max_width > 0 && w > max_width {
        Ok(Some((w, h)))
    } else {
        Ok(None)
    }
}

/// Whether a GIF can be written at all: there have to be frames, which is looked at first, and the
/// folder that it goes to has to exist.
pub fn check_output(frames: &Vec<CapturedFrame>, folder_exists: bool) -> (r: Result<(), String>)
    ensures
        frames@.len() == 0 ==> r is Err && r->Err_0@ == "No frames captured yet."@,
        frames@.len() > 0 && !folder_exists ==> r is Err && r->Err_0@
            == "Output folder does not exist."@,
        r is Ok <==> frames@.len() > 0 && folder_exists,
{
    if frames.len() == 0 {
        return Err("No frames captured yet.".to_string());
    }
    if !folder_exists {
        return Err("Output folder does not exist.".to_string());
    }
    Ok(())
}

/// The buffer is too short for the picture.
pub open spec fn corrupt(p: Picture) -> bool {
    p.data.len() < p.area()
}

/// The number of frames before the first corrupt one.
pub open spec fn sound_frames(frames: Seq<Picture>) -> nat
    decreases frames.len(),
{
    if frames.len() == 0 || corrupt(frames[0]) {
        0
    } else {
        1 + sound_frames(frames.drop_first())
    }
}

/// The pixels of a frame at the size of the GIF.
pub open spec fn fitted(p: Picture, w: u32, h: u32) -> Seq<u8> {
    if p.w != w || p.h != h {
        image_resize(p.data, p.w, p.h, w, h, Filter::Triangle)
    } else {
        p.data
    }
}

/// A frame can be brought to the size of the GIF and encoded: one of another size can be scaled,
/// and one of that size holds nothing but its pixels.
pub open spec fn fits_gif(p: Picture, w: u32, h: u32) -> bool {
    if p.w != w || p.h != h {
        scalable(p.w, p.h, w, h)
    } else {
        encodable(p.data, w, h)
    }
}

/// What becomes of the frames: the bytes written for those before the first corrupt one, and
/// the error, which is the encoder's if it has one and else tells of the corrupt frame, if any.
pub open spec fn gif_of(frames: Seq<Picture>, w: u32, h: u32, delay_ms: u32) -> (
    Seq<u8>,
    Option<Seq<char>>,
) {
    let n = sound_frames(frames);
    let (bytes, error) = gif_stream(
        Seq::new(n, |i: int| fitted(frames[i], w, h)),
        w,
        h,
        positive(delay_ms),
        GIF_SPEED,
        None,
    );
    match error {
        Some(e) => (bytes, Some(e)),
        None => if n < frames.len() {
            (bytes, Some("Corrupt frame buffer"@))
        } else {
            (bytes, None)
        },
    }
}

/// The bytes of a GIF file and the error that cut it short, if any.
#[derive(Debug)]
pub struct GifOutput {
    pub bytes: Vec<u8>,
    pub error: Option<String>,
}

/// Sums up an encoding: its error, if any, counts before a corrupt frame that stopped it.
pub fn gif_outcome(bytes: Vec<u8>, error: Option<String>, stopped: bool) -> (r: GifOutput)
    ensures
        r.bytes@ == bytes@,
        text_view(r.error) == (match text_view(error) {
            Some(e) => Some(e),
            None => if stopped {
                Some("Corrupt frame buffer"@)
            } else {
                None
            },
        }),
{
    match error {
        Some(e) => GifOutput { bytes, error: Some(e) },
        None => {
            if stopped {
                GifOutput { bytes, error: Some("Corrupt frame buffer".to_string()) }
            } else {
                GifOutput { bytes, error: None }
            }
        },
    }
}

/// The size of a GIF by its first frame.
fn size_of_gif(first: &CapturedFrame, max_width: u32, scaled_h: u32) -> (r: (u32, u32))
    ensures
        r == target_size(first@, max_width, scaled_h),
{
    if max_width > 0 && first.w > max_width {
        let height: u32 = if scaled_h < 1 {
            1
        } else {
            scaled_h
        };
        (max_width, height)
    } else {
        (first.w, first.h)
    }
}

/// Encodes all frames as an endless GIF, scaled to one size, each shown for at least a
/// millisecond. `scaled_h` is the height that keeps the proportions of the first frame at the
/// greatest width.
pub fn generate_gif(
    frames: &Vec<CapturedFrame>,
    delay_ms: u32,
    max_width: u32,
    scaled_h: u32,
) -> (r: GifOutput)
    requires
        frames@.len() > 0,
        ({
            let all = picture_views(frames@);
            let size = target_size(all[0], max_width, scaled_h);
            forall|i: int|
                0 <= i < sound_frames(all) ==> fits_gif(#[trigger] all[i], size.0, size.1)
        }),
    ensures
        ({
            let all = picture_views(frames@);
            let size = target_size(all[0], max_width, scaled_h);
            (r.bytes@, text_view(r.error)) == gif_of(all, size.0, size.1, delay_ms)
        }),
{
    let ghost all = picture_views(frames@);
    let first: &CapturedFrame = &frames[0];
    assert(all[0] == first@);
    let (tw, th) = size_of_gif(first, max_width, scaled_h);
    let ghost n = sound_frames(all);
    proof {
        lemma_sound_frames(all);
    }
    let mut pictures: Vec<Vec<u8>> = Vec::new();
    let mut i: usize = 0;
    while i < frames.len() && holds_pixels(frames[i].data.len(), frames[i].w, frames[i].h)
        invariant
            i <= frames.len(),
            all == picture_views(frames@),
            n == sound_frames(all),
            n <= all.len(),
            forall|j: int| 0 <= j < n ==> !corrupt(#[trigger] all[j]),
            n < all.len() ==> corrupt(all[n as int]),
            forall|j: int| 0 <= j < n ==> fits_gif(#[trigger] all[j], tw, th),
            i <= n,
            pictures@.len() == i,
            forall|j: int| 0 <= j < i ==> (#[trigger] pictures@[j])@ == fitted(all[j], tw, th),
            forall|j: int| 0 <= j < i ==> encodable((#[trigger] pictures@[j])@, tw, th),
        decreases frames.len() - i,
    {
        let f: &CapturedFrame = &frames[i];
        assert(all[i as int] == f@);
        assert(!corrupt(all[i as int]));
        assert(i < n);
        let mut data: Vec<u8> = Vec::new();
        data.extend_from_slice(f.data.as_slice());
        assert(data@ =~= f.data@);
        assert(fits_gif(all[i as int], tw, th));
        if f.w != tw || f.h != th {
            data = resize(data, f.w, f.h, tw, th, Filter::Triangle);
        }
        pictures.push(data);
        i = i + 1;
    }
    assert(i == n) by {
        if i < n {
            assert(all[i as int] == frames@[i as int]@);
            assert(!corrupt(all[i as int]));
        }
    }
    assert(data_views(pictures@) =~= Seq::new(n, |j: int| fitted(all[j], tw, th)));
    let delay: u32 = if delay_ms < 1 {
        1
    } else {
        delay_ms
    };
    let (bytes, error) = encode_gif(pictures, tw, th, delay, GIF_SPEED, None);
    gif_outcome(bytes, error, i < frames.len())
}

proof fn lemma_sound_frames(frames: Seq<Picture>)
    ensures
        sound_frames(frames) <= frames.len(),
        forall|i: int| 0 <= i < sound_frames(frames) ==> !corrupt(#[trigger] frames[i]),
        sound_frames(frames) < frames.len() ==> corrupt(frames[sound_frames(frames) as int]),
    decreases frames.len(),
{
    if frames.len() > 0 && !corrupt(frames[0]) {
        let rest = frames.drop_first();
        lemma_sound_frames(rest);
        assert forall|i: int| 0 <= i < sound_frames(frames) implies !corrupt(#[trigger] frames[i]) by {
            if i > 0 {
                assert(!corrupt(rest[i - 1]));
            }
        }
        if sound_frames(frames) < frames.len() {
            assert(rest[sound_frames(rest) as int] == frames[sound_frames(frames) as int]);
        }
    }
}

/// Whether the frames can be encoded at the size that they call for.
pub fn can_generate(frames: &Vec<CapturedFrame>, max_width: u32, scaled_h: u32) -> (r: bool)
    requires
        frames@.len() > 0,
    ensures
        ({
            let all = picture_views(frames@);
            let size = target_size(all[0], max_width, scaled_h);
            r == forall|i: int|
                0 <= i < sound_frames(all) ==> fits_gif(#[trigger] all[i], size.0, size.1)
        }),
{
    let ghost all = picture_views(frames@);
    let first: &CapturedFrame = &frames[0];
    assert(all[0] == first@);
    let (tw, th) = size_of_gif(first, max_width, scaled_h);
    proof {
        lemma_sound_frames(all);
    }
    let ghost n = sound_frames(all);
    let mut i: usize = 0;
    while i < frames.len() && holds_pixels(frames[i].data.len(), frames[i].w, frames[i].h)
        invariant
            i <= frames.len(),
            all == picture_views(frames@),
            n <= all.len(),
            n == sound_frames(all),
            (tw, th) == target_size(all[0], max_width, scaled_h),
            forall|j: int| 0 <= j < n ==> !corrupt(#[trigger] all[j]),
            n < all.len() ==> corrupt(all[n as int]),
            i <= n,
            forall|j: int| 0 <= j < i ==> fits_gif(#[trigger] all[j], tw, th),
        decreases frames.len() - i,
    {
        let f: &CapturedFrame = &frames[i];
        assert(all[i as int] == f@);
        assert(!corrupt(all[i as int]));
        assert(i < n);
        let fits: bool = if f.w != tw || f.h != th {
            can_scale(f.w, f.h, tw, th)
        } else {
            tw > GIF_MAX_SIDE || th > GIF_MAX_SIDE || exactly_holds_pixels(f.data.len(), f.w, f.h)
        };
        if !fits {
            assert(!fits_gif(all[i as int], tw, th));
            return false;
        }
        i = i + 1;
    }
    assert(i == n) by {
        if i < n {
            assert(all[i as int] == frames@[i as int]@);
            assert(!corrupt(all[i as int]));
        }
    }
    true
}

/// Frames that hold exactly their pixels are all encoded: the outcome is the encoder's own.
pub proof fn whole_frames_are_all_encoded(frames: Seq<Picture>, w: u32, h: u32, delay_ms: u32)
    requires
        forall|i: int| 0 <= i < frames.len() ==> (#[trigger] frames[i]).whole(),
    ensures
        gif_of(frames, w, h, delay_ms) == gif_stream(
            Seq::new(frames.len(), |i: int| fitted(frames[i], w, h)),
            w,
            h,
            positive(delay_ms),
            GIF_SPEED,
            None,
        ),
{
    lemma_sound_frames(frames);
    if sound_frames(frames) < frames.len() {
        assert(frames[sound_frames(frames) as int].whole());
    }
}

// ---------- File names ----------

/// The name ends in `.gif`, in whatever case.
pub open spec fn has_gif_suffix(name: Seq<char>) -> bool {
    name.len() >= 4 && same_ignoring_case(name.skip(name.len() - 4), ".gif"@)
}

/// The name of the file to write for what the user entered: without surrounding white space,
/// `orochi.gif` where nothing is left, and with `.gif` at its end.
pub open spec fn output_name(entered: Seq<char>) -> Seq<char> {
    let name = trim(entered);
    if name.len() == 0 {
        "orochi.gif"@
    } else if has_gif_suffix(name) {
        name
    } else {
        name + ".gif"@
    }
}

/// The name of the file to write.
pub fn gif_name(entered: &str) -> (r: String)
    ensures
        r@ == output_name(entered@),
{
    let mut name = trimmed(entered);
    if name.as_str().is_empty() {
        return "orochi.gif".to_string();
    }
    let cs = chars_of(name.as_str());
    let suffix = chars_of(".gif");
    let ends: bool = if cs.len() >= 4 {
        let from: usize = cs.len() - 4;
        let tail = vstd::slice::slice_subrange(cs.as_slice(), from, cs.len());
        assert(tail@ =~= name@.skip(name@.len() - 4));
        chars_ignoring_case(tail, suffix.as_slice())
    } else {
        false
    };
    if !ends {
        name.append(".gif");
    }
    name
}

/// The stem to number files with; `orochi` where the name has none.
pub open spec fn stem_or_default(stem: Option<Seq<char>>) -> Seq<char> {
    match stem {
        Some(stem) => stem,
        None => "orochi"@,
    }
}

/// The `i`th other name to try where files of the earlier names exist.
pub open spec fn numbered_name(stem: Seq<char>, i: nat) -> Seq<char> {
    stem + "_"@ + decimal(i) + ".gif"@
}

/// The search for a name that no file has: `stem` is that of the first name.
#[derive(Debug)]
pub struct FreeName {
    stem: String,
    next: u32,
}

impl FreeName {
    /// The stem that the names are made of.
    pub closed spec fn stem(&self) -> Seq<char> {
        self.stem@
    }

    /// The number of the next name.
    pub closed spec fn number(&self) -> u32 {
        self.next
    }

    /// Starts a search.
    pub fn start(stem: Option<String>) -> (r: FreeName)
        ensures
            r.stem() == stem_or_default(text_view(stem)),
            r.number() == 1,
    {
        match stem {
            Some(stem) => FreeName { stem, next: 1 },
            None => FreeName { stem: "orochi".to_string(), next: 1 },
        }
    }

    /// The next name to try.
    pub fn next_name(&mut self) -> (r: String)
        requires
            old(self).number() < i32::MAX,
        ensures
            r@ == numbered_name(old(self).stem(), old(self).number() as nat),
            final(self).stem() == old(self).stem(),
            final(self).number() == old(self).number() + 1,
    {
        let mut name: String = self.stem.clone();
        name.append("_");
        push_decimal(&mut name, self.next as u64);
        name.append(".gif");
        self.next = self.next + 1;
        name
    }

    /// Takes whether a file of the name at hand exists: if so the next name is tried, and else the
    /// name is kept and the search is over.
    pub fn answer(&mut self, taken: bool) -> (r: Option<String>)
        requires
            taken ==> old(self).number() < i32::MAX,
        ensures
            final(self).stem() == old(self).stem(),
            r is Some <==> taken,
            r matches Some(name) ==> {
                &&& name@ == numbered_name(old(self).stem(), old(self).number() as nat)
                &&& final(self).number() == old(self).number() + 1
            },
            r is None ==> *final(self) == *old(self),
    {
        if taken {
            Some(self.next_name())
        } else {
            None
        }
    }

    /// Whether there is a next name to try.
    pub fn has_next(&self) -> (r: bool)
        ensures
            r == (self.number() < i32::MAX),
    {
        self.next < i32::MAX as u32
    }
}

/// The `k`th name to try: the name that was made first, and then the numbered ones.
pub open spec fn tried_name(first: Seq<char>, stem: Seq<char>, k: nat) -> Seq<char> {
    if k == 0 {
        first
    } else {
        numbered_name(stem, k)
    }
}

/// The name at hand and the number of the next one after some answers, each whether a file of the
/// name that was at hand exists.
pub open spec fn searched(first: Seq<char>, stem: Seq<char>, answers: Seq<bool>) -> (
    Seq<char>,
    nat,
)
    decreases answers.len(),
{
    if answers.len() == 0 {
        (first, 1)
    } else {
        let (name, number) = searched(first, stem, answers.drop_last());
        if answers.last() {
            (numbered_name(stem, number), number + 1)
        } else {
            (name, number)
        }
    }
}

/// Each answer says whether a file of the name that was at hand is among those that exist.
pub open spec fn answered_by(
    existing: Set<Seq<char>>,
    first: Seq<char>,
    stem: Seq<char>,
    answers: Seq<bool>,
) -> bool {
    forall|j: int|
        0 <= j < answers.len() ==> #[trigger] answers[j] == existing.contains(
            searched(first, stem, answers.take(j)).0,
        )
}

/// The search ends with the first name that no file has: after `k` answers that the name at hand
/// is taken and one that it is free, the name is the `k`th to try. Where the answers are true of
/// the files that exist, no file of that name does, and there is one of every earlier name.
pub proof fn least_free_name_is_found(
    first: Seq<char>,
    stem: Seq<char>,
    answers: Seq<bool>,
    existing: Set<Seq<char>>,
    k: nat,
)
    requires
        answers.len() == k + 1,
        forall|j: int| 0 <= j < k ==> answers[j],
        !answers[k as int],
    ensures
        searched(first, stem, answers).0 == tried_name(first, stem, k),
        answered_by(existing, first, stem, answers) ==> !existing.contains(
            searched(first, stem, answers).0,
        ),
        answered_by(existing, first, stem, answers) ==> forall|j: nat|
            j < k ==> existing.contains(#[trigger] tried_name(first, stem, j)),
{
    lemma_taken_names(first, stem, answers, k);
    assert(answers.drop_last() =~= answers.take(k as int));
    if answered_by(existing, first, stem, answers) {
        assert(!answers[k as int]);
        assert forall|j: nat| j < k implies existing.contains(
            #[trigger] tried_name(first, stem, j),
        ) by {
            lemma_taken_names(first, stem, answers, j);
            assert(answers[j as int]);
        }
    }
}

proof fn lemma_taken_names(first: Seq<char>, stem: Seq<char>, answers: Seq<bool>, j: nat)
    requires
        j <= answers.len(),
        forall|i: int| 0 <= i < j ==> answers[i],
    ensures
        searched(first, stem, answers.take(j as int)) == (tried_name(first, stem, j), j + 1),
    decreases j,
{
    if j > 0 {
        lemma_taken_names(first, stem, answers, (j - 1) as nat);
        assert(answers.take(j as int).drop_last() =~= answers.take(j - 1));
        assert(answers.take(j as int).last() == answers[j - 1]);
    }
}

/// A file name is never empty and always ends in `.gif`, in whatever case; and a name that was
/// made so is not changed again.
pub proof fn output_name_is_settled(entered: Seq<char>)
    ensures
        has_gif_suffix(output_name(entered)),
        output_name(output_name(entered)) == output_name(entered),
{
    reveal_strlit("orochi.gif");
    reveal_strlit(".gif");
    let name = output_name(entered);
    let core = trim(entered);
    lemma_trim_ends(entered);
    if core.len() == 0 {
        assert(name.skip(name.len() - 4) =~= ".gif"@);
    } else if !has_gif_suffix(core) {
        assert(name.skip(name.len() - 4) =~= ".gif"@);
        assert(name[0] == core[0]);
        assert(name.last() == 'f');
    }
    assert(name.len() > 0 && !is_space(name[0]) && !is_space(name.last()));
    assert(trim(name) == name);
}

proof fn lemma_trim_ends(s: Seq<char>)
    ensures
        trim(s).len() > 0 ==> !is_space(trim(s)[0]) && !is_space(trim(s).last()),
{
    lemma_trim_start(s);
    lemma_trim_end(trim_start(s));
}

proof fn lemma_trim_start(s: Seq<char>)
    ensures
        trim_start(s).len() > 0 ==> !is_space(trim_start(s)[0]),
    decreases s.len(),
{
    if s.len() > 0 && is_space(s[0]) {
        lemma_trim_start(s.drop_first());
    }
}

proof fn lemma_trim_end(s: Seq<char>)
    ensures
        trim_end(s).len() > 0 ==> !is_space(trim_end(s).last()) && trim_end(s)[0] == s[0],
    decreases s.len(),
{
    if s.len() > 0 && is_space(s.last()) {
        lemma_trim_end(s.drop_last());
    }
}

/// The numbered names are all different, so one of them is free; each ends in `.gif`.
pub proof fn numbered_names_differ(stem: Seq<char>, i: nat, j: nat)
    ensures
        has_gif_suffix(numbered_name(stem, i)),
        numbered_name(stem, i) == numbered_name(stem, j) ==> i == j,
{
    reveal_strlit("_");
    reveal_strlit(".gif");
    let a = numbered_name(stem, i);
    let b = numbered_name(stem, j);
    assert(a.skip(a.len() - 4) =~= ".gif"@);
    let n = stem.len() as int + 1;
    assert(a.subrange(n, a.len() - 4) =~= decimal(i));
    assert(b.subrange(n, b.len() - 4) =~= decimal(j));
    decimal_reads_back(i);
    decimal_reads_back(j);
}

// ---------- What goes into a GIF ----------

/// The size of a GIF is that of the first frame where there is no cap or the frame keeps to it;
/// and else the cap, with the height that was computed for it, at least one.
pub proof fn gif_has_the_capped_size(first: Picture, max_width: u32, scaled_h: u32)
    ensures
        ({
            let size = target_size(first, max_width, scaled_h);
            &&& max_width == 0 ==> size == (first.w, first.h)
            &&& first.w <= max_width ==> size == (first.w, first.h)
            &&& 0 < max_width < first.w && scaled_h >= 1 ==> size == (max_width, scaled_h)
            &&& 0 < max_width < first.w && scaled_h == 0 ==> size == (max_width, 1u32)
        }),
{
}

/// A GIF shows the frames as they were captured: where the first `n` frames hold their pixels, and
/// these are all frames or the next one is too short, `n` pictures are encoded, endlessly repeated
/// and each shown for the delay, at least a millisecond. Picture `i` is the frame's own bytes where
/// the frame has the GIF's size; and else what the triangle filter makes of those bytes, read with
/// the frame's own width and height, at the GIF's size. The error is the encoder's, or else tells
/// of the short frame, if there is one.
pub proof fn gif_shows_the_frames(
    frames: Seq<Picture>,
    w: u32,
    h: u32,
    delay_ms: u32,
    pictures: Seq<Seq<u8>>,
)
    requires
        pictures.len() <= frames.len(),
        forall|i: int|
            0 <= i < pictures.len() ==> {
                let p = #[trigger] frames[i];
                p.data.len() >= 4 * p.w * p.h
            },
        pictures.len() < frames.len() ==> {
            let p = frames[pictures.len() as int];
            p.data.len() < 4 * p.w * p.h
        },
        forall|i: int|
            0 <= i < pictures.len() ==> {
                let p = frames[i];
                #[trigger] pictures[i] == (if p.w == w && p.h == h {
                    p.data
                } else {
                    image_resize(p.data, p.w, p.h, w, h, Filter::Triangle)
                })
            },
    ensures
        ({
            let delay = if delay_ms == 0 {
                1u32
            } else {
                delay_ms
            };
            let (bytes, error) = gif_stream(pictures, w, h, delay, 10, None);
            gif_of(frames, w, h, delay_ms) == (
                bytes,
                if error is Some {
                    error
                } else if pictures.len() < frames.len() {
                    Some("Corrupt frame buffer"@)
                } else {
                    None
                },
            )
        }),
{
    lemma_sound_frames(frames);
    let n = sound_frames(frames);
    if n < pictures.len() {
        assert(corrupt(frames[n as int]));
    }
    if pictures.len() < n {
        assert(!corrupt(frames[pictures.len() as int]));
    }
    assert(Seq::new(n, |i: int| fitted(frames[i], w, h)) =~= pictures);
}

/// A frame can be encoded at the GIF's size where one of another size can be scaled to it, and one
/// of that size holds its pixels, and no more than them unless a side is longer than 65535.
pub proof fn encoding_has_limits(p: Picture, w: u32, h: u32)
    ensures
        p.w != w || p.h != h ==> (fits_gif(p, w, h) <==> scalable(p.w, p.h, w, h)),
        p.w == w && p.h == h ==> (fits_gif(p, w, h) <==> p.data.len() == 4 * w * h || (p.data.len()
            > 4 * w * h && (w > 65535 || h > 65535))),
{
}

/// The frames are seen by their models, each at its place.
pub proof fn frames_are_seen_in_order(frames: Seq<CapturedFrame>, i: int)
    requires
        0 <= i < frames.len(),
    ensures
        picture_views(frames).len() == frames.len(),
        picture_views(frames)[i].data == frames[i].data@,
        picture_views(frames)[i].w == frames[i].w,
        picture_views(frames)[i].h == frames[i].h,
{
}

/// What the user entered is kept: the file's name is the entered one without the white space around
/// it, as it stands where its last four characters are `.gif` in whatever case, and with `.gif`
/// behind it where they are not. Where nothing was entered it is `orochi.gif`.
pub proof fn entered_name_is_kept(entered: Seq<char>)
    ensures
        ({
            let core = trim(entered);
            let name = output_name(entered);
            let ends_in_gif = core.len() >= 4 && core[core.len() - 4] == '.' && (core[core.len() - 3]
                == 'g' || core[core.len() - 3] == 'G') && (core[core.len() - 2] == 'i'
                || core[core.len() - 2] == 'I') && (core[core.len() - 1] == 'f' || core[core.len()
                - 1] == 'F');
            &&& core.len() == 0 ==> name == "orochi.gif"@
            &&& core.len() > 0 && ends_in_gif ==> name == core
            &&& core.len() > 0 && !ends_in_gif ==> name == core + ".gif"@
        }),
{
    reveal_strlit(".gif");
    let core = trim(entered);
    if core.len() >= 4 {
        let tail = core.skip(core.len() - 4);
        assert(tail[0] == core[core.len() - 4]);
        assert(tail[1] == core[core.len() - 3]);
        assert(tail[2] == core[core.len() - 2]);
        assert(tail[3] == core[core.len() - 1]);
        case_is_that_of_ascii_letters(tail, ".gif"@);
    }
}

/// A numbered name is the stem, an underscore, the number and `.gif`; a name without a stem counts
/// as `orochi`.
pub proof fn numbered_name_has_its_number(stem: Seq<char>, i: nat)
    ensures
        numbered_name(stem, i) == stem + (seq!['_'] + (decimal(i) + seq!['.', 'g', 'i', 'f'])),
        stem_or_default(Some(stem)) == stem,
        stem_or_default(None) == "orochi"@,
        tried_name(stem, stem, 0) == stem,
        i > 0 ==> tried_name(stem, stem, i) == numbered_name(stem, i),
{
    reveal_strlit("_");
    reveal_strlit(".gif");
    assert("_"@ =~= seq!['_']);
    assert(".gif"@ =~= seq!['.', 'g', 'i', 'f']);
    assert(numbered_name(stem, i) =~= stem + (seq!['_'] + (decimal(i) + seq!['.', 'g', 'i', 'f'])));
}

/// The buffers handed to the encoder are seen in order, byte for byte.
pub proof fn buffers_are_seen_in_order(buffers: Seq<Vec<u8>>, i: int)
    requires
        0 <= i < buffers.len(),
    ensures
        data_views(buffers).len() == buffers.len(),
        data_views(buffers)[i] == buffers[i]@,
{
}

} // verus!
