//! Captured frames and the cropping of raw RGBA buffers.

use vstd::prelude::*;

verus! {

/// A region in pixels.
#[derive(Clone, Copy, Debug, PartialEq, Eq, Structural)]
pub struct RegionDto {
    pub x: u32,
    pub y: u32,
    pub w: u32,
    pub h: u32,
}

/// A selected region as fractions of the captured frame, together with the physical top-left
/// corner of the monitor it was drawn on. Each fraction is carried as the bits of its IEEE 754
/// double.
#[derive(Clone, Copy, Debug, PartialEq, Eq, Structural)]
pub struct Region {
    pub fx: u64,
    pub fy: u64,
    pub fw: u64,
    pub fh: u64,
    pub mon_x: i32,
    pub mon_y: i32,
}

/// A captured picture: `data` holds four bytes (red, green, blue, alpha) per pixel, row by row.
#[derive(Debug)]
pub struct CapturedFrame {
    pub data: Vec<u8>,
    pub w: u32,
    pub h: u32,
}

/// The model of a picture: its bytes and its size.
pub struct Picture {
    pub data: Seq<u8>,
    pub w: u32,
    pub h: u32,
}

impl View for CapturedFrame {
    type V = Picture;

    open spec fn view(&self) -> Picture {
        Picture { data: self.data@, w: self.w, h: self.h }
    }
}

impl Picture {
    /// The number of bytes that the size calls for.
    pub open spec fn area(self) -> int {
        4 * self.w * self.h
    }

    /// The buffer holds exactly the pixels of the picture.
    pub open spec fn whole(self) -> bool {
        self.data.len() == self.area()
    }
}

pub open spec fn least(a: int, b: int) -> int {
    if a <= b {
        a
    } else {
        b
    }
}

/// The part of `r` that lies on a frame of `fw` by `fh` pixels. The corner is first moved onto
/// the frame, then the size is cut to what is left of it.
pub open spec fn clamp_region(fw: u32, fh: u32, r: RegionDto) -> RegionDto {
    let x = least(r.x as int, if fw > 0 { fw - 1 } else { 0 });
    let y = least(r.y as int, if fh > 0 { fh - 1 } else { 0 });
    RegionDto {
        x: x as u32,
        y: y as u32,
        w: least(r.w as int, fw - x) as u32,
        h: least(r.h as int, fh - y) as u32,
    }
}

/// Nothing of the region lies on the frame.
pub open spec fn empty_region(c: RegionDto) -> bool {
    c.w == 0 || c.h == 0
}

/// Where the bytes of the clamped region `c` end in a buffer whose rows are `fw` pixels wide.
pub open spec fn region_end(fw: u32, c: RegionDto) -> int {
    ((c.y + c.h - 1) * fw + c.x + c.w) * 4
}

/// The place in the full buffer of byte `i` of the cropped one.
pub open spec fn crop_source(fw: u32, c: RegionDto, i: int) -> int {
    ((c.y + i / (c.w * 4)) * fw + c.x) * 4 + i % (c.w * 4)
}

/// The bytes of the clamped region `c`, row by row.
pub open spec fn region_bytes(raw: Seq<u8>, fw: u32, c: RegionDto) -> Seq<u8> {
    Seq::new((c.w * c.h * 4) as nat, |i: int| raw[crop_source(fw, c, i)])
}

/// What cropping makes of a frame: the clamped region, or the whole frame where the region is
/// empty.
pub open spec fn crop_picture(p: Picture, r: RegionDto) -> Picture {
    let c = clamp_region(p.w, p.h, r);
    if empty_region(c) {
        p
    } else {
        Picture { data: region_bytes(p.data, p.w, c), w: c.w, h: c.h }
    }
}

/// The buffer reaches as far as the region does.
pub open spec fn crop_fits(p: Picture, r: RegionDto) -> bool {
    let c = clamp_region(p.w, p.h, r);
    empty_region(c) || region_end(p.w, c) <= p.data.len()
}

proof fn lemma_row_start(fw: int, x: int, y: int, w: int, h: int, row: int)
    requires
        0 <= row < h,
        0 <= x,
        0 <= y,
        0 < w,
        x + w <= fw,
    ensures
        0 <= (y + row) * fw,
        ((y + row) * fw + x + w) * 4 <= ((y + h - 1) * fw + x + w) * 4,
{
    assert((y + row) * fw <= (y + h - 1) * fw) by (nonlinear_arith)
        requires
            y + row <= y + h - 1,
            0 <= fw,
    ;
    assert(0 <= (y + row) * fw) by (nonlinear_arith)
        requires
            0 <= y + row,
            0 <= fw,
    ;
}

/// Crop a raw RGBA buffer to the given pixel region, clamped to the frame.
pub fn crop(raw: &[u8], fw: u32, fh: u32, r: RegionDto) -> (out: (Vec<u8>, u32, u32))
    requires
        crop_fits(Picture { data: raw@, w: fw, h: fh }, r),
    ensures
        (Picture { data: out.0@, w: out.1, h: out.2 }) == crop_picture(
            Picture { data: raw@, w: fw, h: fh },
            r,
        ),
{
    let RegionDto { x: x0, y: y0, w, h } = region_label(fw, fh, r);
    let ghost c = clamp_region(fw, fh, r);
    let mut out: Vec<u8> = Vec::new();
    if w == 0 || h == 0 {
        out.extend_from_slice(raw);
        assert(out@ =~= raw@);
        return (out, fw, fh);
    }
    let ghost full = region_bytes(raw@, fw, c);
    let mut row: u32 = 0;
    while row < h
        invariant
            row <= h,
            0 < w,
            x0 + w <= fw,
            y0 + h <= fh,
            c == (RegionDto { x: x0, y: y0, w, h }),
            region_end(fw, c) <= raw@.len(),
            full == region_bytes(raw@, fw, c),
            out@.len() == row * (w * 4),
            row * (w * 4) <= full.len(),
            out@ == full.take(row * (w * 4)),
        decreases h - row,
    {
        proof {
            lemma_row_start(fw as int, x0 as int, y0 as int, w as int, h as int, row as int);
            assert((y0 + row) * fw + x0 + w <= raw@.len());
        }
        let src_y: usize = y0 as usize + row as usize;
        proof {
            let len = raw.len();
            assert(src_y == y0 + row);
            assert(0 <= src_y * fw <= len);
        }
        let start: usize = (src_y * fw as usize + x0 as usize) * 4;
        let end: usize = start + w as usize * 4;
        let line = vstd::slice::slice_subrange(raw, start, end);
        let ghost before = out@;
        out.extend_from_slice(line);
        proof {
            let n = w * 4;
            let lo = row * n;
            let hi = (row + 1) * n;
            assert(hi == lo + n) by (nonlinear_arith)
                requires
                    lo == row * n,
                    hi == (row + 1) * n,
            ;
            assert(hi <= c.w * c.h * 4) by (nonlinear_arith)
                requires
                    hi == (row + 1) * n,
                    n == w * 4,
                    row + 1 <= h,
                    c.w == w,
                    c.h == h,
                    0 <= n,
            ;
            assert forall|i: int| lo <= i < hi implies out@[i] == full[i] by {
                assert(i / n == row && i % n == i - lo) by {
                    vstd::arithmetic::div_mod::lemma_fundamental_div_mod_converse(
                        i,
                        n,
                        row as int,
                        i - lo,
                    );
                }
                assert(out@[i] == line@[i - lo]);
                assert(line@[i - lo] == raw@[start + (i - lo)]);
            }
            assert(out@ =~= full.take(hi));
        }
        row = row + 1;
    }
    assert(h * (w * 4) == full.len()) by (nonlinear_arith)
        requires
            full.len() == w * h * 4,
    ;
    assert(full.take(full.len() as int) == full);
    (out, w, h)
}

/// What a region is labelled with for a frame of `fw` by `fh` pixels: the part of it that is cropped.
pub fn region_label(fw: u32, fh: u32, r: RegionDto) -> (d: RegionDto)
    ensures
        d == clamp_region(fw, fh, r),
{
    let last_x: u32 = if fw > 0 {
        fw - 1
    } else {
        0
    };
    let last_y: u32 = if fh > 0 {
        fh - 1
    } else {
        0
    };
    let x: u32 = if r.x <= last_x {
        r.x
    } else {
        last_x
    };
    let y: u32 = if r.y <= last_y {
        r.y
    } else {
        last_y
    };
    let w: u32 = if r.w <= fw - x {
        r.w
    } else {
        fw - x
    };
    let h: u32 = if r.h <= fh - y {
        r.h
    } else {
        fh - y
    };
    RegionDto { x, y, w, h }
}

/// The number shown is what gets cropped: where the label of a region has any pixels, cropping a
/// frame of the size that it was made for yields a picture of the label's width and height.
pub proof fn label_is_what_is_cropped(p: Picture, r: RegionDto)
    requires
        !empty_region(clamp_region(p.w, p.h, r)),
    ensures
        crop_picture(p, r).w == clamp_region(p.w, p.h, r).w,
        crop_picture(p, r).h == clamp_region(p.w, p.h, r).h,
{
}

/// Cropping never yields more than the frame held: the result is no larger than the frame, and
/// a whole frame stays whole. Where the region lies on the frame in part, the result lies inside
/// the region too.
pub proof fn crop_stays_inside(p: Picture, r: RegionDto)
    ensures
        crop_picture(p, r).w <= p.w,
        crop_picture(p, r).h <= p.h,
        !empty_region(clamp_region(p.w, p.h, r)) ==> crop_picture(p, r).w <= r.w
            && crop_picture(p, r).h <= r.h,
        p.whole() ==> crop_fits(p, r) && crop_picture(p, r).whole(),
{
    let c = clamp_region(p.w, p.h, r);
    if p.whole() && !empty_region(c) {
        assert((c.y + c.h - 1) * p.w + p.w == (c.y + c.h) * p.w) by (nonlinear_arith);
        assert((c.y + c.h) * p.w <= p.h * p.w) by (nonlinear_arith)
            requires
                c.y + c.h <= p.h,
                0 <= p.w,
        ;
        assert(4 * p.w * p.h == (p.h * p.w) * 4) by (nonlinear_arith);
        assert(4 * c.w * c.h == c.w * c.h * 4) by (nonlinear_arith);
        assert(0 <= c.w * c.h) by (nonlinear_arith)
            requires
                0 <= c.w,
                0 <= c.h,
        ;
    }
}

/// Cropping a whole frame to its full size changes nothing.
pub proof fn crop_to_full_is_identity(p: Picture)
    requires
        p.whole(),
    ensures
        crop_picture(p, RegionDto { x: 0, y: 0, w: p.w, h: p.h }) == p,
{
    let r = RegionDto { x: 0, y: 0, w: p.w, h: p.h };
    let c = clamp_region(p.w, p.h, r);
    assert(c == r);
    if !empty_region(c) {
        let n = p.w * 4;
        assert(p.w * p.h * 4 == 4 * p.w * p.h) by (nonlinear_arith);
        assert(0 <= p.w * p.h) by (nonlinear_arith)
            requires
                0 <= p.w,
                0 <= p.h,
        ;
        assert forall|i: int| 0 <= i < p.data.len() implies crop_source(p.w, c, i) == i by {
            vstd::arithmetic::div_mod::lemma_fundamental_div_mod(i, n);
            let q = i / n;
            assert(n * q == (q * p.w) * 4) by (nonlinear_arith)
                requires
                    n == p.w * 4,
            ;
        }
        assert(region_bytes(p.data, p.w, c) =~= p.data);
    }
}

/// Byte `i` of a cropped picture is byte `i % (4 w)` of row `i / (4 w)`: the row and the column
/// of a crop inside a crop add up.
proof fn lemma_sources_compose(fw: u32, a: RegionDto, b: RegionDto, i: int)
    requires
        0 < b.w,
        0 < b.h,
        0 <= i < b.w * b.h * 4,
        b.x + b.w <= a.w,
        b.y + b.h <= a.h,
        a.x + b.x <= u32::MAX,
        a.y + b.y <= u32::MAX,
    ensures
        0 <= crop_source(a.w, b, i) < a.w * a.h * 4,
        crop_source(fw, a, crop_source(a.w, b, i)) == crop_source(
            fw,
            RegionDto { x: (a.x + b.x) as u32, y: (a.y + b.y) as u32, w: b.w, h: b.h },
            i,
        ),
{
    let n = b.w * 4;
    let m = a.w * 4;
    let q = i / n;
    let k = i % n;
    vstd::arithmetic::div_mod::lemma_fundamental_div_mod(i, n);
    assert(0 <= k < n) by {
        vstd::arithmetic::div_mod::lemma_mod_bound(i, n);
    }
    assert(0 <= q < b.h) by (nonlinear_arith)
        requires
            i == n * q + k,
            0 <= k < n,
            0 <= i < b.w * b.h * 4,
            n == b.w * 4,
    ;
    let j = crop_source(a.w, b, i);
    let row = b.y + q;
    let col = b.x * 4 + k;
    assert(j == (row * a.w + b.x) * 4 + k);
    assert(j == row * m + col) by (nonlinear_arith)
        requires
            j == (row * a.w + b.x) * 4 + k,
            m == a.w * 4,
            col == b.x * 4 + k,
    ;
    vstd::arithmetic::div_mod::lemma_fundamental_div_mod_converse(j, m, row, col);
    assert(0 <= j) by (nonlinear_arith)
        requires
            j == row * m + col,
            0 <= row,
            0 <= m,
            0 <= col,
    ;
    assert(j < a.w * a.h * 4) by (nonlinear_arith)
        requires
            j == row * m + col,
            col < m,
            row + 1 <= a.h,
            m == a.w * 4,
            0 <= m,
    ;
}

/// A crop inside a crop is one crop: cropping to a region and the result to another region
/// gives the bytes of the second region moved by the corner of the first, as long as neither
/// region is empty on the frame it is applied to.
pub proof fn crop_of_crop(p: Picture, r: RegionDto, s: RegionDto)
    requires
        !empty_region(clamp_region(p.w, p.h, r)),
        !empty_region(
            clamp_region(crop_picture(p, r).w, crop_picture(p, r).h, s),
        ),
    ensures
        ({
            let a = clamp_region(p.w, p.h, r);
            let b = clamp_region(a.w, a.h, s);
            crop_picture(crop_picture(p, r), s) == crop_picture(
                p,
                RegionDto { x: (a.x + b.x) as u32, y: (a.y + b.y) as u32, w: b.w, h: b.h },
            )
        }),
{
    let a = clamp_region(p.w, p.h, r);
    let b = clamp_region(a.w, a.h, s);
    let t = RegionDto { x: (a.x + b.x) as u32, y: (a.y + b.y) as u32, w: b.w, h: b.h };
    assert(clamp_region(p.w, p.h, t) == t);
    let inner = region_bytes(p.data, p.w, a);
    assert forall|i: int| 0 <= i < b.w * b.h * 4 implies region_bytes(inner, a.w, b)[i]
        == region_bytes(p.data, p.w, t)[i] by {
        lemma_sources_compose(p.w, a, b, i);
    }
    assert(region_bytes(inner, a.w, b) =~= region_bytes(p.data, p.w, t));
}

/// The model of a frame is its bytes and its own width and height; it is whole where there are
/// four bytes for each pixel.
pub proof fn frame_is_its_bytes_and_size(f: CapturedFrame)
    ensures
        f@.data == f.data@,
        f@.w == f.w,
        f@.h == f.h,
        f@.area() == 4 * f.w * f.h,
        f@.whole() <==> f.data@.len() == 4 * f.w * f.h,
{
}

/// Clamping keeps what it can: a corner on the frame stays, one beyond it moves to the last column
/// or row, and from there the size stays as far as the frame reaches.
pub proof fn clamping_keeps_what_is_on_the_frame(fw: u32, fh: u32, r: RegionDto)
    ensures
        ({
            let c = clamp_region(fw, fh, r);
            &&& r.x < fw ==> c.x == r.x
            &&& r.x >= fw && fw > 0 ==> c.x == fw - 1
            &&& fw == 0 ==> c.x == 0
            &&& r.y < fh ==> c.y == r.y
            &&& r.y >= fh && fh > 0 ==> c.y == fh - 1
            &&& fh == 0 ==> c.y == 0
            &&& c.x + r.w <= fw ==> c.w == r.w
            &&& c.x + r.w > fw ==> c.x + c.w == fw
            &&& c.y + r.h <= fh ==> c.h == r.h
            &&& c.y + r.h > fh ==> c.y + c.h == fh
        }),
{
}

/// Cropping moves pixels and changes none: the pixel in row `row` and column `col` of the cropped
/// picture is, channel by channel, the pixel of the frame that lies as far from the clamped
/// region's corner. Where the clamped region has no pixels the frame stays as it is.
pub proof fn cropped_pixels_stand_where_they_stood(
    p: Picture,
    r: RegionDto,
    row: int,
    col: int,
    k: int,
)
    ensures
        ({
            let c = clamp_region(p.w, p.h, r);
            let out = crop_picture(p, r);
            &&& c.w == 0 || c.h == 0 ==> out == p
            &&& c.w > 0 && c.h > 0 ==> {
                &&& out.w == c.w && out.h == c.h
                &&& out.data.len() == 4 * c.w * c.h
                &&& 0 <= row < c.h && 0 <= col < c.w && 0 <= k < 4 ==> out.data[(row * c.w + col)
                    * 4 + k] == p.data[((c.y + row) * p.w + c.x + col) * 4 + k]
            }
        }),
{
    let c = clamp_region(p.w, p.h, r);
    assert(c.w * c.h * 4 == 4 * c.w * c.h) by (nonlinear_arith);
    assert(0 <= c.w * c.h) by (nonlinear_arith)
        requires
            0 <= c.w,
            0 <= c.h,
    ;
    if c.w > 0 && c.h > 0 && 0 <= row < c.h && 0 <= col < c.w && 0 <= k < 4 {
        let n = c.w * 4;
        let j = col * 4 + k;
        let i = (row * c.w + col) * 4 + k;
        assert(i == row * n + j) by (nonlinear_arith)
            requires
                i == (row * c.w + col) * 4 + k,
                n == c.w * 4,
                j == col * 4 + k,
        ;
        vstd::arithmetic::div_mod::lemma_fundamental_div_mod_converse(i, n, row, j);
        assert(0 <= i) by (nonlinear_arith)
            requires
                i == row * n + j,
                0 <= row,
                0 <= n,
                0 <= j,
        ;
        assert(i < c.w * c.h * 4) by (nonlinear_arith)
            requires
                i == row * n + j,
                j < n,
                row + 1 <= c.h,
                n == c.w * 4,
                0 <= n,
        ;
        assert(crop_source(p.w, c, i) == ((c.y + row) * p.w + c.x) * 4 + j);
    }
}

/// Cropping needs the bytes up to the last pixel of the clamped region and no more.
pub proof fn cropping_needs_the_last_pixel(p: Picture, r: RegionDto)
    ensures
        ({
            let c = clamp_region(p.w, p.h, r);
            &&& c.w == 0 || c.h == 0 ==> crop_fits(p, r)
            &&& c.w > 0 && c.h > 0 ==> (crop_fits(p, r) <==> ((c.y + (c.h - 1)) * p.w + c.x + (c.w
                - 1)) * 4 + 3 < p.data.len())
        }),
{
    let c = clamp_region(p.w, p.h, r);
    assert(c.y + c.h - 1 == c.y + (c.h - 1));
}

} // verus!
