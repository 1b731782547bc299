//! Image metrics of the measurement fixture: what it means for two captures to differ,
//! where they differ, and by how much; and captures as the bytes of PNG files.

use vstd::prelude::*;
use crate::text::{decimal, hex_char, hex_digit, push_decimal};

verus! {

/// An RGBA8 image, rows top to bottom, four bytes a pixel.
#[derive(Clone)]
pub struct Img {
    pub w: u32,
    pub h: u32,
    pub px: Vec<u8>,
}

/// Byte offset of channel `c` of pixel `(x, y)` in an image `w` wide.
pub open spec fn offset(w: int, x: int, y: int, c: int) -> int {
    (y * w + x) * 4 + c
}

proof fn lemma_offset_in_bounds(w: int, h: int, x: int, y: int, c: int)
    requires
        0 <= x < w,
        0 <= y < h,
        0 <= c < 4,
    ensures
        0 <= offset(w, x, y, c) < w * h * 4,
        0 <= y * w + x < w * h,
{
    assert(y * w + x < w * h) by (nonlinear_arith)
        requires
            0 <= x < w,
            0 <= y < h,
    ;
    assert(0 <= y * w) by (nonlinear_arith)
        requires
            0 <= y,
            0 <= w,
    ;
}

impl Img {
    /// The pixel buffer holds exactly `w * h` pixels.
    pub open spec fn wf(&self) -> bool {
        self.px@.len() == self.w * self.h * 4
    }

    /// Channel `c` of pixel `(x, y)`, coordinates clamped to the last row and column.
    pub open spec fn at(&self, x: int, y: int, c: int) -> u8 {
        let cx = if x < self.w - 1 { x } else { self.w - 1 };
        let cy = if y < self.h - 1 { y } else { self.h - 1 };
        self.px@[offset(self.w as int, cx, cy, c)]
    }

    /// A black, transparent image.
    pub fn new(w: u32, h: u32) -> (img: Img)
        requires
            w * h * 4 <= usize::MAX,
        ensures
            img.w == w,
            img.h == h,
            img.wf(),
            forall|k: int| 0 <= k < img.px@.len() ==> #[trigger] img.px@[k] == 0,
    {
        let n = (w as usize) * (h as usize) * 4;
        Img { w, h, px: vec![0u8; n] }
    }

    pub fn get(&self, x: u32, y: u32, c: usize) -> (v: u8)
        requires
            self.wf(),
            self.w > 0,
            self.h > 0,
            c < 4,
        ensures
            v == self.at(x as int, y as int, c as int),
    {
        let cx = if x < self.w - 1 { x } else { self.w - 1 };
        let cy = if y < self.h - 1 { y } else { self.h - 1 };
        let n = self.px.len();
        proof {
            lemma_offset_in_bounds(self.w as int, self.h as int, cx as int, cy as int, c as int);
            assert(self.w * self.h * 4 == n);
        }
        self.px[((cy as usize) * (self.w as usize) + cx as usize) * 4 + c]
    }
}

/// What `image::load_from_memory` followed by `to_rgba8` gives for the file bytes `bytes`:
/// the width, height and RGBA8 pixels of the picture, or nothing when the bytes are no
/// picture the crate decodes.
pub uninterp spec fn rgba8_of(bytes: Seq<u8>) -> Option<(u32, u32, Seq<u8>)>;

/// What the `image` crate's `PngEncoder` writes for an RGBA8 picture `w` by `h` with pixels
/// `px`, or nothing when it reports an error.
pub uninterp spec fn png_of(w: u32, h: u32, px: Seq<u8>) -> Option<Seq<u8>>;

/// Decodes `bytes` with `image::load_from_memory` (the format sniffed from the bytes) and
/// converts the picture to RGBA8. Claimed: the result is `rgba8_of(bytes)`, a function of
/// the bytes alone, and an RGBA8 buffer holds four bytes for each of its `w * h` pixels.
#[verifier::external_body]
fn decode_rgba8(bytes: &[u8]) -> (r: Option<(u32, u32, Vec<u8>)>)
    ensures
        match r {
            Some((w, h, px)) => rgba8_of(bytes@) == Some((w, h, px@)) && px@.len() == w as int * h as int * 4,
            None => rgba8_of(bytes@) is None,
        },
{
    match image::load_from_memory(bytes) {
        Ok(img) => {
            let rgba = img.to_rgba8();
            Some((rgba.width(), rgba.height(), rgba.into_raw()))
        },
        Err(_) => None,
    }
}

/// Encodes an RGBA8 picture as PNG with `image::codecs::png::PngEncoder` at its default
/// settings. The encoder panics unless the buffer holds exactly `w * h * 4` bytes, so that
/// is required. Claimed: the result is `png_of(w, h, px)`.
#[verifier::external_body]
fn encode_png(px: &[u8], w: u32, h: u32) -> (r: Option<Vec<u8>>)
    requires
        px@.len() == w as int * h as int * 4,
    ensures
        match r {
            Some(b) => png_of(w, h, px@) == Some(b@),
            None => png_of(w, h, px@) is None,
        },
{
    let mut out: Vec<u8> = Vec::new();
    let enc = image::codecs::png::PngEncoder::new(&mut out);
    match image::ImageEncoder::write_image(enc, px, w, h, image::ExtendedColorType::Rgba8) {
        Ok(()) => Some(out),
        Err(_) => None,
    }
}

impl Img {
    /// The picture in a file's bytes, as an RGBA8 image.
    pub fn from_bytes(bytes: &[u8]) -> (r: Option<Img>)
        ensures
            match r {
                Some(img) => rgba8_of(bytes@) == Some((img.w, img.h, img.px@)) && img.wf(),
                None => rgba8_of(bytes@) is None,
            },
    {
        match decode_rgba8(bytes) {
            Some((w, h, px)) => Some(Img { w, h, px }),
            None => None,
        }
    }

    /// The image as the bytes of a PNG file.
    pub fn to_png(&self) -> (r: Option<Vec<u8>>)
        requires
            self.wf(),
        ensures
            match r {
                Some(b) => png_of(self.w, self.h, self.px@) == Some(b@),
                None => png_of(self.w, self.h, self.px@) is None,
            },
    {
        encode_png(self.px.as_slice(), self.w, self.h)
    }
}

#[derive(Clone, Copy, Debug, PartialEq, Eq)]
pub struct Rect {
    pub x0: u32,
    pub y0: u32,
    pub x1: u32,
    pub y1: u32,
}

pub open spec fn min_u32(a: u32, b: u32) -> u32 {
    if a <= b { a } else { b }
}

pub open spec fn sat_sub(a: u32, b: u32) -> nat {
    if a >= b { (a - b) as nat } else { 0 }
}

impl Rect {
    pub fn full(w: u32, h: u32) -> (r: Rect)
        ensures
            r == (Rect { x0: 0, y0: 0, x1: w, y1: h }),
    {
        Rect { x0: 0, y0: 0, x1: w, y1: h }
    }

    pub open spec fn area(&self) -> nat {
        sat_sub(self.x1, self.x0) * sat_sub(self.y1, self.y0)
    }

    pub fn pixels(&self) -> (n: u64)
        ensures
            n == self.area(),
    {
        let w = if self.x1 >= self.x0 { self.x1 - self.x0 } else { 0 };
        let h = if self.y1 >= self.y0 { self.y1 - self.y0 } else { 0 };
        assert((w as u64) * (h as u64) <= u64::MAX) by (nonlinear_arith)
            requires
                w <= u32::MAX,
                h <= u32::MAX,
        ;
        (w as u64) * (h as u64)
    }

    pub open spec fn empty(&self) -> bool {
        self.x1 <= self.x0 || self.y1 <= self.y0
    }

    pub fn is_empty(&self) -> (b: bool)
        ensures
            b == self.empty(),
    {
        self.x1 <= self.x0 || self.y1 <= self.y0
    }

    /// Whether pixel `(x, y)` lies inside.
    pub open spec fn holds(&self, x: int, y: int) -> bool {
        self.x0 <= x < self.x1 && self.y0 <= y < self.y1
    }

    pub open spec fn clamp_to(&self, w: u32, h: u32) -> Rect {
        Rect { x0: min_u32(self.x0, w), y0: min_u32(self.y0, h), x1: min_u32(self.x1, w), y1: min_u32(self.y1, h) }
    }

    /// The rectangle as `WIDTHxHEIGHT+X+Y`.
    pub fn to_string(&self) -> (s: String)
        requires
            self.x0 <= self.x1,
            self.y0 <= self.y1,
        ensures
            s@ == decimal((self.x1 - self.x0) as nat) + "x"@ + decimal((self.y1 - self.y0) as nat)
                + "+"@ + decimal(self.x0 as nat) + "+"@ + decimal(self.y0 as nat),
    {
        let mut s = String::new();
        push_decimal(&mut s, (self.x1 - self.x0) as u64);
        s.append("x");
        push_decimal(&mut s, (self.y1 - self.y0) as u64);
        s.append("+");
        push_decimal(&mut s, self.x0 as u64);
        s.append("+");
        push_decimal(&mut s, self.y0 as u64);
        s
    }

    /// The part of the rectangle that lies on the image.
    pub fn clamped(&self, img: &Img) -> (r: Rect)
        ensures
            r == self.clamp_to(img.w, img.h),
    {
        Rect {
            x0: if self.x0 <= img.w { self.x0 } else { img.w },
            y0: if self.y0 <= img.h { self.y0 } else { img.h },
            x1: if self.x1 <= img.w { self.x1 } else { img.w },
            y1: if self.y1 <= img.h { self.y1 } else { img.h },
        }
    }
}

/// High-pass window of the coherence measure, in reference pixels.
pub const COH_HIGHPASS: u32 = 3;
/// Side of a coherence tile, in reference pixels.
pub const COH_TILE: u32 = 64;
/// Shortest lag the coherence measure looks at.
pub const COH_LAG_MIN: u32 = 6;
/// Longest lag the coherence measure looks at.
pub const COH_LAG_MAX: u32 = 32;

/// The knobs of the coherence measure, in reference pixels.
#[derive(Clone, Copy, Debug)]
pub struct CohParams {
    pub highpass: u32,
    pub tile: u32,
    pub lag_min: u32,
    pub lag_max: u32,
}

/// A rectangle holds no pixel exactly when it counts none.
pub proof fn law_empty_iff_no_pixels(r: Rect)
    ensures
        r.empty() <==> r.area() == 0,
{
    let w = sat_sub(r.x1, r.x0);
    let h = sat_sub(r.y1, r.y0);
    if r.empty() {
        assert(w == 0 || h == 0);
        assert(w * h == 0) by (nonlinear_arith)
            requires
                w == 0 || h == 0,
        ;
    } else {
        assert(sat_sub(r.x1, r.x0) > 0 && sat_sub(r.y1, r.y0) > 0);
        assert(sat_sub(r.x1, r.x0) * sat_sub(r.y1, r.y0) > 0) by (nonlinear_arith)
            requires
                sat_sub(r.x1, r.x0) > 0,
                sat_sub(r.y1, r.y0) > 0,
        ;
    }
}


/// Pixel `(x, y)` differs between the two images in some colour channel (alpha is not
/// compared).
pub open spec fn differs(a: &Img, b: &Img, x: int, y: int) -> bool {
    a.at(x, y, 0) != b.at(x, y, 0) || a.at(x, y, 1) != b.at(x, y, 1) || a.at(x, y, 2) != b.at(x, y, 2)
}

pub open spec fn delta(a: &Img, b: &Img, x: int, y: int, c: int) -> int {
    let d = a.at(x, y, c) - b.at(x, y, c);
    if d >= 0 { d } else { -d }
}

/// Pixel `(xx, yy)` of rectangle `r` comes before pixel `(x, y)` in row-major order.
pub open spec fn before(r: Rect, y: int, x: int, yy: int, xx: int) -> bool {
    (r.y0 <= yy < y && r.x0 <= xx < r.x1) || (yy == y && r.x0 <= xx < x)
}

/// The largest colour-channel difference between the images over `r`, clamped to `a`.
pub open spec fn is_max_delta(a: &Img, b: &Img, r: Rect, m: u32) -> bool {
    let rc = r.clamp_to(a.w, a.h);
    &&& forall|x: int, y: int, c: int| rc.holds(x, y) && 0 <= c < 3 ==> #[trigger] delta(a, b, x, y, c) <= m
    &&& (m == 0 || exists|x: int, y: int, c: int| rc.holds(x, y) && 0 <= c < 3 && #[trigger] delta(a, b, x, y, c) == m)
}

pub fn max_delta(a: &Img, b: &Img, r: Rect) -> (m: u32)
    requires
        a.wf(),
        b.wf(),
        !r.clamp_to(a.w, a.h).empty() ==> b.w > 0 && b.h > 0,
    ensures
        is_max_delta(a, b, r, m),
{
    let rc = r.clamped(a);
    let mut m: u32 = 0;
    if rc.is_empty() {
        return 0;
    }
    let ghost mut wx: int = 0;
    let ghost mut wy: int = 0;
    let ghost mut wc: int = 0;
    let mut y = rc.y0;
    while y < rc.y1
        invariant
            a.wf(),
            b.wf(),
            rc == r.clamp_to(a.w, a.h),
            !rc.empty(),
            b.w > 0 && b.h > 0,
            rc.y0 <= y <= rc.y1,
            forall|xx: int, yy: int, c: int| before(rc, y as int, rc.x0 as int, yy, xx) && 0 <= c < 3 ==> #[trigger] delta(a, b, xx, yy, c) <= m,
            m == 0 || (before(rc, y as int, rc.x0 as int, wy, wx) && 0 <= wc < 3 && delta(a, b, wx, wy, wc) == m),
        decreases rc.y1 - y,
    {
        let mut x = rc.x0;
        while x < rc.x1
            invariant
                a.wf(),
                b.wf(),
                rc == r.clamp_to(a.w, a.h),
                rc.y0 <= y < rc.y1,
                rc.x0 <= x <= rc.x1,
                b.w > 0 && b.h > 0 && a.w > 0 && a.h > 0,
                forall|xx: int, yy: int, c: int| before(rc, y as int, x as int, yy, xx) && 0 <= c < 3 ==> #[trigger] delta(a, b, xx, yy, c) <= m,
                m == 0 || (before(rc, y as int, x as int, wy, wx) && 0 <= wc < 3 && delta(a, b, wx, wy, wc) == m),
            decreases rc.x1 - x,
        {
            let mut c: usize = 0;
            while c < 3
                invariant
                    a.wf(),
                    b.wf(),
                    rc == r.clamp_to(a.w, a.h),
                    rc.y0 <= y < rc.y1,
                    rc.x0 <= x < rc.x1,
                    c <= 3,
                    b.w > 0 && b.h > 0 && a.w > 0 && a.h > 0,
                    forall|xx: int, yy: int, cc: int| before(rc, y as int, x as int, yy, xx) && 0 <= cc < 3 ==> #[trigger] delta(a, b, xx, yy, cc) <= m,
                    forall|cc: int| 0 <= cc < c ==> #[trigger] delta(a, b, x as int, y as int, cc) <= m,
                    m == 0 || ((before(rc, y as int, x as int, wy, wx) || (wy == y && wx == x && wc < c)) && 0 <= wc < 3 && delta(a, b, wx, wy, wc) == m),
                decreases 3 - c,
            {
                let va = a.get(x, y, c);
                let vb = b.get(x, y, c);
                let d: u32 = if va >= vb { (va - vb) as u32 } else { (vb - va) as u32 };
                if d > m {
                    m = d;
                    proof {
                        wx = x as int;
                        wy = y as int;
                        wc = c as int;
                    }
                }
                c += 1;
            }
            x += 1;
        }
        y += 1;
    }
    proof {
        if m != 0 {
            assert(rc.holds(wx, wy));
        }
    }
    m
}

/// How many pixels of row `y`, columns `x0..x1`, differ.
pub open spec fn row_count(a: &Img, b: &Img, y: int, x0: int, x1: int) -> nat
    decreases x1 - x0,
{
    if x1 <= x0 {
        0
    } else {
        row_count(a, b, y, x0, x1 - 1) + if differs(a, b, x1 - 1, y) { 1nat } else { 0nat }
    }
}

/// How many pixels of rows `y0..y1`, columns `x0..x1`, differ.
pub open spec fn rect_count(a: &Img, b: &Img, x0: int, x1: int, y0: int, y1: int) -> nat
    decreases y1 - y0,
{
    if y1 <= y0 {
        0
    } else {
        rect_count(a, b, x0, x1, y0, y1 - 1) + row_count(a, b, y1 - 1, x0, x1)
    }
}

/// The number of pixels of `r`, clamped to `a`, that differ.
pub open spec fn count_differing(a: &Img, b: &Img, r: Rect) -> nat {
    let rc = r.clamp_to(a.w, a.h);
    rect_count(a, b, rc.x0 as int, rc.x1 as int, rc.y0 as int, rc.y1 as int)
}

proof fn lemma_row_count_bound(a: &Img, b: &Img, y: int, x0: int, x1: int)
    requires
        x0 <= x1,
    ensures
        row_count(a, b, y, x0, x1) <= x1 - x0,
    decreases x1 - x0,
{
    if x1 > x0 {
        lemma_row_count_bound(a, b, y, x0, x1 - 1);
    }
}

proof fn lemma_rect_count_bound(a: &Img, b: &Img, x0: int, x1: int, y0: int, y1: int)
    requires
        x0 <= x1,
        y0 <= y1,
    ensures
        rect_count(a, b, x0, x1, y0, y1) <= (x1 - x0) * (y1 - y0),
    decreases y1 - y0,
{
    if y1 > y0 {
        lemma_rect_count_bound(a, b, x0, x1, y0, y1 - 1);
        lemma_row_count_bound(a, b, y1 - 1, x0, x1);
        assert((x1 - x0) * (y1 - 1 - y0) + (x1 - x0) == (x1 - x0) * (y1 - y0)) by (nonlinear_arith);
    }
}

fn differs_at(a: &Img, b: &Img, x: u32, y: u32) -> (d: bool)
    requires
        a.wf(),
        b.wf(),
        a.w > 0 && a.h > 0 && b.w > 0 && b.h > 0,
    ensures
        d == differs(a, b, x as int, y as int),
{
    a.get(x, y, 0) != b.get(x, y, 0) || a.get(x, y, 1) != b.get(x, y, 1) || a.get(x, y, 2) != b.get(x, y, 2)
}

pub fn pixels_differing(a: &Img, b: &Img, r: Rect) -> (n: u64)
    requires
        a.wf(),
        b.wf(),
        !r.clamp_to(a.w, a.h).empty() ==> b.w > 0 && b.h > 0,
    ensures
        n == count_differing(a, b, r),
{
    let rc = r.clamped(a);
    let mut n: u64 = 0;
    let mut y = rc.y0;
    if rc.y1 <= rc.y0 || rc.x1 <= rc.x0 {
        proof {
            if rc.y1 > rc.y0 {
                lemma_rect_zero_width(a, b, rc.x0 as int, rc.x1 as int, rc.y0 as int, rc.y1 as int);
            }
        }
        return 0;
    }
    while y < rc.y1
        invariant
            a.wf(),
            b.wf(),
            rc == r.clamp_to(a.w, a.h),
            rc.y0 <= y <= rc.y1,
            rc.x0 < rc.x1,
            b.w > 0 && b.h > 0,
            n == rect_count(a, b, rc.x0 as int, rc.x1 as int, rc.y0 as int, y as int),
        decreases rc.y1 - y,
    {
        let mut x = rc.x0;
        proof {
            lemma_rect_count_bound(a, b, rc.x0 as int, rc.x1 as int, rc.y0 as int, y as int);
            assert((rc.x1 - rc.x0) * (y - rc.y0) + (rc.x1 - rc.x0) <= 0xffff_ffffu64 * 0x1_0000_0000u64) by (nonlinear_arith)
                requires
                    rc.x1 - rc.x0 <= 0xffff_ffff,
                    y - rc.y0 <= 0xffff_ffff,
                    rc.x0 <= rc.x1,
                    rc.y0 <= y,
            ;
        }
        let ghost base = n;
        while x < rc.x1
            invariant
                a.wf(),
                b.wf(),
                rc == r.clamp_to(a.w, a.h),
                rc.y0 <= y < rc.y1,
                rc.x0 <= x <= rc.x1,
                b.w > 0 && b.h > 0 && a.w > 0 && a.h > 0,
                base == rect_count(a, b, rc.x0 as int, rc.x1 as int, rc.y0 as int, y as int),
                base + (rc.x1 - rc.x0) <= u64::MAX,
                n == base + row_count(a, b, y as int, rc.x0 as int, x as int),
            decreases rc.x1 - x,
        {
            proof {
                lemma_row_count_bound(a, b, y as int, rc.x0 as int, x as int);
            }
            if differs_at(a, b, x, y) {
                n += 1;
            }
            x += 1;
        }
        y += 1;
    }
    n
}

proof fn lemma_rect_zero_width(a: &Img, b: &Img, x0: int, x1: int, y0: int, y1: int)
    requires
        x1 <= x0,
    ensures
        rect_count(a, b, x0, x1, y0, y1) == 0,
    decreases y1 - y0,
{
    if y1 > y0 {
        lemma_rect_zero_width(a, b, x0, x1, y0, y1 - 1);
    }
}

proof fn lemma_row_count_zero(a: &Img, b: &Img, y: int, x0: int, x1: int)
    ensures
        row_count(a, b, y, x0, x1) == 0 <==> forall|x: int| x0 <= x < x1 ==> !#[trigger] differs(a, b, x, y),
    decreases x1 - x0,
{
    if x1 > x0 {
        lemma_row_count_zero(a, b, y, x0, x1 - 1);
    }
}

proof fn lemma_rect_count_zero(a: &Img, b: &Img, x0: int, x1: int, y0: int, y1: int)
    ensures
        rect_count(a, b, x0, x1, y0, y1) == 0 <==> forall|x: int, y: int|
            x0 <= x < x1 && y0 <= y < y1 ==> !#[trigger] differs(a, b, x, y),
    decreases y1 - y0,
{
    if y1 > y0 {
        lemma_rect_count_zero(a, b, x0, x1, y0, y1 - 1);
        lemma_row_count_zero(a, b, y1 - 1, x0, x1);
        if rect_count(a, b, x0, x1, y0, y1) == 0 {
            assert forall|x: int, y: int| x0 <= x < x1 && y0 <= y < y1 implies !#[trigger] differs(
                a,
                b,
                x,
                y,
            ) by {
                if y < y1 - 1 {
                } else {
                }
            }
        }
    }
}

/// The largest channel difference over a rectangle is nought exactly when no pixel of it
/// differs.
pub proof fn law_max_delta_zero_iff_none_differ(a: &Img, b: &Img, r: Rect, m: u32)
    requires
        is_max_delta(a, b, r, m),
    ensures
        m == 0 <==> count_differing(a, b, r) == 0,
{
    let rc = r.clamp_to(a.w, a.h);
    lemma_rect_count_zero(a, b, rc.x0 as int, rc.x1 as int, rc.y0 as int, rc.y1 as int);
    if m == 0 {
        assert forall|x: int, y: int|
            rc.x0 <= x < rc.x1 && rc.y0 <= y < rc.y1 implies !#[trigger] differs(a, b, x, y) by {
            assert(rc.holds(x, y));
            assert(delta(a, b, x, y, 0) <= m);
            assert(delta(a, b, x, y, 1) <= m);
            assert(delta(a, b, x, y, 2) <= m);
        }
    } else {
        let (x, y, c) = choose|x: int, y: int, c: int|
            rc.holds(x, y) && 0 <= c < 3 && #[trigger] delta(a, b, x, y, c) == m;
        assert(differs(a, b, x, y));
    }
}

/// Two images of one size have no difference box exactly when no pixel of them differs.
pub proof fn law_no_bbox_iff_none_differ(a: &Img, b: &Img, r: Option<Rect>)
    requires
        is_diff_bbox(a, b, r),
        a.w == b.w,
        a.h == b.h,
    ensures
        r is None <==> count_differing(a, b, Rect { x0: 0, y0: 0, x1: a.w, y1: a.h }) == 0,
{
    lemma_rect_count_zero(a, b, 0, a.w as int, 0, a.h as int);
    let full = Rect { x0: 0, y0: 0, x1: a.w, y1: a.h };
    assert(full.clamp_to(a.w, a.h) == full);
    if r is Some {
        let (x, y) = choose|x: int, y: int| 0 <= x < a.w && 0 <= y < a.h && #[trigger] differs(a, b, x, y) && x == r->0.x0;
        assert(differs(a, b, x, y));
    }
}

/// The tightest rectangle holding every pixel that differs, when the images have one
/// size and some pixel differs.
pub open spec fn is_diff_bbox(a: &Img, b: &Img, r: Option<Rect>) -> bool {
    if a.w != b.w || a.h != b.h {
        r is None
    } else {
        let any = exists|x: int, y: int| 0 <= x < a.w && 0 <= y < a.h && #[trigger] differs(a, b, x, y);
        match r {
            None => !any,
            Some(rr) => {
                &&& forall|x: int, y: int| 0 <= x < a.w && 0 <= y < a.h && #[trigger] differs(a, b, x, y) ==> rr.holds(x, y)
                &&& exists|x: int, y: int| 0 <= x < a.w && 0 <= y < a.h && #[trigger] differs(a, b, x, y) && x == rr.x0
                &&& exists|x: int, y: int| 0 <= x < a.w && 0 <= y < a.h && #[trigger] differs(a, b, x, y) && y == rr.y0
                &&& exists|x: int, y: int| 0 <= x < a.w && 0 <= y < a.h && #[trigger] differs(a, b, x, y) && x + 1 == rr.x1
                &&& exists|x: int, y: int| 0 <= x < a.w && 0 <= y < a.h && #[trigger] differs(a, b, x, y) && y + 1 == rr.y1
            },
        }
    }
}

pub fn diff_bbox(a: &Img, b: &Img) -> (r: Option<Rect>)
    requires
        a.wf(),
        b.wf(),
    ensures
        is_diff_bbox(a, b, r),
{
    if a.w != b.w || a.h != b.h {
        return None;
    }
    let full = Rect { x0: 0, y0: 0, x1: a.w, y1: a.h };
    let mut lo0: u32 = u32::MAX;
    let mut lo1: u32 = u32::MAX;
    let mut hi0: u32 = 0;
    let mut hi1: u32 = 0;
    let ghost mut p0: (int, int) = (0, 0);
    let ghost mut p1: (int, int) = (0, 0);
    let ghost mut p2: (int, int) = (0, 0);
    let ghost mut p3: (int, int) = (0, 0);
    let mut y: u32 = 0;
    while y < a.h
        invariant
            a.wf(),
            b.wf(),
            a.w == b.w && a.h == b.h,
            full == (Rect { x0: 0, y0: 0, x1: a.w, y1: a.h }),
            y <= a.h,
            forall|xx: int, yy: int| before(full, y as int, 0, yy, xx) && #[trigger] differs(a, b, xx, yy)
                ==> lo0 <= xx < hi0 && lo1 <= yy < hi1,
            hi0 == 0 <==> !exists|xx: int, yy: int| before(full, y as int, 0, yy, xx) && #[trigger] differs(a, b, xx, yy),
            hi0 > 0 ==> {
                &&& before(full, y as int, 0, p0.1, p0.0) && differs(a, b, p0.0, p0.1) && p0.0 == lo0
                &&& before(full, y as int, 0, p1.1, p1.0) && differs(a, b, p1.0, p1.1) && p1.1 == lo1
                &&& before(full, y as int, 0, p2.1, p2.0) && differs(a, b, p2.0, p2.1) && p2.0 + 1 == hi0
                &&& before(full, y as int, 0, p3.1, p3.0) && differs(a, b, p3.0, p3.1) && p3.1 + 1 == hi1
            },
        decreases a.h - y,
    {
        let mut x: u32 = 0;
        while x < a.w
            invariant
                a.wf(),
                b.wf(),
                a.w == b.w && a.h == b.h,
                full == (Rect { x0: 0, y0: 0, x1: a.w, y1: a.h }),
                y < a.h,
                x <= a.w,
                forall|xx: int, yy: int| before(full, y as int, x as int, yy, xx) && #[trigger] differs(a, b, xx, yy)
                    ==> lo0 <= xx < hi0 && lo1 <= yy < hi1,
                hi0 == 0 <==> !exists|xx: int, yy: int| before(full, y as int, x as int, yy, xx) && #[trigger] differs(a, b, xx, yy),
                hi0 > 0 ==> {
                    &&& before(full, y as int, x as int, p0.1, p0.0) && differs(a, b, p0.0, p0.1) && p0.0 == lo0
                    &&& before(full, y as int, x as int, p1.1, p1.0) && differs(a, b, p1.0, p1.1) && p1.1 == lo1
                    &&& before(full, y as int, x as int, p2.1, p2.0) && differs(a, b, p2.0, p2.1) && p2.0 + 1 == hi0
                    &&& before(full, y as int, x as int, p3.1, p3.0) && differs(a, b, p3.0, p3.1) && p3.1 + 1 == hi1
                },
            decreases a.w - x,
        {
            if differs_at(a, b, x, y) {
                let was_empty = hi0 == 0;
                if was_empty || x < lo0 {
                    lo0 = x;
                    proof { p0 = (x as int, y as int); }
                }
                if was_empty || y < lo1 {
                    lo1 = y;
                    proof { p1 = (x as int, y as int); }
                }
                if was_empty || x + 1 > hi0 {
                    hi0 = x + 1;
                    proof { p2 = (x as int, y as int); }
                }
                if was_empty || y + 1 > hi1 {
                    hi1 = y + 1;
                    proof { p3 = (x as int, y as int); }
                }
            }
            proof {
                assert forall|xx: int, yy: int| before(full, y as int, x + 1, yy, xx) && #[trigger] differs(a, b, xx, yy)
                    implies lo0 <= xx < hi0 && lo1 <= yy < hi1 by {
                    if !(yy == y && xx == x) {
                        assert(before(full, y as int, x as int, yy, xx));
                    }
                }
                if hi0 == 0 {
                    assert forall|xx: int, yy: int| before(full, y as int, x + 1, yy, xx) implies !#[trigger] differs(a, b, xx, yy) by {
                        if !(yy == y && xx == x) {
                            assert(before(full, y as int, x as int, yy, xx));
                        }
                    }
                } else {
                    assert(before(full, y as int, x + 1, p0.1, p0.0));
                }
            }
            x += 1;
        }
        proof {
            assert forall|xx: int, yy: int| before(full, (y + 1) as int, 0, yy, xx) implies before(full, y as int, a.w as int, yy, xx) by {}
            assert forall|xx: int, yy: int| before(full, y as int, a.w as int, yy, xx) implies before(full, (y + 1) as int, 0, yy, xx) by {}
        }
        y += 1;
    }
    proof {
        assert forall|xx: int, yy: int| 0 <= xx < a.w && 0 <= yy < a.h implies #[trigger] before(full, a.h as int, 0, yy, xx) by {}
    }
    if hi0 > 0 {
        Some(Rect { x0: lo0, y0: lo1, x1: hi0, y1: hi1 })
    } else {
        None
    }
}


// ------------------------------------------------------------------ SHA-256

/// `x` rotated right by `n` bits.
pub open spec fn rotr(x: u32, n: u32) -> u32 {
    ((x >> n) | (x << ((32 - n) as u32))) as u32
}

fn rotate_right(x: u32, n: u32) -> (r: u32)
    requires
        0 < n < 32,
    ensures
        r == rotr(x, n),
{
    (x >> n) | (x << (32 - n))
}

pub open spec fn big_sigma0(a: u32) -> u32 {
    rotr(a, 2) ^ rotr(a, 13) ^ rotr(a, 22)
}

pub open spec fn big_sigma1(e: u32) -> u32 {
    rotr(e, 6) ^ rotr(e, 11) ^ rotr(e, 25)
}

pub open spec fn small_sigma0(x: u32) -> u32 {
    rotr(x, 7) ^ rotr(x, 18) ^ (x >> 3u32)
}

pub open spec fn small_sigma1(x: u32) -> u32 {
    rotr(x, 17) ^ rotr(x, 19) ^ (x >> 10u32)
}

/// The 64 round constants of SHA-256.
pub open spec fn round_k(i: u32) -> u32 {
    match i {
        0 => 0x428a2f98,
        1 => 0x71374491,
        2 => 0xb5c0fbcf,
        3 => 0xe9b5dba5,
        4 => 0x3956c25b,
        5 => 0x59f111f1,
        6 => 0x923f82a4,
        7 => 0xab1c5ed5,
        8 => 0xd807aa98,
        9 => 0x12835b01,
        10 => 0x243185be,
        11 => 0x550c7dc3,
        12 => 0x72be5d74,
        13 => 0x80deb1fe,
        14 => 0x9bdc06a7,
        15 => 0xc19bf174,
        16 => 0xe49b69c1,
        17 => 0xefbe4786,
        18 => 0x0fc19dc6,
        19 => 0x240ca1cc,
        20 => 0x2de92c6f,
        21 => 0x4a7484aa,
        22 => 0x5cb0a9dc,
        23 => 0x76f988da,
        24 => 0x983e5152,
        25 => 0xa831c66d,
        26 => 0xb00327c8,
        27 => 0xbf597fc7,
        28 => 0xc6e00bf3,
        29 => 0xd5a79147,
        30 => 0x06ca6351,
        31 => 0x14292967,
        32 => 0x27b70a85,
        33 => 0x2e1b2138,
        34 => 0x4d2c6dfc,
        35 => 0x53380d13,
        36 => 0x650a7354,
        37 => 0x766a0abb,
        38 => 0x81c2c92e,
        39 => 0x92722c85,
        40 => 0xa2bfe8a1,
        41 => 0xa81a664b,
        42 => 0xc24b8b70,
        43 => 0xc76c51a3,
        44 => 0xd192e819,
        45 => 0xd6990624,
        46 => 0xf40e3585,
        47 => 0x106aa070,
        48 => 0x19a4c116,
        49 => 0x1e376c08,
        50 => 0x2748774c,
        51 => 0x34b0bcb5,
        52 => 0x391c0cb3,
        53 => 0x4ed8aa4a,
        54 => 0x5b9cca4f,
        55 => 0x682e6ff3,
        56 => 0x748f82ee,
        57 => 0x78a5636f,
        58 => 0x84c87814,
        59 => 0x8cc70208,
        60 => 0x90befffa,
        61 => 0xa4506ceb,
        62 => 0xbef9a3f7,
        _ => 0xc67178f2,
    }
}

fn round_constant(i: usize) -> (k: u32)
    requires
        i < 64,
    ensures
        k == round_k(i as u32),
{
    match i {
        0 => 0x428a2f98,
        1 => 0x71374491,
        2 => 0xb5c0fbcf,
        3 => 0xe9b5dba5,
        4 => 0x3956c25b,
        5 => 0x59f111f1,
        6 => 0x923f82a4,
        7 => 0xab1c5ed5,
        8 => 0xd807aa98,
        9 => 0x12835b01,
        10 => 0x243185be,
        11 => 0x550c7dc3,
        12 => 0x72be5d74,
        13 => 0x80deb1fe,
        14 => 0x9bdc06a7,
        15 => 0xc19bf174,
        16 => 0xe49b69c1,
        17 => 0xefbe4786,
        18 => 0x0fc19dc6,
        19 => 0x240ca1cc,
        20 => 0x2de92c6f,
        21 => 0x4a7484aa,
        22 => 0x5cb0a9dc,
        23 => 0x76f988da,
        24 => 0x983e5152,
        25 => 0xa831c66d,
        26 => 0xb00327c8,
        27 => 0xbf597fc7,
        28 => 0xc6e00bf3,
        29 => 0xd5a79147,
        30 => 0x06ca6351,
        31 => 0x14292967,
        32 => 0x27b70a85,
        33 => 0x2e1b2138,
        34 => 0x4d2c6dfc,
        35 => 0x53380d13,
        36 => 0x650a7354,
        37 => 0x766a0abb,
        38 => 0x81c2c92e,
        39 => 0x92722c85,
        40 => 0xa2bfe8a1,
        41 => 0xa81a664b,
        42 => 0xc24b8b70,
        43 => 0xc76c51a3,
        44 => 0xd192e819,
        45 => 0xd6990624,
        46 => 0xf40e3585,
        47 => 0x106aa070,
        48 => 0x19a4c116,
        49 => 0x1e376c08,
        50 => 0x2748774c,
        51 => 0x34b0bcb5,
        52 => 0x391c0cb3,
        53 => 0x4ed8aa4a,
        54 => 0x5b9cca4f,
        55 => 0x682e6ff3,
        56 => 0x748f82ee,
        57 => 0x78a5636f,
        58 => 0x84c87814,
        59 => 0x8cc70208,
        60 => 0x90befffa,
        61 => 0xa4506ceb,
        62 => 0xbef9a3f7,
        _ => 0xc67178f2,
    }
}

/// The initial hash value.
pub open spec fn h0() -> Seq<u32> {
    seq![0x6a09e667, 0xbb67ae85, 0x3c6ef372, 0xa54ff53a, 0x510e527f, 0x9b05688c, 0x1f83d9ab, 0x5be0cd19]
}

/// The big-endian word at byte `off` of `m`.
pub open spec fn be_word(m: Seq<u8>, off: int) -> u32 {
    (((m[off] as u32) << 24u32) | ((m[off + 1] as u32) << 16u32) | ((m[off + 2] as u32) << 8u32) | (m[off + 3] as u32)) as u32
}

/// Word `t` of the message schedule of the block at byte `base` of `m`.
pub open spec fn schedule(m: Seq<u8>, base: int, t: int) -> u32
    decreases t,
{
    if t < 16 {
        be_word(m, base + 4 * t)
    } else {
        schedule(m, base, t - 16).wrapping_add(small_sigma0(schedule(m, base, t - 15))).wrapping_add(
            schedule(m, base, t - 7),
        ).wrapping_add(small_sigma1(schedule(m, base, t - 2)))
    }
}

/// One round of the compression function on working variables `s`.
pub open spec fn round(s: Seq<u32>, k: u32, w: u32) -> Seq<u32> {
    let (a, b, c, d, e, f, g, h) = (s[0], s[1], s[2], s[3], s[4], s[5], s[6], s[7]);
    let ch = ((e & f) ^ (!e & g)) as u32;
    let t1 = h.wrapping_add(big_sigma1(e)).wrapping_add(ch).wrapping_add(k).wrapping_add(w);
    let maj = ((a & b) ^ (a & c) ^ (b & c)) as u32;
    let t2 = big_sigma0(a).wrapping_add(maj);
    seq![t1.wrapping_add(t2), a, b, c, d.wrapping_add(t1), e, f, g]
}

/// The working variables after `t` rounds on the block at byte `base`.
pub open spec fn rounds(h: Seq<u32>, m: Seq<u8>, base: int, t: int) -> Seq<u32>
    decreases t,
{
    if t <= 0 {
        h
    } else {
        round(rounds(h, m, base, t - 1), round_k((t - 1) as u32), schedule(m, base, t - 1))
    }
}

/// The hash value after absorbing the block at byte `base`.
pub open spec fn absorb(h: Seq<u32>, m: Seq<u8>, base: int) -> Seq<u32> {
    let s = rounds(h, m, base, 64);
    Seq::new(8, |j: int| h[j].wrapping_add(s[j]))
}

/// The hash value after the first `n` blocks of `m`.
pub open spec fn hash_blocks(m: Seq<u8>, n: nat) -> Seq<u32>
    decreases n,
{
    if n == 0 {
        h0()
    } else {
        absorb(hash_blocks(m, (n - 1) as nat), m, 64 * (n - 1))
    }
}

/// The eight big-endian bytes of `v`.
pub open spec fn be64(v: u64) -> Seq<u8> {
    Seq::new(8, |k: int| ((v >> ((56 - 8 * k) as u64)) & 0xffu64) as u8)
}

/// Zero bytes that bring a message of `len` bytes plus its `0x80` marker to 56 mod 64.
pub open spec fn pad_zeros(len: nat) -> nat {
    ((119 - (len % 64) as int) % 64) as nat
}

/// The message as SHA-256 pads it: a `0x80` byte, zeros, and its bit length big-endian.
pub open spec fn padded(data: Seq<u8>) -> Seq<u8> {
    data + seq![0x80u8] + Seq::new(pad_zeros(data.len()), |k: int| 0u8) + be64((data.len() * 8) as u64)
}

/// The SHA-256 digest of `data`, as eight words.
pub open spec fn sha256(data: Seq<u8>) -> Seq<u32> {
    hash_blocks(padded(data), padded(data).len() / 64)
}

/// A word as eight lower-case hex digits, most significant first.
pub open spec fn hex8(v: u32) -> Seq<char> {
    Seq::new(8, |k: int| hex_char(((v >> ((28 - 4 * k) as u32)) & 0xfu32) as u32))
}

/// Words as hex, eight digits each, in order.
pub open spec fn hex_words(ws: Seq<u32>) -> Seq<char>
    decreases ws.len(),
{
    if ws.len() == 0 {
        Seq::empty()
    } else {
        hex_words(ws.drop_last()) + hex8(ws.last())
    }
}

fn push_hex8(out: &mut String, v: u32)
    ensures
        final(out)@ == old(out)@ + hex8(v),
{
    let mut k: u32 = 0;
    while k < 8
        invariant
            k <= 8,
            out@ == old(out)@ + hex8(v).take(k as int),
        decreases 8 - k,
    {
        let sh: u32 = 28 - 4 * k;
        let d = (v >> sh) & 0xf;
        assert(d < 16) by (bit_vector)
            requires
                d == (v >> sh) & 0xf,
        ;
        out.append(hex_digit(d));
        assert(hex8(v).take(k + 1) =~= hex8(v).take(k as int) + seq![hex_char(d)]);
        k += 1;
    }
    assert(hex8(v).take(8) =~= hex8(v));
}

/// The SHA-256 digest of `data` as 64 lower-case hex digits.
pub fn sha256_hex(data: &[u8]) -> (s: String)
    requires
        data@.len() * 8 <= u64::MAX,
        data@.len() + 128 <= usize::MAX,
    ensures
        s@ == hex_words(sha256(data@)),
{
    let ghost pm = padded(data@);
    let mut msg: Vec<u8> = Vec::new();
    let mut j: usize = 0;
    while j < data.len()
        invariant
            j <= data@.len(),
            msg@ == data@.take(j as int),
        decreases data@.len() - j,
    {
        msg.push(data[j]);
        assert(data@.take(j + 1) =~= data@.take(j as int).push(data@[j as int]));
        j += 1;
    }
    assert(data@.take(data@.len() as int) =~= data@);
    let bits: u64 = (data.len() as u64) * 8;
    msg.push(0x80);
    while msg.len() % 64 != 56
        invariant
            data@.len() + 128 <= usize::MAX,
            data@.len() + 1 <= msg@.len() <= data@.len() + 64,
            msg@ == data@ + seq![0x80u8] + Seq::new((msg@.len() - data@.len() - 1) as nat, |k: int| 0u8),
            (msg@.len() - data@.len() - 1) <= pad_zeros(data@.len()),
            (msg@.len() - data@.len() - 1) < pad_zeros(data@.len()) ==> msg@.len() % 64 != 56,
        decreases pad_zeros(data@.len()) - (msg@.len() - data@.len() - 1),
    {
        let ghost before = msg@;
        msg.push(0);
        assert(msg@ =~= data@ + seq![0x80u8] + Seq::new((msg@.len() - data@.len() - 1) as nat, |k: int| 0u8));
    }
    let mut k: u32 = 0;
    let ghost zeros_len = (msg@.len() - data@.len() - 1) as nat;
    assert(zeros_len == pad_zeros(data@.len()));
    while k < 8
        invariant
            k <= 8,
            bits == data@.len() * 8,
            msg@ == data@ + seq![0x80u8] + Seq::new(zeros_len, |t: int| 0u8) + be64(bits).take(k as int),
            msg@.len() == data@.len() + 1 + zeros_len + k,
            zeros_len == pad_zeros(data@.len()),
            data@.len() + 128 <= usize::MAX,
        decreases 8 - k,
    {
        let sh: u64 = (56 - 8 * k) as u64;
        let wide = (bits >> sh) & 0xff;
        assert(wide < 256) by (bit_vector)
            requires
                wide == (bits >> sh) & 0xff,
        ;
        let byte = wide as u8;
        msg.push(byte);
        assert(be64(bits).take(k + 1) =~= be64(bits).take(k as int).push(byte));
        k += 1;
    }
    assert(be64(bits).take(8) =~= be64(bits));
    assert(msg@ =~= pm);
    assert(msg@.len() % 64 == 0);
    let mut h: [u32; 8] = [0x6a09e667, 0xbb67ae85, 0x3c6ef372, 0xa54ff53a, 0x510e527f, 0x9b05688c, 0x1f83d9ab, 0x5be0cd19];
    assert(h@ =~= h0());
    let nblocks = msg.len() / 64;
    let mut blk: usize = 0;
    while blk < nblocks
        invariant
            blk <= nblocks,
            nblocks == msg@.len() / 64,
            msg@.len() % 64 == 0,
            msg@ == pm,
            h@ == hash_blocks(pm, blk as nat),
        decreases nblocks - blk,
    {
        let mlen = msg.len();
        assert(blk * 64 + 64 <= msg@.len()) by (nonlinear_arith)
            requires
                blk < nblocks,
                nblocks == msg@.len() / 64,
                msg@.len() % 64 == 0,
        ;
        let base = blk * 64;
        let mut w = [0u32; 64];
        let mut i: usize = 0;
        while i < 16
            invariant
                i <= 16,
                base + 64 <= msg@.len(),
                msg@.len() == mlen,
                forall|t: int| 0 <= t < i ==> #[trigger] w[t] == schedule(msg@, base as int, t),
            decreases 16 - i,
        {
            let o = base + i * 4;
            w[i] = ((msg[o] as u32) << 24) | ((msg[o + 1] as u32) << 16) | ((msg[o + 2] as u32) << 8) | (msg[o + 3] as u32);
            i += 1;
        }
        while i < 64
            invariant
                16 <= i <= 64,
                forall|t: int| 0 <= t < i ==> #[trigger] w[t] == schedule(msg@, base as int, t),
            decreases 64 - i,
        {
            let a15 = w[i - 15];
            let a2 = w[i - 2];
            let s0 = rotate_right(a15, 7) ^ rotate_right(a15, 18) ^ (a15 >> 3);
            let s1 = rotate_right(a2, 17) ^ rotate_right(a2, 19) ^ (a2 >> 10);
            w[i] = w[i - 16].wrapping_add(s0).wrapping_add(w[i - 7]).wrapping_add(s1);
            i += 1;
        }
        let (mut a, mut b, mut c, mut d) = (h[0], h[1], h[2], h[3]);
        let (mut e, mut f, mut g, mut hh) = (h[4], h[5], h[6], h[7]);
        let mut i: usize = 0;
        while i < 64
            invariant
                i <= 64,
                forall|t: int| 0 <= t < 64 ==> #[trigger] w[t] == schedule(msg@, base as int, t),
                seq![a, b, c, d, e, f, g, hh] == rounds(h@, msg@, base as int, i as int),
            decreases 64 - i,
        {
            let s1 = rotate_right(e, 6) ^ rotate_right(e, 11) ^ rotate_right(e, 25);
            let ch = (e & f) ^ (!e & g);
            let t1 = hh.wrapping_add(s1).wrapping_add(ch).wrapping_add(round_constant(i)).wrapping_add(w[i]);
            let s0 = rotate_right(a, 2) ^ rotate_right(a, 13) ^ rotate_right(a, 22);
            let maj = (a & b) ^ (a & c) ^ (b & c);
            let t2 = s0.wrapping_add(maj);
            hh = g;
            g = f;
            f = e;
            e = d.wrapping_add(t1);
            d = c;
            c = b;
            b = a;
            a = t1.wrapping_add(t2);
            i += 1;
            assert(seq![a, b, c, d, e, f, g, hh] =~= rounds(h@, msg@, base as int, i as int));
        }
        let ghost s = seq![a, b, c, d, e, f, g, hh];
        let ghost hprev = h@;
        h[0] = h[0].wrapping_add(a);
        h[1] = h[1].wrapping_add(b);
        h[2] = h[2].wrapping_add(c);
        h[3] = h[3].wrapping_add(d);
        h[4] = h[4].wrapping_add(e);
        h[5] = h[5].wrapping_add(f);
        h[6] = h[6].wrapping_add(g);
        h[7] = h[7].wrapping_add(hh);
        assert(h@ =~= absorb(hprev, msg@, base as int));
        blk += 1;
    }
    let mut out = String::new();
    let mut j: usize = 0;
    while j < 8
        invariant
            j <= 8,
            h@ == sha256(data@),
            out@ == hex_words(h@.take(j as int)),
        decreases 8 - j,
    {
        push_hex8(&mut out, h[j]);
        assert(h@.take(j + 1).drop_last() =~= h@.take(j as int));
        j += 1;
    }
    assert(h@.take(8) =~= h@);
    out
}

} // verus!
