//! The crop marquee, in image pixels: the same grid the mask uses, so a crop
//! cuts the mask and the video frame to identical rectangles. Whoever drags
//! it works in screen space; this module owns the geometry and the pixels.

use crate::units::{clamp, held, least, max, min, most, PX};
use vstd::prelude::*;

verus! {

/// A rectangle of the image.
#[derive(Debug, Clone, Copy, PartialEq, Eq, Structural)]
pub struct Crop {
    pub x: i64,
    pub y: i64,
    pub w: i64,
    pub h: i64,
}

/// Small enough to crop tightly, big enough that the handles stay grabbable
/// and the export is still an image.
pub const MIN_CROP: i64 = 800_000;

/// Bound on a crop's fields and on the points it is dragged to, so that sums
/// of two of them are no overflow.
pub const CROP_LIMIT: i64 = 0x0020_0000_0000_0000;

#[derive(Debug, Clone, Copy, PartialEq, Eq, Structural)]
pub enum Corner {
    Nw,
    Ne,
    Sw,
    Se,
}

/// A side of the image, given in whole pixels.
pub open spec fn side(pixels: u32) -> int {
    pixels * PX
}

impl Corner {
    pub open spec fn point(self, c: Crop) -> (int, int) {
        (
            if self is Nw || self is Sw { c.x as int } else { c.x + c.w },
            if self is Nw || self is Ne { c.y as int } else { c.y + c.h },
        )
    }

    pub open spec fn opposite(self) -> Corner {
        match self {
            Corner::Nw => Corner::Se,
            Corner::Ne => Corner::Sw,
            Corner::Sw => Corner::Ne,
            Corner::Se => Corner::Nw,
        }
    }

    /// This corner's point on `c`: where the handle is drawn and grabbed.
    pub fn of(self, c: Crop) -> (r: (i64, i64))
        requires
            c.bounded(),
        ensures
            (r.0 as int, r.1 as int) == self.point(c),
    {
        let x1: i64 = c.x + c.w;
        let y1: i64 = c.y + c.h;
        match self {
            Corner::Nw => (c.x, c.y),
            Corner::Ne => (x1, c.y),
            Corner::Sw => (c.x, y1),
            Corner::Se => (x1, y1),
        }
    }
}

/// Whole pixels nearest to a length, halves away from zero, no less than `lo`
/// and no more than a `u32` holds.
pub open spec fn whole_pixels(v: int, lo: int) -> int {
    least(most((v + PX / 2) / (PX as int), lo), u32::MAX as int)
}

/// What a drag leaves along one axis of an image `s` long, as start and
/// length: from the anchor `a` to the pointer, and where that is too short,
/// `MIN_CROP` from the anchor on the pointer's side, or on the other where
/// this one has no room. Where neither has, or the anchor lies outside the
/// image, the stretch is pulled inside instead.
pub open spec fn span(a: int, p: int, s: int) -> (int, int) {
    let q = held(p, 0, s);
    let lo = least(a, q);
    let hi = most(a, q);
    let m = MIN_CROP as int;
    if 0 <= a <= s && hi - lo >= m {
        (lo, hi - lo)
    } else if m <= a <= s && (q < a || a + m > s) {
        (a - m, m)
    } else if 0 <= a && a + m <= s {
        (a, m)
    } else {
        (least(lo, most(s - m, 0)), least(most(hi - lo, m), s))
    }
}

/// `span`.
fn span_of(a: i64, p: i64, s: i64) -> (r: (i64, i64))
    requires
        -2 * CROP_LIMIT <= a <= 2 * CROP_LIMIT,
        0 <= s <= CROP_LIMIT,
    ensures
        (r.0 as int, r.1 as int) == span(a as int, p as int, s as int),
{
    let q: i64 = clamp(p, 0, s);
    let lo: i64 = min(a, q);
    let hi: i64 = max(a, q);
    if 0 <= a && a <= s && hi - lo >= MIN_CROP {
        (lo, hi - lo)
    } else if MIN_CROP <= a && a <= s && (q < a || a + MIN_CROP > s) {
        (a - MIN_CROP, MIN_CROP)
    } else if 0 <= a && a + MIN_CROP <= s {
        (a, MIN_CROP)
    } else {
        (min(lo, max(s - MIN_CROP, 0)), min(max(hi - lo, MIN_CROP), s))
    }
}

impl Crop {
    /// Every field is in range.
    pub open spec fn bounded(self) -> bool {
        &&& -CROP_LIMIT <= self.x <= CROP_LIMIT
        &&& -CROP_LIMIT <= self.y <= CROP_LIMIT
        &&& -CROP_LIMIT <= self.w <= CROP_LIMIT
        &&& -CROP_LIMIT <= self.h <= CROP_LIMIT
    }

    /// The rectangle lies inside an image of that size.
    pub open spec fn inside(self, width: u32, height: u32) -> bool {
        &&& 0 <= self.x
        &&& 0 <= self.y
        &&& 0 <= self.w
        &&& 0 <= self.h
        &&& self.x + self.w <= side(width)
        &&& self.y + self.h <= side(height)
    }

    /// The rectangle slid to (x, y), or as near as the image lets it.
    pub open spec fn slid(self, x: int, y: int, width: u32, height: u32) -> (int, int) {
        (
            held(x, 0, most(side(width) - self.w, 0)),
            held(y, 0, most(side(height) - self.h, 0)),
        )
    }

    /// The whole frame: where cropping starts, sitting directly on the video.
    pub fn full(width: u32, height: u32) -> (r: Crop)
        ensures
            r.x == 0,
            r.y == 0,
            r.w == side(width),
            r.h == side(height),
            r.inside(width, height),
            r.bounded(),
    {
        Crop { x: 0, y: 0, w: width as i64 * PX, h: height as i64 * PX }
    }

    /// Slide without resizing, staying inside the image.
    pub fn moved_to(self, x: i64, y: i64, width: u32, height: u32) -> (r: Crop)
        requires
            self.bounded(),
        ensures
            r.x == held(x as int, 0, most(side(width) - self.w, 0)),
            r.y == held(y as int, 0, most(side(height) - self.h, 0)),
            (r.x as int, r.y as int) == self.slid(x as int, y as int, width, height),
            r.w == self.w,
            r.h == self.h,
            self.w >= 0 && self.h >= 0 ==> r.bounded(),
            0 <= self.w <= side(width) && 0 <= self.h <= side(height) ==> r.inside(width, height),
    {
        let w: i64 = width as i64 * PX;
        let h: i64 = height as i64 * PX;
        Crop {
            x: clamp(x, 0, max(w - self.w, 0)),
            y: clamp(y, 0, max(h - self.h, 0)),
            w: self.w,
            h: self.h,
        }
    }

    /// The rectangle after a corner was dragged to (x, y).
    pub open spec fn dragged(self, corner: Corner, x: int, y: int, width: u32, height: u32) -> (
        int,
        int,
        int,
        int,
    ) {
        let (ax, ay) = corner.opposite().point(self);
        let (x0, w) = span(ax, x, side(width));
        let (y0, h) = span(ay, y, side(height));
        (x0, y0, w, h)
    }

    /// Drag one corner to (x, y); the opposite corner is the anchor. The
    /// pointer is clamped to the image first, so the rect can never be
    /// dragged outside it, and `MIN_CROP` stops it collapsing.
    pub fn with_corner(self, corner: Corner, x: i64, y: i64, width: u32, height: u32) -> (r: Crop)
        requires
            self.bounded(),
        ensures
            (r.x as int, r.y as int, r.w as int, r.h as int) == self.dragged(
                corner,
                x as int,
                y as int,
                width,
                height,
            ),
    {
        let opposite = match corner {
            Corner::Nw => Corner::Se,
            Corner::Ne => Corner::Sw,
            Corner::Sw => Corner::Ne,
            Corner::Se => Corner::Nw,
        };
        let (ax, ay) = opposite.of(self);
        let (x0, w) = span_of(ax, x, width as i64 * PX);
        let (y0, h) = span_of(ay, y, height as i64 * PX);
        Crop { x: x0, y: y0, w, h }
    }

    /// A rect from outside pulled inside the image.
    pub fn clamped(self, width: u32, height: u32) -> (r: Crop)
        requires
            self.bounded(),
            side(width) >= MIN_CROP,
            side(height) >= MIN_CROP,
        ensures
            r.w == held(self.w as int, MIN_CROP as int, side(width)),
            r.h == held(self.h as int, MIN_CROP as int, side(height)),
            r.x == held(self.x as int, 0, side(width) - r.w),
            r.y == held(self.y as int, 0, side(height) - r.h),
            r.inside(width, height),
            r.w >= MIN_CROP,
            r.h >= MIN_CROP,
    {
        let sized = Crop {
            x: self.x,
            y: self.y,
            w: clamp(self.w, MIN_CROP, width as i64 * PX),
            h: clamp(self.h, MIN_CROP, height as i64 * PX),
        };
        sized.moved_to(self.x, self.y, width, height)
    }

    pub fn contains(self, x: i64, y: i64) -> (r: bool)
        requires
            self.bounded(),
        ensures
            r == (self.x <= x <= self.x + self.w && self.y <= y <= self.y + self.h),
    {
        x >= self.x && x <= self.x + self.w && y >= self.y && y <= self.y + self.h
    }

    /// Rounded to whole pixels and clipped to the image, for export:
    /// (x, y, w, h), always at least one pixel each way.
    pub fn pixels(self, width: u32, height: u32) -> (r: (u32, u32, u32, u32))
        requires
            self.bounded(),
        ensures
            r.0 == least(whole_pixels(self.x as int, 0), most(width - 1, 0)),
            r.1 == least(whole_pixels(self.y as int, 0), most(height - 1, 0)),
            r.2 == least(whole_pixels(self.w as int, 1), width - r.0),
            r.3 == least(whole_pixels(self.h as int, 1), height - r.1),
            r.0 + r.2 <= width,
            r.1 + r.3 <= height,
            width >= 1 ==> r.2 >= 1,
            height >= 1 ==> r.3 >= 1,
    {
        let x: u32 = least_u32(to_pixels(self.x, 0), width.saturating_sub(1));
        let y: u32 = least_u32(to_pixels(self.y, 0), height.saturating_sub(1));
        let w: u32 = least_u32(to_pixels(self.w, 1), width - x);
        let h: u32 = least_u32(to_pixels(self.h, 1), height - y);
        (x, y, w, h)
    }
}

fn to_pixels(v: i64, lo: u32) -> (r: u32)
    requires
        -CROP_LIMIT <= v <= CROP_LIMIT,
    ensures
        r == whole_pixels(v as int, lo as int),
{
    let up: i64 = v + PX / 2;
    let n: i64 = if up >= 0 {
        up / PX
    } else {
        -1
    };
    if n < lo as i64 {
        lo
    } else if n > u32::MAX as i64 {
        u32::MAX
    } else {
        n as u32
    }
}

fn least_u32(a: u32, b: u32) -> (r: u32)
    ensures
        r == least(a as int, b as int),
{
    if a <= b {
        a
    } else {
        b
    }
}

/// A corner drag leaves a rectangle inside the image, and one that can still
/// be grabbed, whichever corner is dragged and wherever to.
pub proof fn a_dragged_corner_stays_inside(
    crop: Crop,
    corner: Corner,
    x: int,
    y: int,
    width: u32,
    height: u32,
)
    requires
        crop.inside(width, height),
    ensures
        ({
            let (rx, ry, rw, rh) = crop.dragged(corner, x, y, width, height);
            &&& 0 <= rx && rx + rw <= side(width)
            &&& 0 <= ry && ry + rh <= side(height)
            &&& rw >= least(MIN_CROP as int, side(width))
            &&& rh >= least(MIN_CROP as int, side(height))
        }),
{
}

/// The corner opposite the dragged one does not move, wherever the pointer
/// goes: along each axis one end of the rectangle is where it was, as long as
/// the image has room for the smallest rectangle on either side of it. The
/// other end is the pointer's, where that is far enough.
pub proof fn a_corner_drag_keeps_its_anchor(
    crop: Crop,
    corner: Corner,
    x: int,
    y: int,
    width: u32,
    height: u32,
)
    requires
        crop.inside(width, height),
    ensures
        ({
            let (ax, ay) = corner.opposite().point(crop);
            let (rx, ry, rw, rh) = crop.dragged(corner, x, y, width, height);
            let px = held(x, 0, side(width));
            let py = held(y, 0, side(height));
            &&& ax >= MIN_CROP || ax + MIN_CROP <= side(width) ==> rx == ax || rx + rw == ax
            &&& ay >= MIN_CROP || ay + MIN_CROP <= side(height) ==> ry == ay || ry + rh == ay
            &&& px - ax >= MIN_CROP || ax - px >= MIN_CROP ==> rx == least(ax, px) && rx + rw
                == most(ax, px)
            &&& py - ay >= MIN_CROP || ay - py >= MIN_CROP ==> ry == least(ay, py) && ry + rh
                == most(ay, py)
        }),
{
}

/// A corner goes where it is dragged, and the one across from it stays: each
/// corner moves its own two sides. (The pointer is in the image and eight pixels
/// or more from the sides that stay, on their inner side.)
pub proof fn a_corner_goes_where_it_is_dragged(c: Crop, x: int, y: int, width: u32, height: u32)
    requires
        c.inside(width, height),
        0 <= x <= 100_000 * width,
        0 <= y <= 100_000 * height,
    ensures
        ({
            let (r, b) = (c.x + c.w, c.y + c.h);
            &&& x >= c.x + 800_000 && y >= c.y + 800_000 ==> c.dragged(
                Corner::Se,
                x,
                y,
                width,
                height,
            ) == (c.x as int, c.y as int, x - c.x, y - c.y)
            &&& x <= r - 800_000 && y <= b - 800_000 ==> c.dragged(
                Corner::Nw,
                x,
                y,
                width,
                height,
            ) == (x, y, r - x, b - y)
            &&& x >= c.x + 800_000 && y <= b - 800_000 ==> c.dragged(
                Corner::Ne,
                x,
                y,
                width,
                height,
            ) == (c.x as int, y, x - c.x, b - y)
            &&& x <= r - 800_000 && y >= c.y + 800_000 ==> c.dragged(
                Corner::Sw,
                x,
                y,
                width,
                height,
            ) == (x, c.y as int, r - x, y - c.y)
        }),
{
}

/// A corner's handle is at that corner.
pub proof fn handles_are_at_the_corners(c: Crop)
    ensures
        Corner::Nw.point(c) == (c.x as int, c.y as int),
        Corner::Ne.point(c) == (c.x + c.w, c.y as int),
        Corner::Sw.point(c) == (c.x as int, c.y + c.h),
        Corner::Se.point(c) == (c.x + c.w, c.y + c.h),
{
}

/// Lengths go to the nearest whole pixel, and to no less than the least that is
/// asked for.
pub proof fn lengths_go_to_the_nearest_pixel(v: int, lo: int)
    requires
        0 <= v <= 100_000 * u32::MAX,
        0 <= lo <= 1,
    ensures
        ({
            let n = whole_pixels(v, lo);
            &&& n >= lo
            &&& v >= 100_000 * lo ==> -50_000 <= 100_000 * n - v <= 50_000
            &&& v < 50_000 ==> n == lo
        }),
{
}

/// The bytes of column `i`, row `j` of a rectangle whose corner is `(x, y)`,
/// in an image of rows of `width` pixels, `channels` bytes each.
pub open spec fn byte_at(width: int, channels: int, x: int, y: int, i: int, j: int, k: int) -> int {
    ((y + j) * width + x + i) * channels + k
}

/// `r` is the sub-rectangle `(x, y, w, h)` of `pixels`: pixel (i, j) of the
/// result is pixel (x + i, y + j) of the image, channel by channel.
pub open spec fn is_cut(
    r: Seq<u8>,
    pixels: Seq<u8>,
    width: int,
    channels: int,
    rect: (int, int, int, int),
) -> bool {
    let (x, y, w, h) = rect;
    &&& r.len() == w * h * channels
    &&& forall|i: int, j: int, k: int|
        0 <= i < w && 0 <= j < h && 0 <= k < channels ==> r[#[trigger] byte_at(
            w,
            channels,
            0,
            0,
            i,
            j,
            k,
        )] == pixels[byte_at(width, channels, x, y, i, j, k)]
}

/// The place in `pixels` of byte `q` of the cut.
spec fn source_of(q: int, row: int, left: int, y: int, wide: int) -> int {
    (y + q / wide) * row + left + q % wide
}

proof fn lemma_cut(
    r: Seq<u8>,
    pixels: Seq<u8>,
    width: int,
    channels: int,
    rect: (int, int, int, int),
)
    requires
        width >= 0,
        channels >= 0,
        rect.0 >= 0,
        rect.1 >= 0,
        rect.2 >= 0,
        rect.3 >= 0,
        r.len() == rect.3 * (rect.2 * channels),
        forall|q: int|
            0 <= q < r.len() ==> #[trigger] r[q] == pixels[source_of(
                q,
                width * channels,
                rect.0 * channels,
                rect.1,
                rect.2 * channels,
            )],
    ensures
        is_cut(r, pixels, width, channels, rect),
{
    let (x, y, w, h) = rect;
    let wide = w * channels;
    assert(h * wide == w * h * channels) by (nonlinear_arith)
        requires
            wide == w * channels,
    ;
    assert forall|i: int, j: int, k: int|
        0 <= i < w && 0 <= j < h && 0 <= k < channels implies r[#[trigger] byte_at(
        w,
        channels,
        0,
        0,
        i,
        j,
        k,
    )] == pixels[byte_at(width, channels, x, y, i, j, k)] by {
        let q = byte_at(w, channels, 0, 0, i, j, k);
        let in_row = i * channels + k;
        assert(q == j * wide + in_row) by (nonlinear_arith)
            requires
                q == ((0 + j) * w + 0 + i) * channels + k,
                wide == w * channels,
                in_row == i * channels + k,
        ;
        assert(0 <= in_row < wide) by (nonlinear_arith)
            requires
                0 <= i < w,
                0 <= k < channels,
                wide == w * channels,
                in_row == i * channels + k,
        ;
        assert(0 <= q < h * wide) by (nonlinear_arith)
            requires
                q == j * wide + in_row,
                0 <= in_row < wide,
                0 <= j < h,
        ;
        vstd::arithmetic::div_mod::lemma_fundamental_div_mod_converse(q, wide, j, in_row);
        let from = byte_at(width, channels, x, y, i, j, k);
        assert(from == (y + j) * (width * channels) + x * channels + in_row) by (nonlinear_arith)
            requires
                from == ((y + j) * width + x + i) * channels + k,
                in_row == i * channels + k,
        ;
        assert(r[q] == pixels[source_of(q, width * channels, x * channels, y, wide)]);
    }
}

/// Copy a sub-rectangle out of a tightly packed image (`channels` bytes per
/// pixel, `width * channels` per row): the mask at 1, an RGBA frame at 4.
pub fn crop_pixels(pixels: &[u8], width: u32, channels: usize, rect: (u32, u32, u32, u32)) -> (r:
    Vec<u8>)
    requires
        rect.1 + rect.3 <= u32::MAX,
        width * channels <= usize::MAX,
        rect.3 > 0 ==> (rect.1 + rect.3 - 1) * (width * channels) + (rect.0 + rect.2) * channels
            <= pixels@.len(),
        (rect.0 + rect.2) * channels <= usize::MAX,
    ensures
        is_cut(
            r@,
            pixels@,
            width as int,
            channels as int,
            (rect.0 as int, rect.1 as int, rect.2 as int, rect.3 as int),
        ),
{
    let ghost (gx, gy, gw, gh, gc) = (
        rect.0 as int,
        rect.1 as int,
        rect.2 as int,
        rect.3 as int,
        channels as int,
    );
    assert(gx * gc <= (gx + gw) * gc && gw * gc <= (gx + gw) * gc && (gx + gw) * gc == gx * gc + gw
        * gc) by (nonlinear_arith)
        requires
            gx >= 0,
            gw >= 0,
            gc >= 0,
    ;
    let row: usize = width as usize * channels;
    let left: usize = rect.0 as usize * channels;
    let wide: usize = rect.2 as usize * channels;
    let total: usize = pixels.len();
    let mut out: Vec<u8> = Vec::new();
    let mut j: u32 = 0;
    assert(0 * (gw * gc) == 0);
    while j < rect.3
        invariant
            j <= rect.3,
            total == pixels@.len(),
            rect.1 + rect.3 <= u32::MAX,
            row == width * channels,
            left == rect.0 * channels,
            wide == rect.2 * channels,
            rect.3 > 0 ==> (rect.1 + rect.3 - 1) * row + left + wide <= pixels@.len(),
            out@.len() == j * wide,
            forall|q: int|
                0 <= q < out@.len() ==> #[trigger] out@[q] == pixels@[source_of(
                    q,
                    row as int,
                    left as int,
                    rect.1 as int,
                    wide as int,
                )],
        decreases rect.3 - j,
    {
        let ghost top = rect.1 + j;
        assert(top * row <= (rect.1 + rect.3 - 1) * row) by (nonlinear_arith)
            requires
                top == rect.1 + j,
                j < rect.3,
                row >= 0,
        ;
        let start: usize = (rect.1 + j) as usize * row + left;
        let mut c: usize = 0;
        while c < wide
            invariant
                c <= wide,
                j < rect.3,
                total == pixels@.len(),
                top == rect.1 + j,
                start == top * row + left,
                start + wide <= pixels@.len(),
                out@.len() == j * wide + c,
                forall|q: int|
                    0 <= q < out@.len() ==> #[trigger] out@[q] == pixels@[source_of(
                        q,
                        row as int,
                        left as int,
                        rect.1 as int,
                        wide as int,
                    )],
            decreases wide - c,
        {
            let ghost q = j * wide + c;
            proof {
                vstd::arithmetic::div_mod::lemma_fundamental_div_mod_converse(
                    q,
                    wide as int,
                    j as int,
                    c as int,
                );
            }
            out.push(pixels[start + c]);
            c = c + 1;
        }
        assert((j + 1) * wide == j * wide + wide) by (nonlinear_arith);
        j = j + 1;
    }
    proof {
        lemma_cut(out@, pixels@, width as int, gc, (gx, gy, gw, gh));
    }
    out
}

/// A crop cuts a mask and the frame it belongs to alike: where every pixel of
/// the frame carries in channel `k` the mask's value at the same place, the
/// two cuts are related in the same way.
pub proof fn a_crop_cuts_both_planes_alike(
    gray: Seq<u8>,
    rgba: Seq<u8>,
    cut_gray: Seq<u8>,
    cut_rgba: Seq<u8>,
    width: int,
    rect: (int, int, int, int),
    i: int,
    j: int,
    k: int,
)
    requires
        is_cut(cut_gray, gray, width, 1, rect),
        is_cut(cut_rgba, rgba, width, 4, rect),
        0 <= i < rect.2,
        0 <= j < rect.3,
        0 <= k < 4,
        rgba[byte_at(width, 4, rect.0, rect.1, i, j, k)] == gray[byte_at(
            width,
            1,
            rect.0,
            rect.1,
            i,
            j,
            0,
        )],
    ensures
        cut_rgba[byte_at(rect.2, 4, 0, 0, i, j, k)] == cut_gray[byte_at(rect.2, 1, 0, 0, i, j, 0)],
{
}

/// A rectangle slides where it is sent, without a change of size, and stops at
/// the image's edges.
pub proof fn a_slide_stops_at_the_edges(c: Crop, x: int, y: int, width: u32, height: u32)
    requires
        c.inside(width, height),
    ensures
        ({
            let (rx, ry) = c.slid(x, y, width, height);
            let (w, h) = (100_000 * width, 100_000 * height);
            &&& 0 <= rx && rx + c.w <= w && 0 <= ry && ry + c.h <= h
            &&& 0 <= x && x + c.w <= w ==> rx == x
            &&& 0 <= y && y + c.h <= h ==> ry == y
            &&& x < 0 ==> rx == 0
            &&& y < 0 ==> ry == 0
            &&& x + c.w > w ==> rx == w - c.w
            &&& y + c.h > h ==> ry == h - c.h
        }),
{
}

} // verus!
