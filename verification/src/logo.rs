//! The wordmark: read from its file and trimmed to what can be seen of it, so
//! that nothing else has to guess its proportions.

use crate::items::Uv;
use crate::pngfile::{decode, png_read, PngColor, PngImage, PngState};
use crate::units::{div_round, ratio_of, round_div_sign, ONE};
use vstd::prelude::*;

verus! {

/// A rectangle of whole pixels, its far edges excluded.
#[derive(Debug, Clone, Copy, PartialEq, Eq, Structural)]
pub struct Bounds {
    pub x0: u32,
    pub y0: u32,
    pub x1: u32,
    pub y1: u32,
}

/// Whether anything can be seen of pixel `(x, y)`: its opacity is not 0.
pub open spec fn inked(pixels: Seq<u8>, w: int, x: int, y: int) -> bool {
    pixels[4 * (y * w + x) + 3] != 0
}

/// Whether anything can be seen in column `x`.
pub open spec fn column_inked(pixels: Seq<u8>, w: int, h: int, x: int) -> bool {
    exists|y: int| 0 <= y < h && #[trigger] inked(pixels, w, x, y)
}

/// Whether anything can be seen in row `y`.
pub open spec fn row_inked(pixels: Seq<u8>, w: int, h: int, y: int) -> bool {
    exists|x: int| 0 <= x < w && #[trigger] inked(pixels, w, x, y)
}

impl Bounds {
    pub open spec fn holds(self, x: int, y: int) -> bool {
        self.x0 <= x < self.x1 && self.y0 <= y < self.y1
    }

    /// Whether this is the smallest rectangle around everything inked.
    pub open spec fn wraps(self, pixels: Seq<u8>, w: int, h: int) -> bool {
        &&& self.x0 < self.x1 <= w && self.y0 < self.y1 <= h
        &&& forall|x: int, y: int|
            0 <= x < w && 0 <= y < h && #[trigger] inked(pixels, w, x, y) ==> self.holds(x, y)
        &&& column_inked(pixels, w, h, self.x0 as int)
        &&& column_inked(pixels, w, h, self.x1 - 1)
        &&& row_inked(pixels, w, h, self.y0 as int)
        &&& row_inked(pixels, w, h, self.y1 - 1)
    }
}

/// Whether nothing at all can be seen.
pub open spec fn is_blank(pixels: Seq<u8>, w: int, h: int) -> bool {
    forall|x: int, y: int| 0 <= x < w && 0 <= y < h ==> !#[trigger] inked(pixels, w, x, y)
}

/// Pixel `(x, y)` comes before pixel `(cx, cy)`, row after row.
spec fn before(x: int, y: int, cx: int, cy: int) -> bool {
    y < cy || (y == cy && x < cx)
}

/// What is known of the pixels before `(cx, cy)`.
spec fn wraps_so_far(
    b: Option<Bounds>,
    pixels: Seq<u8>,
    w: int,
    h: int,
    cx: int,
    cy: int,
) -> bool {
    match b {
        None => forall|x: int, y: int|
            0 <= x < w && 0 <= y < h && before(x, y, cx, cy) ==> !#[trigger] inked(
                pixels,
                w,
                x,
                y,
            ),
        Some(b) => {
            &&& b.x0 < b.x1 <= w && b.y0 < b.y1 <= h
            &&& forall|x: int, y: int|
                0 <= x < w && 0 <= y < h && before(x, y, cx, cy) && #[trigger] inked(
                    pixels,
                    w,
                    x,
                    y,
                ) ==> b.holds(x, y)
            &&& column_inked(pixels, w, h, b.x0 as int)
            &&& column_inked(pixels, w, h, b.x1 - 1)
            &&& row_inked(pixels, w, h, b.y0 as int)
            &&& row_inked(pixels, w, h, b.y1 - 1)
        },
    }
}

/// The rectangle stretched to hold pixel `(x, y)` too.
fn stretched(b: Option<Bounds>, x: u32, y: u32) -> (r: Bounds)
    requires
        x < u32::MAX,
        y < u32::MAX,
    ensures
        match b {
            None => r == (Bounds { x0: x, y0: y, x1: (x + 1) as u32, y1: (y + 1) as u32 }),
            Some(b) => r == (Bounds {
                x0: if x < b.x0 { x } else { b.x0 },
                y0: if y < b.y0 { y } else { b.y0 },
                x1: if x >= b.x1 { (x + 1) as u32 } else { b.x1 },
                y1: if y >= b.y1 { (y + 1) as u32 } else { b.y1 },
            }),
        },
{
    match b {
        None => Bounds { x0: x, y0: y, x1: x + 1, y1: y + 1 },
        Some(b) => Bounds {
            x0: if x < b.x0 {
                x
            } else {
                b.x0
            },
            y0: if y < b.y0 {
                y
            } else {
                b.y0
            },
            x1: if x >= b.x1 {
                x + 1
            } else {
                b.x1
            },
            y1: if y >= b.y1 {
                y + 1
            } else {
                b.y1
            },
        },
    }
}

proof fn lemma_pixel(w: int, h: int, x: int, y: int)
    requires
        0 <= x < w <= u32::MAX,
        0 <= y < h <= u32::MAX,
    ensures
        0 <= y * w,
        y * w + x < w * h,
        4 * (y * w + x) + 3 < 4 * (w * h),
        w * h <= 0xffff_ffff_ffff_ffff,
{
    assert(0 <= y * w && y * w + w <= w * h && w * h <= 0xffff_ffff_ffff_ffff) by (nonlinear_arith)
        requires
            0 <= w <= 0xffff_ffff,
            0 <= y < h <= 0xffff_ffff,
    ;
}

/// The smallest rectangle around everything inked; nothing where all is
/// clear.
pub fn alpha_bounds(pixels: &[u8], w: u32, h: u32) -> (r: Option<Bounds>)
    requires
        1 <= w,
        1 <= h,
        pixels@.len() == 4 * (w * h),
    ensures
        match r {
            Some(b) => b.wraps(pixels@, w as int, h as int),
            None => is_blank(pixels@, w as int, h as int),
        },
{
    let room: usize = pixels.len();
    let mut b: Option<Bounds> = None;
    let mut y: u32 = 0;
    while y < h
        invariant
            y <= h,
            1 <= w,
            1 <= h,
            room == pixels@.len(),
            pixels@.len() == 4 * (w * h),
            wraps_so_far(b, pixels@, w as int, h as int, 0, y as int),
        decreases h - y,
    {
        let mut x: u32 = 0;
        while x < w
            invariant
                x <= w,
                y < h,
                1 <= w,
                1 <= h,
                room == pixels@.len(),
                pixels@.len() == 4 * (w * h),
                wraps_so_far(b, pixels@, w as int, h as int, x as int, y as int),
            decreases w - x,
        {
            proof {
                lemma_pixel(w as int, h as int, x as int, y as int);
            }
            let at: usize = 4 * (y as usize * w as usize + x as usize) + 3;
            let ghost prev = b;
            if pixels[at] != 0 {
                b = Some(stretched(b, x, y));
                assert(inked(pixels@, w as int, x as int, y as int));
                proof {
                    lemma_stretched(prev, b->0, pixels@, w as int, h as int, x as int, y as int);
                }
            } else {
                assert(!inked(pixels@, w as int, x as int, y as int));
                proof {
                    lemma_passed(b, pixels@, w as int, h as int, x as int, y as int);
                }
            }
            x = x + 1;
        }
        proof {
            lemma_next_row(b, pixels@, w as int, h as int, y as int);
        }
        y = y + 1;
    }
    proof {
        lemma_all_rows(b, pixels@, w as int, h as int);
    }
    b
}

proof fn lemma_stretched(
    prev: Option<Bounds>,
    b: Bounds,
    pixels: Seq<u8>,
    w: int,
    h: int,
    cx: int,
    cy: int,
)
    requires
        0 <= cx < w <= u32::MAX,
        0 <= cy < h <= u32::MAX,
        inked(pixels, w, cx, cy),
        wraps_so_far(prev, pixels, w, h, cx, cy),
        match prev {
            None => b == (Bounds {
                x0: cx as u32,
                y0: cy as u32,
                x1: (cx + 1) as u32,
                y1: (cy + 1) as u32,
            }),
            Some(p) => b == (Bounds {
                x0: if cx < p.x0 { cx as u32 } else { p.x0 },
                y0: if cy < p.y0 { cy as u32 } else { p.y0 },
                x1: if cx >= p.x1 { (cx + 1) as u32 } else { p.x1 },
                y1: if cy >= p.y1 { (cy + 1) as u32 } else { p.y1 },
            }),
        },
    ensures
        wraps_so_far(Some(b), pixels, w, h, cx + 1, cy),
{
    assert forall|x: int, y: int|
        0 <= x < w && 0 <= y < h && before(x, y, cx + 1, cy) && #[trigger] inked(
            pixels,
            w,
            x,
            y,
        ) implies b.holds(x, y) by {
        if !before(x, y, cx, cy) {
            assert(x == cx && y == cy);
        }
    }
    assert(column_inked(pixels, w, h, cx));
    assert(row_inked(pixels, w, h, cy));
}

proof fn lemma_passed(b: Option<Bounds>, pixels: Seq<u8>, w: int, h: int, cx: int, cy: int)
    requires
        !inked(pixels, w, cx, cy),
        wraps_so_far(b, pixels, w, h, cx, cy),
    ensures
        wraps_so_far(b, pixels, w, h, cx + 1, cy),
{
    assert forall|x: int, y: int|
        0 <= x < w && 0 <= y < h && before(x, y, cx + 1, cy) && #[trigger] inked(
            pixels,
            w,
            x,
            y,
        ) implies before(x, y, cx, cy) by {}
}

proof fn lemma_next_row(b: Option<Bounds>, pixels: Seq<u8>, w: int, h: int, cy: int)
    requires
        wraps_so_far(b, pixels, w, h, w, cy),
    ensures
        wraps_so_far(b, pixels, w, h, 0, cy + 1),
{
    assert forall|x: int, y: int|
        0 <= x < w && 0 <= y < h && before(x, y, 0, cy + 1) && #[trigger] inked(
            pixels,
            w,
            x,
            y,
        ) implies before(x, y, w, cy) by {}
}

proof fn lemma_all_rows(b: Option<Bounds>, pixels: Seq<u8>, w: int, h: int)
    requires
        wraps_so_far(b, pixels, w, h, 0, h),
    ensures
        match b {
            Some(b) => b.wraps(pixels, w, h),
            None => is_blank(pixels, w, h),
        },
{
    assert forall|x: int, y: int| 0 <= x < w && 0 <= y < h implies before(x, y, 0, h) || !#[trigger] inked(
        pixels,
        w,
        x,
        y,
    ) by {}
}

/// The wordmark as it is drawn.
#[derive(Debug, Clone, Copy, PartialEq, Eq, Structural)]
pub struct Logo {
    /// Width over height of what is shown.
    pub aspect: i64,
    /// The part of the picture that is shown.
    pub uv: Uv,
}

/// The part of a picture within bounds.
pub open spec fn part(b: Bounds, w: int, h: int) -> Logo {
    Logo {
        aspect: ratio_of(b.x1 - b.x0, b.y1 - b.y0) as i64,
        uv: Uv {
            u0: ratio_of(b.x0 as int, w) as i64,
            v0: ratio_of(b.y0 as int, h) as i64,
            u1: ratio_of(b.x1 as int, w) as i64,
            v1: ratio_of(b.y1 as int, h) as i64,
        },
    }
}

/// Whether a picture can serve as the wordmark: 8-bit colour with opacity.
pub open spec fn is_mark(image: PngState) -> bool {
    &&& image.color == PngColor::Rgba
    &&& image.depth == 8
    &&& 1 <= image.width
    &&& 1 <= image.height
    &&& image.pixels.len() == 4 * (image.width * image.height)
}

/// Whether `logo` shows just what can be seen of a picture; one with nothing
/// to see is shown whole.
pub open spec fn shows(logo: Logo, image: PngState) -> bool {
    let (w, h) = (image.width as int, image.height as int);
    if is_blank(image.pixels, w, h) {
        logo == part(Bounds { x0: 0, y0: 0, x1: image.width, y1: image.height }, w, h)
    } else {
        exists|b: Bounds| #[trigger] b.wraps(image.pixels, w, h) && logo == part(b, w, h)
    }
}

fn share_of(a: u32, b: u32) -> (r: i64)
    requires
        b > 0,
    ensures
        r == ratio_of(a as int, b as int),
{
    proof {
        round_div_sign(a * ONE, b as int);
    }
    div_round(a as i128 * ONE as i128, b as i128) as i64
}

fn part_of(b: Bounds, w: u32, h: u32) -> (r: Logo)
    requires
        b.x0 < b.x1 <= w,
        b.y0 < b.y1 <= h,
    ensures
        r == part(b, w as int, h as int),
{
    Logo {
        aspect: share_of(b.x1 - b.x0, b.y1 - b.y0),
        uv: Uv {
            u0: share_of(b.x0, w),
            v0: share_of(b.y0, h),
            u1: share_of(b.x1, w),
            v1: share_of(b.y1, h),
        },
    }
}

/// Trims the wordmark to what can be seen of it; a picture with nothing to
/// see is kept whole, and one that is no wordmark yields nothing.
pub fn trim(image: &PngImage) -> (r: Option<Logo>)
    ensures
        match r {
            Some(logo) => is_mark(image@) && shows(logo, image@),
            None => !is_mark(image@),
        },
{
    let (w, h) = (image.width, image.height);
    if !(image.color == PngColor::Rgba) || image.depth != 8 || w < 1 || h < 1 {
        return None;
    }
    proof {
        lemma_pixel(w as int, h as int, 0, 0);
    }
    if image.pixels.len() as u128 != 4 * (w as u128 * h as u128) {
        return None;
    }
    match alpha_bounds(image.pixels.as_slice(), w, h) {
        Some(b) => {
            proof {
                let y = choose|y: int|
                    0 <= y < h && #[trigger] inked(image.pixels@, w as int, b.x0 as int, y);
                assert(inked(image.pixels@, w as int, b.x0 as int, y));
            }
            Some(part_of(b, w, h))
        },
        None => Some(part_of(Bounds { x0: 0, y0: 0, x1: w, y1: h }, w, h)),
    }
}

/// There is only one smallest rectangle.
pub proof fn the_trim_is_unique(a: Bounds, b: Bounds, pixels: Seq<u8>, w: int, h: int)
    requires
        a.wraps(pixels, w, h),
        b.wraps(pixels, w, h),
    ensures
        a == b,
{
    let y = choose|y: int| 0 <= y < h && #[trigger] inked(pixels, w, a.x0 as int, y);
    let y2 = choose|y: int| 0 <= y < h && #[trigger] inked(pixels, w, b.x0 as int, y);
    assert(b.holds(a.x0 as int, y));
    assert(a.holds(b.x0 as int, y2));
    let y = choose|y: int| 0 <= y < h && #[trigger] inked(pixels, w, a.x1 - 1, y);
    let y2 = choose|y: int| 0 <= y < h && #[trigger] inked(pixels, w, b.x1 - 1, y);
    assert(b.holds(a.x1 - 1, y));
    assert(a.holds(b.x1 - 1, y2));
    let x = choose|x: int| 0 <= x < w && #[trigger] inked(pixels, w, x, a.y0 as int);
    let x2 = choose|x: int| 0 <= x < w && #[trigger] inked(pixels, w, x, b.y0 as int);
    assert(b.holds(x, a.y0 as int));
    assert(a.holds(x2, b.y0 as int));
    let x = choose|x: int| 0 <= x < w && #[trigger] inked(pixels, w, x, a.y1 - 1);
    let x2 = choose|x: int| 0 <= x < w && #[trigger] inked(pixels, w, x, b.y1 - 1);
    assert(b.holds(x, a.y1 - 1));
    assert(a.holds(x2, b.y1 - 1));
}

/// Reads and trims the wordmark.
pub fn decode_logo(file: &[u8]) -> (r: Option<(PngImage, Logo)>)
    ensures
        match r {
            Some(found) => {
                &&& png_read(file@) == Some(found.0@)
                &&& is_mark(found.0@)
                &&& shows(found.1, found.0@)
            },
            None => png_read(file@) matches Some(p) ==> !is_mark(p) || p.pixels.len() > isize::MAX,
        },
{
    match decode(file) {
        Some(image) => match trim(&image) {
            Some(logo) => Some((image, logo)),
            None => None,
        },
        None => None,
    }
}

} // verus!
