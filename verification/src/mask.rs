//! Native-resolution binary masks. Screen coordinates belong to the
//! application state; this module only paints image pixels.

use crate::capsule::{in_capsule, swept, swept_in_box};
use crate::units::{least, max, min, most, PX};
use vstd::prelude::*;

verus! {

/// The middle of the `k`th pixel along an axis.
pub open spec fn pixel_middle(k: int) -> int {
    k * PX + PX / 2
}

/// Whether pixel `k` along an axis lies within `radius` of where the stroke
/// runs from `a` to `b`.
pub open spec fn reaches(a: int, b: int, radius: int, k: int) -> bool {
    least(a, b) - radius < (k + 1) * PX && k * PX < most(a, b) + radius
}

/// Whether the stroke covers pixel `i` of an image `width` pixels wide: it
/// reaches the pixel along either axis, and its circle sweeps the pixel's
/// middle.
pub open spec fn stroke_covers(
    from: (int, int),
    to: (int, int),
    radius: int,
    width: int,
    i: int,
) -> bool {
    let (x, y) = (i % width, i / width);
    &&& reaches(from.0, to.0, radius, x)
    &&& reaches(from.1, to.1, radius, y)
    &&& swept(from, to, radius, pixel_middle(x), pixel_middle(y))
}

/// A stroke covers just the pixels whose middles its circle sweeps.
pub proof fn a_stroke_covers_what_its_circle_sweeps(
    from: (int, int),
    to: (int, int),
    radius: int,
    width: int,
    i: int,
)
    requires
        radius >= 0,
    ensures
        stroke_covers(from, to, radius, width, i) == swept(
            from,
            to,
            radius,
            pixel_middle(i % width),
            pixel_middle(i / width),
        ),
{
    let (x, y) = (pixel_middle(i % width), pixel_middle(i / width));
    if swept(from, to, radius, x, y) {
        swept_in_box(from, to, radius, x, y);
    }
}

/// What a stroke leaves behind: covered pixels white, the others as they were.
pub open spec fn stroked(
    pixels: Seq<u8>,
    width: int,
    from: (int, int),
    to: (int, int),
    radius: int,
) -> Seq<u8> {
    Seq::new(
        pixels.len(),
        |i: int| if stroke_covers(from, to, radius, width, i) { 255u8 } else { pixels[i] },
    )
}


/// The id after `id`; the last is given again.
pub open spec fn id_after(id: u64) -> u64 {
    if id < u64::MAX { (id + 1) as u64 } else { id }
}

/// The id that a counter gives after it has given `k` others.
pub open spec fn nth_id(next: u64, k: nat) -> u64
    decreases k,
{
    if k == 0 {
        next
    } else {
        nth_id(id_after(next), (k - 1) as nat)
    }
}

proof fn lemma_nth_id(next: u64, k: nat)
    ensures
        nth_id(next, k) == least(next + k, u64::MAX as int),
    decreases k,
{
    if k > 0 {
        lemma_nth_id(id_after(next), (k - 1) as nat);
    }
}

/// No two masks made with one counter share an id, until the numbers run out.
pub proof fn every_mask_has_an_id_of_its_own(next: u64, i: nat, j: nat)
    requires
        i < j,
        next + j <= u64::MAX,
    ensures
        nth_id(next, i) != nth_id(next, j),
{
    lemma_nth_id(next, i);
    lemma_nth_id(next, j);
}

/// Where masks get their ids from.
pub struct MaskIds {
    pub next: u64,
}

impl MaskIds {
    pub fn new() -> (r: MaskIds)
        ensures
            r.next == 1,
    {
        MaskIds { next: 1 }
    }

    /// An id that has not been given before, until the numbers run out.
    pub fn give(&mut self) -> (r: u64)
        ensures
            r == old(self).next,
            final(self).next == id_after(old(self).next),
    {
        let id: u64 = self.next;
        if id < u64::MAX {
            self.next = id + 1;
        }
        id
    }
}

/// One clip's mask: 255 where painted, 0 elsewhere.
pub struct Mask {
    pub id: u64,
    /// Counts the strokes that changed something.
    pub revision: u64,
    pub width: u32,
    pub height: u32,
    /// Row after row, `width` pixels each.
    pub pixels: Vec<u8>,
}

/// A mask's content.
pub struct MaskState {
    pub id: u64,
    pub revision: u64,
    pub width: u32,
    pub height: u32,
    pub pixels: Seq<u8>,
}

impl View for Mask {
    type V = MaskState;

    open spec fn view(&self) -> MaskState {
        MaskState {
            id: self.id,
            revision: self.revision,
            width: self.width,
            height: self.height,
            pixels: self.pixels@,
        }
    }
}

impl MaskState {
    /// A pixel for every place, each black or white.
    pub open spec fn wf(self) -> bool {
        &&& self.pixels.len() == self.width * self.height
        &&& forall|i: int|
            0 <= i < self.pixels.len() ==> #[trigger] self.pixels[i] == 0u8 || self.pixels[i]
                == 255u8
    }

    /// A black mask.
    pub open spec fn blank(id: u64, width: u32, height: u32) -> MaskState {
        MaskState {
            id,
            revision: 0,
            width,
            height,
            pixels: Seq::new((width * height) as nat, |i: int| 0u8),
        }
    }

    /// The mask after a stroke: a swept circle (capsule), so sparse pointer
    /// events cannot leave gaps. The revision tells whether it changed.
    pub open spec fn painted(self, from: (int, int), to: (int, int), radius: int) -> MaskState {
        let pixels = stroked(self.pixels, self.width as int, from, to, radius);
        MaskState {
            pixels,
            revision: if pixels == self.pixels {
                self.revision
            } else {
                vstd::wrapping::u64_specs::wrapping_add(self.revision, 1)
            },
            ..self
        }
    }
}

impl Mask {
    /// A black mask, of no more pixels than a machine can address, with an
    /// id of its own.
    pub fn new(ids: &mut MaskIds, width: u32, height: u32) -> (r: Mask)
        requires
            width * height <= isize::MAX,
        ensures
            r@ == MaskState::blank(old(ids).next, width, height),
            final(ids).next == id_after(old(ids).next),
            r@.wf(),
    {
        assert(0 <= width * height) by (nonlinear_arith);
        let pixels: Vec<u8> = vec![0; width as usize * height as usize];
        let id: u64 = ids.give();
        assert(pixels@ =~= MaskState::blank(id, width, height).pixels);
        Mask { id, revision: 0, width, height, pixels }
    }

    /// Paints a swept circle.
    pub fn paint(&mut self, from: (i64, i64), to: (i64, i64), radius: i64)
        requires
            old(self)@.wf(),
        ensures
            final(self)@ == old(self)@.painted(
                (from.0 as int, from.1 as int),
                (to.0 as int, to.1 as int),
                radius as int,
            ),
            final(self)@.wf(),
    {
        let ghost f = (from.0 as int, from.1 as int);
        let ghost g = (to.0 as int, to.1 as int);
        let ghost r = radius as int;
        let ghost before = self.pixels@;
        let ghost target = stroked(before, self.width as int, f, g, r);
        let w: usize = self.width as usize;
        let size: usize = self.pixels.len();
        let x0: i64 = first_pixel(min(from.0, to.0) as i128 - radius as i128);
        let y0: i64 = first_pixel(min(from.1, to.1) as i128 - radius as i128);
        let x1: i64 = min(end_pixel(max(from.0, to.0) as i128 + radius as i128), self.width as i64);
        let y1: i64 = min(end_pixel(max(from.1, to.1) as i128 + radius as i128), self.height as i64);
        let mut changed = false;
        let mut y: i64 = y0;
        assert forall|i: int| 0 <= i < before.len() && i / (w as int) < y0 implies #[trigger] before[i]
            == target[i] by {
            lemma_outside_box(f, g, r, w as int, self.height as int, i, x0 as int, x1 as int, y0 as int, y1 as int);
        }
        while y < y1
            invariant
                w == self.width,
                self.pixels@.len() == before.len(),
                size == before.len(),
                before.len() == w * self.height,
                target == stroked(before, w as int, f, g, r),
                f == (from.0 as int, from.1 as int),
                g == (to.0 as int, to.1 as int),
                r == radius as int,
                0 <= x0,
                x1 <= w,
                0 <= y0 <= y,
                y1 <= self.height,
                y0 < y1 ==> y <= y1,
                box_of(f, g, r, x0 as int, x1 as int, y0 as int, y1 as int, w as int, self.height as int),
                forall|i: int|
                    0 <= i < before.len() ==> #[trigger] self.pixels@[i] == if i / (w as int) < y {
                        target[i]
                    } else {
                        before[i]
                    },
                changed <==> self.pixels@ != before,
                self.id == old(self).id,
                self.revision == old(self).revision,
                self.width == old(self).width,
                self.height == old(self).height,
            decreases y1 - y,
        {
            let mut x: i64 = x0;
            assert forall|i: int|
                0 <= i < before.len() && i / (w as int) == y && i % (w as int) < x0 implies #[trigger] before[i]
                == target[i] by {
                lemma_outside_box(f, g, r, w as int, self.height as int, i, x0 as int, x1 as int, y0 as int, y1 as int);
            }
            while x < x1
                invariant
                    w == self.width,
                    self.pixels@.len() == before.len(),
                    size == before.len(),
                    before.len() == w * self.height,
                    target == stroked(before, w as int, f, g, r),
                    f == (from.0 as int, from.1 as int),
                    g == (to.0 as int, to.1 as int),
                    r == radius as int,
                    0 <= x0 <= x,
                    x1 <= w,
                    x0 < x1 ==> x <= x1,
                    0 <= y0 <= y < y1,
                    y1 <= self.height,
                    box_of(f, g, r, x0 as int, x1 as int, y0 as int, y1 as int, w as int, self.height as int),
                    forall|i: int|
                        0 <= i < before.len() ==> #[trigger] self.pixels@[i] == if i / (w as int) < y
                            || (i / (w as int) == y && i % (w as int) < x) {
                            target[i]
                        } else {
                            before[i]
                        },
                    changed <==> self.pixels@ != before,
                    self.id == old(self).id,
                    self.revision == old(self).revision,
                    self.width == old(self).width,
                    self.height == old(self).height,
                decreases x1 - x,
            {
                proof {
                    lemma_place(w as int, self.height as int, x as int, y as int);
                    lemma_inside_box(f, g, r, w as int, self.height as int, x as int, y as int, x0 as int, x1 as int, y0 as int, y1 as int);
                }
                let i: usize = y as usize * w + x as usize;
                let ghost mid = self.pixels@;
                if in_capsule(from, to, radius, x * PX + 50_000, y * PX + 50_000) {
                    if self.pixels[i] != 255 {
                        changed = true;
                    }
                    self.pixels.set(i, 255);
                    assert(target[i as int] == 255u8);
                    assert(self.pixels@[i as int] == 255u8);
                    assert(mid[i as int] == before[i as int]);
                    proof {
                        if mid[i as int] == 255u8 {
                            assert(self.pixels@ =~= mid);
                        } else {
                            assert(self.pixels@[i as int] != before[i as int]);
                        }
                    }
                } else {
                    assert(target[i as int] == before[i as int]);
                }
                proof {
                    assert forall|k: int|
                        #![trigger self.pixels@[k]]
                        0 <= k < before.len() && k != i implies !(k / (w as int) == y
                        && k % (w as int) == x) by {
                        if k / (w as int) == y && k % (w as int) == x {
                            lemma_place_unique(w as int, k, x as int, y as int);
                        }
                    }
                }
                x = x + 1;
            }
            proof {
                assert forall|i: int|
                    0 <= i < before.len() && i / (w as int) == y && i % (w as int) >= x implies #[trigger] before[i]
                    == target[i] by {
                    lemma_outside_box(f, g, r, w as int, self.height as int, i, x0 as int, x1 as int, y0 as int, y1 as int);
                }
            }
            y = y + 1;
        }
        proof {
            assert forall|i: int| 0 <= i < before.len() && i / (w as int) >= y implies #[trigger] before[i]
                == target[i] by {
                lemma_outside_box(f, g, r, w as int, self.height as int, i, x0 as int, x1 as int, y0 as int, y1 as int);
            }
            assert(self.pixels@ =~= target);
        }
        if changed {
            self.revision = self.revision.wrapping_add(1);
        }
    }
}

/// A stroke drawn a second time changes nothing, and the revision says so.
pub proof fn repainting_changes_nothing(
    mask: MaskState,
    from: (int, int),
    to: (int, int),
    radius: int,
)
    ensures
        mask.painted(from, to, radius).painted(from, to, radius) == mask.painted(from, to, radius),
{
    let once = stroked(mask.pixels, mask.width as int, from, to, radius);
    assert(stroked(once, mask.width as int, from, to, radius) =~= once);
}

/// Painting never blackens a white pixel, whatever the stroke.
pub proof fn painting_never_clears(
    mask: MaskState,
    from: (int, int),
    to: (int, int),
    radius: int,
    i: int,
)
    requires
        0 <= i < mask.pixels.len(),
        mask.pixels[i] == 255u8,
    ensures
        mask.painted(from, to, radius).pixels[i] == 255u8,
{
}

/// A stroke leaves a mask one: as large as it was, under the id it had, each
/// pixel black or white, the white ones still white. The revision goes up by
/// one where a pixel changed, and stays where none did.
pub proof fn a_stroke_leaves_a_mask(
    mask: MaskState,
    from: (int, int),
    to: (int, int),
    radius: int,
)
    requires
        mask.wf(),
    ensures
        ({
            let after = mask.painted(from, to, radius);
            &&& after.wf()
            &&& after.id == mask.id
            &&& after.width == mask.width && after.height == mask.height
            &&& after.pixels.len() == mask.pixels.len()
            &&& forall|i: int|
                0 <= i < mask.pixels.len() && mask.pixels[i] == 255u8 ==> #[trigger] after.pixels[i]
                    == 255u8
            &&& (exists|i: int|
                0 <= i < mask.pixels.len() && #[trigger] after.pixels[i] != mask.pixels[i])
                ==> mask.revision < u64::MAX ==> after.revision == mask.revision + 1
            &&& (forall|i: int|
                0 <= i < mask.pixels.len() ==> #[trigger] after.pixels[i] == mask.pixels[i])
                ==> after.revision == mask.revision
        }),
{
    let after = mask.painted(from, to, radius);
    if forall|i: int|
        0 <= i < mask.pixels.len() ==> #[trigger] after.pixels[i] == mask.pixels[i] {
        assert(after.pixels =~= mask.pixels);
    }
}

/// A stroke whitens the pixels its circle passes over, and those alone: pixel
/// `(x, y)` becomes white where the pixel's middle lies within `radius` of some
/// point of the way from `from` to `to`, the point `n / m` of the way along; a
/// pixel that changed lies so.
pub proof fn a_stroke_whitens_what_it_passes_over(
    mask: MaskState,
    from: (int, int),
    to: (int, int),
    radius: int,
    x: int,
    y: int,
    n: int,
    m: int,
)
    requires
        mask.wf(),
        radius >= 0,
        0 <= x < mask.width,
        0 <= y < mask.height,
        0 <= n <= m && 0 < m,
    ensures
        ({
            let at = y * mask.width + x;
            let after = mask.painted(from, to, radius);
            let (mx, my) = (100_000 * x + 50_000, 100_000 * y + 50_000);
            let dx = m * (mx - from.0) - n * (to.0 - from.0);
            let dy = m * (my - from.1) - n * (to.1 - from.1);
            &&& dx * dx + dy * dy <= (m * radius) * (m * radius) ==> after.pixels[at] == 255u8
            &&& after.pixels[at] != mask.pixels[at] ==> exists|k: int, l: int|
                0 <= k <= l && 0 < l && #[trigger] passes(from, to, radius, mx, my, k, l)
        }),
{
    let at = y * mask.width + x;
    let (mx, my) = (pixel_middle(x), pixel_middle(y));
    lemma_place(mask.width as int, mask.height as int, x, y);
    a_stroke_covers_what_its_circle_sweeps(from, to, radius, mask.width as int, at);
    assert(mx == 100_000 * x + 50_000 && my == 100_000 * y + 50_000);
    let (ax, ay) = (100_000 * x + 50_000, 100_000 * y + 50_000);
    assert(passes(from, to, radius, ax, ay, n, m) == passes(from, to, radius, mx, my, n, m));
    if passes(from, to, radius, mx, my, n, m) {
        assert(crate::capsule::near_at(from, to, radius, mx, my, n, m));
    }
    if swept(from, to, radius, mx, my) {
        let (k, l) = choose|k: int, l: int|
            0 <= k <= l && 0 < l && #[trigger] crate::capsule::near_at(
                from,
                to,
                radius,
                mx,
                my,
                k,
                l,
            );
        assert(passes(from, to, radius, ax, ay, k, l));
    }
}

/// Whether the point `n / m` of the way from `from` to `to` lies within `radius`
/// of `(x, y)`.
pub open spec fn passes(
    from: (int, int),
    to: (int, int),
    radius: int,
    x: int,
    y: int,
    n: int,
    m: int,
) -> bool {
    let dx = m * (x - from.0) - n * (to.0 - from.0);
    let dy = m * (y - from.1) - n * (to.1 - from.1);
    dx * dx + dy * dy <= (m * radius) * (m * radius)
}

/// A stroke that leaves a pixel's middle beyond its reach along either axis
/// leaves the pixel alone; one that ends within reach of it whitens it.
pub proof fn a_stroke_reaches_its_radius(
    mask: MaskState,
    from: (int, int),
    to: (int, int),
    radius: int,
    x: int,
    y: int,
)
    requires
        mask.wf(),
        radius >= 0,
        0 <= x < mask.width,
        0 <= y < mask.height,
    ensures
        ({
            let at = y * mask.width + x;
            let after = mask.painted(from, to, radius);
            let (mx, my) = (100_000 * x + 50_000, 100_000 * y + 50_000);
            &&& (mx - to.0) * (mx - to.0) + (my - to.1) * (my - to.1) <= radius * radius
                ==> after.pixels[at] == 255u8
            &&& (mx - from.0) * (mx - from.0) + (my - from.1) * (my - from.1) <= radius * radius
                ==> after.pixels[at] == 255u8
            &&& mx + radius < least(from.0, to.0) || mx - radius > most(from.0, to.0) || my + radius
                < least(from.1, to.1) || my - radius > most(from.1, to.1) ==> after.pixels[at]
                == mask.pixels[at]
        }),
{
    let at = y * mask.width + x;
    let (mx, my) = (pixel_middle(x), pixel_middle(y));
    a_stroke_whitens_what_it_passes_over(mask, from, to, radius, x, y, 1, 1);
    a_stroke_whitens_what_it_passes_over(mask, from, to, radius, x, y, 0, 1);
    assert(1 * (mx - from.0) - 1 * (to.0 - from.0) == mx - to.0);
    assert(1 * (my - from.1) - 1 * (to.1 - from.1) == my - to.1);
    assert(1 * radius == radius);
    assert(1 * (mx - from.0) - 0 * (to.0 - from.0) == mx - from.0);
    assert(1 * (my - from.1) - 0 * (to.1 - from.1) == my - from.1);
    lemma_place(mask.width as int, mask.height as int, x, y);
    a_stroke_covers_what_its_circle_sweeps(from, to, radius, mask.width as int, at);
    if swept(from, to, radius, mx, my) {
        swept_in_box(from, to, radius, mx, my);
    }
}

/// Two strokes leave the same pixels in either order.
pub proof fn strokes_commute(
    pixels: Seq<u8>,
    width: int,
    from: (int, int),
    to: (int, int),
    radius: int,
    from2: (int, int),
    to2: (int, int),
    radius2: int,
)
    ensures
        stroked(stroked(pixels, width, from, to, radius), width, from2, to2, radius2) == stroked(
            stroked(pixels, width, from2, to2, radius2),
            width,
            from,
            to,
            radius,
        ),
{
    assert(stroked(stroked(pixels, width, from, to, radius), width, from2, to2, radius2)
        =~= stroked(
        stroked(pixels, width, from2, to2, radius2),
        width,
        from,
        to,
        radius,
    ));
}

/// Index of the first pixel at or after a coordinate that may be negative.
fn first_pixel(v: i128) -> (r: i64)
    requires
        v <= 0x1_0000_0000_0000_0000,
    ensures
        r >= 0,
        v <= 0 ==> r == 0,
        v > 0 ==> r == v / 100_000,
{
    if v <= 0 {
        0
    } else {
        (v / PX as i128) as i64
    }
}

/// Index past the last pixel that begins before a coordinate.
fn end_pixel(v: i128) -> (r: i64)
    requires
        v <= 0x1_0000_0000_0000_0000,
    ensures
        r >= 0,
        v <= 0 ==> r == 0,
        v > 0 ==> r == (v + 99_999) / 100_000,
{
    if v <= 0 {
        0
    } else {
        ((v + (PX as i128 - 1)) / PX as i128) as i64
    }
}

/// `x0..x1` by `y0..y1` holds every pixel of the image that a stroke reaches.
spec fn box_of(
    f: (int, int),
    g: (int, int),
    r: int,
    x0: int,
    x1: int,
    y0: int,
    y1: int,
    w: int,
    h: int,
) -> bool {
    let left = least(f.0, g.0) - r;
    let right = most(f.0, g.0) + r;
    let top = least(f.1, g.1) - r;
    let bottom = most(f.1, g.1) + r;
    &&& x0 == if left <= 0 { 0 } else { left / 100_000 }
    &&& y0 == if top <= 0 { 0 } else { top / 100_000 }
    &&& x1 == least(if right <= 0 { 0 } else { (right + 99_999) / 100_000 }, w)
    &&& y1 == least(if bottom <= 0 { 0 } else { (bottom + 99_999) / 100_000 }, h)
}

proof fn lemma_outside_box(
    f: (int, int),
    g: (int, int),
    r: int,
    w: int,
    h: int,
    i: int,
    x0: int,
    x1: int,
    y0: int,
    y1: int,
)
    requires
        w >= 0,
        h >= 0,
        0 <= i < w * h,
        box_of(f, g, r, x0, x1, y0, y1, w, h),
        i / w < y0 || i / w >= y1 || i % w < x0 || i % w >= x1,
    ensures
        !stroke_covers(f, g, r, w, i),
{
    let (x, y) = (i % w, i / w);
    assert(w > 0) by (nonlinear_arith)
        requires
            0 <= i < w * h,
            w >= 0,
    ;
    vstd::arithmetic::div_mod::lemma_multiply_divide_lt(i, w, h);
    vstd::arithmetic::div_mod::lemma_mod_bound(i, w);
    vstd::arithmetic::div_mod::lemma_div_pos_is_pos(i, w);
    assert(0 <= x < w && 0 <= y < h);
}

/// Every pixel of the box is one that the stroke reaches.
proof fn lemma_inside_box(
    f: (int, int),
    g: (int, int),
    r: int,
    w: int,
    h: int,
    x: int,
    y: int,
    x0: int,
    x1: int,
    y0: int,
    y1: int,
)
    requires
        box_of(f, g, r, x0, x1, y0, y1, w, h),
        x0 <= x < x1,
        y0 <= y < y1,
        x >= 0,
        y >= 0,
    ensures
        reaches(f.0, g.0, r, x),
        reaches(f.1, g.1, r, y),
{
}

/// Column `x` of row `y` is the pixel `y * w + x`.
proof fn lemma_place(w: int, h: int, x: int, y: int)
    requires
        0 <= x < w,
        0 <= y < h,
    ensures
        0 <= y * w,
        0 <= y * w + x < w * h,
        (y * w + x) / w == y,
        (y * w + x) % w == x,
{
    vstd::arithmetic::div_mod::lemma_fundamental_div_mod_converse(y * w + x, w, y, x);
    assert(0 <= y * w && y * w + x < w * h) by (nonlinear_arith)
        requires
            0 <= x < w,
            0 <= y < h,
    ;
}

proof fn lemma_place_unique(w: int, k: int, x: int, y: int)
    requires
        w > 0,
        k / w == y,
        k % w == x,
    ensures
        k == y * w + x,
{
    vstd::arithmetic::div_mod::lemma_fundamental_div_mod(k, w);
    vstd::arithmetic::mul::lemma_mul_is_commutative(w, y);
}

} // verus!
