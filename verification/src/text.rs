//! The glyph atlas and the layout of text.
//!
//! Glyphs are rasterized on demand into one 8-bit atlas by a shelf packer.
//! Text laid out earlier in a frame already points into the atlas, so a full
//! atlas is never reset in the middle of one: it refuses the glyph,
//! remembers that, and is wiped when the next frame begins.

use crate::units::PX;
use std::collections::HashMap;
use vstd::prelude::*;

verus! {

/// The atlas's side in texels.
pub const ATLAS: u32 = 2_048;

/// A glyph in the atlas.
#[derive(Debug, Clone, Copy, PartialEq, Eq, Structural)]
pub struct Entry {
    /// Placement in texels.
    pub ax: u32,
    pub ay: u32,
    pub w: u32,
    pub h: u32,
    /// Bearing relative to the pen position.
    pub left: i32,
    pub top: i32,
}

impl Entry {
    /// Whether texel `(x, y)` belongs to the glyph.
    pub open spec fn holds(self, x: int, y: int) -> bool {
        self.ax <= x < self.ax + self.w && self.ay <= y < self.ay + self.h
    }

    /// Where the coverage of texel `(x, y)` stands in the glyph's raster.
    pub open spec fn place(self, x: int, y: int) -> int {
        (y - self.ay) * self.w + (x - self.ax)
    }

    pub open spec fn in_atlas(self) -> bool {
        &&& self.w >= 1 && self.h >= 1
        &&& self.ax + self.w <= ATLAS
        &&& self.ay + self.h <= ATLAS
    }

    /// Whether two glyphs have no texel in common.
    pub open spec fn apart(self, other: Entry) -> bool {
        ||| self.ax + self.w <= other.ax
        ||| other.ax + other.w <= self.ax
        ||| self.ay + self.h <= other.ay
        ||| other.ay + other.h <= self.ay
    }
}

/// What rasterizing a glyph yields: its size, its bearing and how much each
/// texel is covered.
pub struct Raster {
    pub w: u32,
    pub h: u32,
    pub left: i32,
    pub top: i32,
    pub coverage: Vec<u8>,
}

/// Whether a raster tells the coverage of each of its texels.
pub open spec fn complete(raster: Option<Raster>) -> bool {
    raster matches Some(r) ==> r.coverage@.len() == r.w * r.h
}

/// A part of the atlas that has to be uploaded.
#[derive(Debug, Clone, Copy, PartialEq, Eq, Structural)]
pub struct Patch {
    pub x: u32,
    pub y: u32,
    pub w: u32,
    pub h: u32,
}

impl Patch {
    pub open spec fn holds(self, x: int, y: int) -> bool {
        self.x <= x < self.x + self.w && self.y <= y < self.y + self.h
    }

    /// The whole atlas.
    #[verifier::allow_in_spec]
    pub fn everything() -> Patch
        returns
            (Patch { x: 0, y: 0, w: ATLAS, h: ATLAS }),
    {
        Patch { x: 0, y: 0, w: ATLAS, h: ATLAS }
    }
}

/// One positioned glyph, in physical pixels relative to the text origin
/// (top-left of the line box), and its texels.
#[derive(Debug, Clone, Copy, PartialEq, Eq, Structural)]
pub struct GlyphQuad {
    pub x: i64,
    pub y: i64,
    pub w: i64,
    pub h: i64,
    pub texels: Patch,
}

pub struct LaidText {
    pub quads: Vec<GlyphQuad>,
    /// Advance width and line height of the whole run.
    pub w: i64,
    pub h: i64,
}

/// A character as the font has it at some size.
#[derive(Debug, Clone, Copy, PartialEq, Eq, Structural)]
pub struct Glyph {
    pub id: u16,
    pub advance: i32,
    /// White space draws nothing.
    pub space: bool,
}

pub struct TextCtx {
    pub atlas: Vec<u8>,
    /// The parts of the atlas that changed since the last upload.
    pub dirty: Vec<Patch>,
    pub cache: HashMap<u64, Option<Entry>>,
    pub cur_x: u32,
    pub cur_y: u32,
    pub row_h: u32,
    /// A glyph was refused for want of room.
    pub full: bool,
}

/// The atlas's content.
#[verifier::ext_equal]
pub struct AtlasState {
    pub atlas: Seq<u8>,
    pub dirty: Seq<Patch>,
    pub cache: Map<u64, Option<Entry>>,
    pub cur_x: u32,
    pub cur_y: u32,
    pub row_h: u32,
    pub full: bool,
}

impl View for TextCtx {
    type V = AtlasState;

    open spec fn view(&self) -> AtlasState {
        AtlasState {
            atlas: self.atlas@,
            dirty: self.dirty@,
            cache: self.cache@,
            cur_x: self.cur_x,
            cur_y: self.cur_y,
            row_h: self.row_h,
            full: self.full,
        }
    }
}

/// The place of texel `(x, y)`.
pub open spec fn texel(x: int, y: int) -> int {
    y * 2_048 + x
}

/// A text size in whole pixels, halves up.
pub open spec fn whole(px: u32) -> int {
    (px + 50_000) / 100_000
}

/// What a glyph at a size is remembered under.
pub open spec fn key_for(id: u16, px: u32) -> u64 {
    (id * 0x1_0000_0000 + whole(px)) as u64
}

/// Different glyphs, or sizes that differ by a pixel, are remembered apart.
pub proof fn keys_differ(id: u16, px: u32, id2: u16, px2: u32)
    ensures
        key_for(id, px) == key_for(id2, px2) <==> id == id2 && whole(px) == whole(px2),
{
}

fn key_of(id: u16, px: u32) -> (r: u64)
    ensures
        r == key_for(id, px),
{
    id as u64 * 0x1_0000_0000 + (px as u64 + 50_000) / 100_000
}

impl AtlasState {
    /// Every glyph lies in the atlas, behind the packer's cursor, and no two
    /// overlap; what no glyph covers is clear.
    pub open spec fn wf(self) -> bool {
        &&& self.atlas.len() == 2_048 * 2_048
        &&& self.cur_x <= ATLAS + 1
        &&& self.cur_y <= ATLAS
        &&& self.row_h <= ATLAS
        &&& forall|k: u64| #[trigger]
            self.cache.dom().contains(k) ==> self.placed(self.cache[k])
        &&& forall|j: u64, k: u64| #[trigger]
            self.cache.dom().contains(j) && #[trigger] self.cache.dom().contains(k) && j != k
                ==> separate(self.cache[j], self.cache[k])
        &&& forall|x: int, y: int|
            0 <= x < 2_048 && 0 <= y < 2_048 && self.free(x, y) ==> self.atlas[#[trigger] texel(
                x,
                y,
            )] == 0u8
    }

    /// A remembered glyph lies behind the cursor.
    pub open spec fn placed(self, found: Option<Entry>) -> bool {
        found matches Some(e) ==> {
            &&& e.in_atlas()
            &&& e.ay + e.h + 1 <= self.cur_y || (e.ay == self.cur_y && e.ax + e.w + 1
                <= self.cur_x && e.h <= self.row_h)
        }
    }

    /// Whether the packer has not got to texel `(x, y)` yet.
    pub open spec fn free(self, x: int, y: int) -> bool {
        y >= self.cur_y && (x >= self.cur_x || y >= self.cur_y + self.row_h)
    }

    /// An empty atlas.
    pub open spec fn blank() -> AtlasState {
        AtlasState {
            atlas: Seq::new(2_048 * 2_048, |i: int| 0u8),
            dirty: Seq::empty(),
            cache: Map::empty(),
            cur_x: 0,
            cur_y: 0,
            row_h: 0,
            full: false,
        }
    }

    /// Whether the current row has room for a width.
    pub open spec fn row_has(self, w: int) -> bool {
        self.cur_x + w + 1 <= ATLAS
    }

    /// Where a glyph of that size would go: on the current row, else on the
    /// next.
    pub open spec fn spot(self, w: int) -> (int, int) {
        if self.row_has(w) {
            (self.cur_x as int, self.cur_y as int)
        } else {
            (0, self.cur_y + self.row_h + 1)
        }
    }

    /// Whether there is room for it at all.
    pub open spec fn fits(self, w: int, h: int) -> bool {
        possible(w, h) && self.spot(w).1 + h + 1 <= ATLAS
    }

    /// The entry a glyph gets.
    pub open spec fn entry_for(self, w: u32, h: u32, left: i32, top: i32) -> Entry {
        Entry {
            ax: self.spot(w as int).0 as u32,
            ay: self.spot(w as int).1 as u32,
            w,
            h,
            left,
            top,
        }
    }

    /// The atlas after a glyph was drawn into it.
    pub open spec fn inked(self, e: Entry, coverage: Seq<u8>) -> Seq<u8> {
        Seq::new(
            self.atlas.len(),
            |i: int|
                if e.holds(i % 2_048, i / 2_048) {
                    coverage[e.place(i % 2_048, i / 2_048)]
                } else {
                    self.atlas[i]
                },
        )
    }

    /// After a glyph with something to draw was offered: it is drawn and
    /// remembered, or refused and remembered as having nothing to draw.
    pub open spec fn offered(
        self,
        key: u64,
        w: u32,
        h: u32,
        left: i32,
        top: i32,
        coverage: Seq<u8>,
    ) -> AtlasState {
        if self.fits(w as int, h as int) {
            let e = self.entry_for(w, h, left, top);
            let new_row = !self.row_has(w as int);
            AtlasState {
                atlas: self.inked(e, coverage),
                dirty: self.dirty.push(Patch { x: e.ax, y: e.ay, w, h }),
                cache: self.cache.insert(key, Some(e)),
                cur_x: (e.ax + w + 1) as u32,
                cur_y: e.ay,
                row_h: if new_row || self.row_h < h { h } else { self.row_h },
                full: self.full,
            }
        } else {
            AtlasState {
                cache: self.cache.insert(key, None),
                full: self.full || possible(w as int, h as int),
                ..self
            }
        }
    }

    /// After a glyph was rasterized: one with nothing to draw is remembered
    /// as such.
    pub open spec fn learned(self, key: u64, raster: Option<Raster>) -> AtlasState {
        match raster {
            Some(r) if r.w > 0 && r.h > 0 => self.offered(
                key,
                r.w,
                r.h,
                r.left,
                r.top,
                r.coverage@,
            ),
            _ => AtlasState { cache: self.cache.insert(key, None), ..self },
        }
    }

    /// At the start of a frame: an atlas that refused a glyph is wiped.
    pub open spec fn begun(self) -> AtlasState {
        if self.full {
            AtlasState { dirty: seq![Patch::everything()], ..AtlasState::blank() }
        } else {
            self
        }
    }

    /// The glyph to draw, if any.
    pub open spec fn glyph_at(self, id: u16, px: u32) -> Option<Entry> {
        if self.cache.dom().contains(key_for(id, px)) {
            self.cache[key_for(id, px)]
        } else {
            None
        }
    }
}

/// Whether an atlas could hold a glyph of that size. One that it could not
/// hold does not make it full.
pub open spec fn possible(w: int, h: int) -> bool {
    w <= ATLAS && h <= ATLAS
}

/// Two remembered glyphs do not overlap.
pub open spec fn separate(a: Option<Entry>, b: Option<Entry>) -> bool {
    a matches Some(x) ==> (b matches Some(y) ==> x.apart(y))
}

/// Where the pen stands before glyph `k`.
pub open spec fn pen(glyphs: Seq<Glyph>, tracking: int, k: int) -> int
    decreases k,
{
    if k <= 0 {
        0
    } else {
        pen(glyphs, tracking, k - 1) + glyphs[k - 1].advance + tracking
    }
}

/// The quads of the first `k` glyphs.
pub open spec fn quads(
    atlas: AtlasState,
    glyphs: Seq<Glyph>,
    px: u32,
    ascent: int,
    tracking: int,
    k: int,
) -> Seq<GlyphQuad>
    decreases k,
{
    if k <= 0 {
        Seq::empty()
    } else {
        let before = quads(atlas, glyphs, px, ascent, tracking, k - 1);
        let g = glyphs[k - 1];
        match atlas.glyph_at(g.id, px) {
            Some(e) => if g.space {
                before
            } else {
                before.push(
                    GlyphQuad {
                        x: (pen(glyphs, tracking, k - 1) + e.left) as i64,
                        y: (ascent + e.top) as i64,
                        w: (e.w * PX) as i64,
                        h: (e.h * PX) as i64,
                        texels: Patch { x: e.ax, y: e.ay, w: e.w, h: e.h },
                    },
                )
            },
            None => before,
        }
    }
}

/// The width of a run: trailing tracking isn't part of it.
pub open spec fn run_width(glyphs: Seq<Glyph>, tracking: int) -> int {
    let all = pen(glyphs, tracking, glyphs.len() as int);
    if glyphs.len() > 0 { all - tracking } else { all }
}

impl TextCtx {
    /// An empty atlas.
    pub fn new() -> (s: TextCtx)
        ensures
            s@ == AtlasState::blank(),
            s@.wf(),
    {
        let mut atlas: Vec<u8> = Vec::new();
        atlas.resize(4_194_304, 0);
        let s = TextCtx {
            atlas,
            dirty: Vec::new(),
            cache: HashMap::new(),
            cur_x: 0,
            cur_y: 0,
            row_h: 0,
            full: false,
        };
        assert(s@ =~= AtlasState::blank());
        s
    }

    /// Readies the atlas for a frame: one that refused a glyph starts over.
    pub fn begin_frame(&mut self)
        requires
            old(self)@.wf(),
        ensures
            final(self)@ == old(self)@.begun(),
            final(self)@.wf(),
    {
        if self.full {
            let mut fresh = TextCtx::new();
            fresh.dirty.push(Patch::everything());
            *self = fresh;
            assert(self@ =~= old(self)@.begun());
        }
    }

    /// Takes the parts of the atlas that have to be uploaded.
    pub fn take_dirty(&mut self) -> (r: Vec<Patch>)
        ensures
            r@ == old(self)@.dirty,
            final(self)@ == (AtlasState { dirty: Seq::empty(), ..old(self)@ }),
    {
        let mut out: Vec<Patch> = Vec::new();
        std::mem::swap(&mut out, &mut self.dirty);
        assert(self@ =~= AtlasState { dirty: Seq::empty(), ..old(self)@ });
        out
    }

    /// Finds room for a glyph and moves the cursor past it; a full atlas
    /// says so instead.
    fn pack(&mut self, w: u32, h: u32) -> (r: Option<(u32, u32)>)
        requires
            old(self)@.wf(),
        ensures
            match r {
                Some((x, y)) => {
                    &&& old(self)@.fits(w as int, h as int)
                    &&& old(self)@.spot(w as int) == (x as int, y as int)
                    &&& final(self)@ == (AtlasState {
                        cur_x: (x + w + 1) as u32,
                        cur_y: y,
                        row_h: if !old(self)@.row_has(w as int) || old(self)@.row_h < h {
                            h
                        } else {
                            old(self)@.row_h
                        },
                        ..old(self)@
                    })
                },
                None => {
                    &&& !old(self)@.fits(w as int, h as int)
                    &&& final(self)@ == (AtlasState {
                        full: old(self)@.full || possible(w as int, h as int),
                        ..old(self)@
                    })
                },
            },
    {
        if w > ATLAS || h > ATLAS {
            return None;
        }
        let new_row = self.cur_x + w + 1 > ATLAS;
        let x: u32 = if new_row { 0 } else { self.cur_x };
        let y: u32 = if new_row { self.cur_y + self.row_h + 1 } else { self.cur_y };
        if y + h + 1 > ATLAS {
            self.full = true;
            return None;
        }
        self.cur_x = x + w + 1;
        self.cur_y = y;
        if new_row || self.row_h < h {
            self.row_h = h;
        }
        Some((x, y))
    }

    /// Draws a glyph into the atlas.
    fn ink(&mut self, e: Entry, coverage: &Vec<u8>)
        requires
            old(self)@.atlas.len() == 2_048 * 2_048,
            e.in_atlas(),
            coverage@.len() == e.w * e.h,
        ensures
            final(self)@ == (AtlasState { atlas: old(self)@.inked(e, coverage@), ..old(self)@ }),
    {
        let ghost before = self@;
        let mut y: u32 = 0;
        while y < e.h
            invariant
                y <= e.h,
                e.in_atlas(),
                coverage@.len() == e.w * e.h,
                before.atlas.len() == 2_048 * 2_048,
                self@ == (AtlasState { atlas: self.atlas@, ..before }),
                self.atlas@.len() == 2_048 * 2_048,
                forall|i: int|
                    0 <= i < 2_048 * 2_048 ==> #[trigger] self.atlas@[i] == (if e.holds(
                        i % 2_048,
                        i / 2_048,
                    ) && i / 2_048 < e.ay + y {
                        coverage@[e.place(i % 2_048, i / 2_048)]
                    } else {
                        before.atlas[i]
                    }),
            decreases e.h - y,
        {
            let mut x: u32 = 0;
            while x < e.w
                invariant
                    x <= e.w,
                    y < e.h,
                    e.in_atlas(),
                    coverage@.len() == e.w * e.h,
                    before.atlas.len() == 2_048 * 2_048,
                    self@ == (AtlasState { atlas: self.atlas@, ..before }),
                    self.atlas@.len() == 2_048 * 2_048,
                    forall|i: int|
                        0 <= i < 2_048 * 2_048 ==> #[trigger] self.atlas@[i] == (if e.holds(
                            i % 2_048,
                            i / 2_048,
                        ) && (i / 2_048 < e.ay + y || (i / 2_048 == e.ay + y && i % 2_048 < e.ax
                            + x)) {
                            coverage@[e.place(i % 2_048, i / 2_048)]
                        } else {
                            before.atlas[i]
                        }),
                decreases e.w - x,
            {
                let at: usize = (e.ay + y) as usize * 2_048 + (e.ax + x) as usize;
                assert(y * e.w + x < e.w * e.h && y * e.w <= 4_194_304) by (nonlinear_arith)
                    requires
                        0 <= x < e.w,
                        0 <= y < e.h,
                        e.w <= 2_048,
                        e.h <= 2_048,
                ;
                let from: usize = y as usize * e.w as usize + x as usize;
                assert(from == e.place(e.ax + x, e.ay + y));
                self.atlas.set(at, coverage[from]);
                x = x + 1;
            }
            y = y + 1;
        }
        assert(self@ =~= AtlasState { atlas: before.inked(e, coverage@), ..before });
    }

    /// Remembers what a glyph looks like at a size, drawing it into the
    /// atlas where there is something to draw and room for it.
    pub fn learn(&mut self, id: u16, px: u32, raster: Option<Raster>)
        requires
            old(self)@.wf(),
            complete(raster),
        ensures
            final(self)@ == old(self)@.learned(key_for(id, px), raster),
            final(self)@.wf(),
    {
        let key = key_of(id, px);
        let ghost before = self@;
        proof {
            lemma_learning_keeps_order(before, key, raster);
        }
        match raster {
            Some(r) if r.w > 0 && r.h > 0 => {
                match self.pack(r.w, r.h) {
                    Some((ax, ay)) => {
                        let e = Entry { ax, ay, w: r.w, h: r.h, left: r.left, top: r.top };
                        self.ink(e, &r.coverage);
                        self.dirty.push(Patch { x: ax, y: ay, w: r.w, h: r.h });
                        self.cache.insert(key, Some(e));
                    },
                    None => {
                        self.cache.insert(key, None);
                    },
                }
            },
            _ => {
                self.cache.insert(key, None);
            },
        }
        assert(self@ =~= before.learned(key, raster));
    }
}

/// A well-formed atlas stays so.
proof fn lemma_learning_keeps_order(s: AtlasState, key: u64, raster: Option<Raster>)
    requires
        s.wf(),
        complete(raster),
    ensures
        s.learned(key, raster).wf(),
{
    let t = s.learned(key, raster);
    match raster {
        Some(r) if r.w > 0 && r.h > 0 && s.fits(r.w as int, r.h as int) => {
            let e = s.entry_for(r.w, r.h, r.left, r.top);
            assert(e.in_atlas());
            assert forall|x: int, y: int|
                0 <= x < 2_048 && 0 <= y < 2_048 && t.free(x, y) implies t.atlas[#[trigger] texel(
                x,
                y,
            )] == 0u8 by {
                assert(s.free(x, y));
                assert(!e.holds(x, y));
                assert(texel(x, y) % 2_048 == x && texel(x, y) / 2_048 == y);
            }
        },
        _ => {},
    }
}

/// A font's vertical metrics at some size; `descent` is negative.
#[derive(Debug, Clone, Copy, PartialEq, Eq, Structural)]
pub struct LineMetrics {
    pub ascent: i32,
    pub descent: i32,
}

/// How many glyphs a line may have: its width then fits, whatever they
/// advance by.
pub const LINE_LIMIT: usize = 0x4000_0000;

/// A line's content.
pub struct LaidState {
    pub quads: Seq<GlyphQuad>,
    pub w: int,
    pub h: int,
}

impl View for LaidText {
    type V = LaidState;

    open spec fn view(&self) -> LaidState {
        LaidState { quads: self.quads@, w: self.w as int, h: self.h as int }
    }
}

/// Whether what a quad shows lies in the atlas.
pub open spec fn quad_ok(q: GlyphQuad) -> bool {
    &&& q.texels.x + q.texels.w <= ATLAS
    &&& q.texels.y + q.texels.h <= ATLAS
}

impl LaidState {
    /// Whether everything the line shows lies in the atlas.
    pub open spec fn ok(self) -> bool {
        forall|k: int| 0 <= k < self.quads.len() ==> quad_ok(#[trigger] self.quads[k])
    }
}

/// A line laid out with the glyphs an atlas knows; without a font there is
/// nothing to lay out.
pub open spec fn laid(
    atlas: AtlasState,
    metrics: Option<LineMetrics>,
    glyphs: Seq<Glyph>,
    px: u32,
    tracking: int,
) -> LaidState {
    match metrics {
        None => LaidState { quads: Seq::empty(), w: 0, h: 0 },
        Some(m) => LaidState {
            quads: quads(atlas, glyphs, px, m.ascent as int, tracking, glyphs.len() as int),
            w: run_width(glyphs, tracking),
            h: m.ascent - m.descent,
        },
    }
}

/// Whether the atlas knows what to draw for a glyph.
pub open spec fn known(atlas: AtlasState, g: Glyph, px: u32) -> bool {
    g.space || atlas.cache.dom().contains(key_for(g.id, px))
}

/// A pen stays near its line.
proof fn lemma_pen_bounds(glyphs: Seq<Glyph>, tracking: i32, k: int)
    requires
        0 <= k <= glyphs.len(),
    ensures
        -0x1_0000_0000 * k <= pen(glyphs, tracking as int, k) <= 0x1_0000_0000 * k,
    decreases k,
{
    if k > 0 {
        lemma_pen_bounds(glyphs, tracking, k - 1);
    }
}

impl TextCtx {
    /// The glyph to draw at a size, if any.
    fn lookup(&self, id: u16, px: u32) -> (r: Option<Entry>)
        ensures
            r == self@.glyph_at(id, px),
    {
        match self.cache.get(&key_of(id, px)) {
            Some(found) => *found,
            None => None,
        }
    }

    /// The first glyph of a line that has not been rasterized at that size.
    pub fn next_missing(&self, glyphs: &Vec<Glyph>, px: u32) -> (r: Option<u16>)
        ensures
            match r {
                Some(id) => exists|k: int|
                    {
                        &&& 0 <= k < glyphs@.len()
                        &&& #[trigger] glyphs@[k].id == id
                        &&& !known(self@, glyphs@[k], px)
                        &&& forall|j: int|
                            0 <= j < k ==> known(self@, #[trigger] glyphs@[j], px)
                    },
                None => forall|j: int|
                    0 <= j < glyphs@.len() ==> known(self@, #[trigger] glyphs@[j], px),
            },
    {
        let mut i: usize = 0;
        while i < glyphs.len()
            invariant
                i <= glyphs@.len(),
                forall|j: int| 0 <= j < i ==> known(self@, #[trigger] glyphs@[j], px),
            decreases glyphs@.len() - i,
        {
            let g = glyphs[i];
            if !g.space && !self.cache.contains_key(&key_of(g.id, px)) {
                assert(glyphs@[i as int].id == g.id);
                return Some(g.id);
            }
            i = i + 1;
        }
        None
    }

    /// Lays out one line at `px` physical pixels, adding `tracking` of extra
    /// advance per glyph. Quads are relative to the line box's top-left.
    pub fn layout(
        &self,
        metrics: Option<LineMetrics>,
        glyphs: &Vec<Glyph>,
        px: u32,
        tracking: i32,
    ) -> (r: LaidText)
        requires
            self@.wf(),
            glyphs@.len() <= LINE_LIMIT,
        ensures
            r@ == laid(self@, metrics, glyphs@, px, tracking as int),
            r@.ok(),
    {
        let m = match metrics {
            None => return LaidText { quads: Vec::new(), w: 0, h: 0 },
            Some(m) => m,
        };
        let mut out: Vec<GlyphQuad> = Vec::new();
        let mut at: i64 = 0;
        let mut i: usize = 0;
        while i < glyphs.len()
            invariant
                i <= glyphs@.len() <= LINE_LIMIT,
                self@.wf(),
                at == pen(glyphs@, tracking as int, i as int),
                out@ == quads(self@, glyphs@, px, m.ascent as int, tracking as int, i as int),
                forall|k: int| 0 <= k < out@.len() ==> quad_ok(#[trigger] out@[k]),
            decreases glyphs@.len() - i,
        {
            let g = glyphs[i];
            proof {
                lemma_pen_bounds(glyphs@, tracking, i as int);
                lemma_pen_bounds(glyphs@, tracking, i + 1);
            }
            if !g.space {
                match self.lookup(g.id, px) {
                    Some(e) => {
                        assert(self@.placed(self@.cache[key_for(g.id, px)]));
                        out.push(
                            GlyphQuad {
                                x: at + e.left as i64,
                                y: m.ascent as i64 + e.top as i64,
                                w: e.w as i64 * PX,
                                h: e.h as i64 * PX,
                                texels: Patch { x: e.ax, y: e.ay, w: e.w, h: e.h },
                            },
                        );
                    },
                    None => {},
                }
            }
            at = at + g.advance as i64 + tracking as i64;
            i = i + 1;
        }
        if glyphs.len() > 0 {
            proof {
                lemma_pen_bounds(glyphs@, tracking, glyphs@.len() as int);
            }
            at = at - tracking as i64;
        }
        LaidText { quads: out, w: at, h: m.ascent as i64 - m.descent as i64 }
    }
}

/// A texel that has changed since the last upload.
pub open spec fn stale(dirty: Seq<Patch>, x: int, y: int) -> bool {
    exists|k: int| 0 <= k < dirty.len() && #[trigger] dirty[k].holds(x, y)
}

/// Whether a texture that holds `texture` shows the atlas everywhere but in
/// the parts that are to be uploaded.
pub open spec fn mirrors(texture: Seq<u8>, s: AtlasState) -> bool {
    &&& texture.len() == 2_048 * 2_048
    &&& forall|x: int, y: int|
        0 <= x < 2_048 && 0 <= y < 2_048 && !stale(s.dirty, x, y) ==> texture[#[trigger] texel(
            x,
            y,
        )] == s.atlas[texel(x, y)]
}

/// Uploading the changed parts alone keeps a texture up to date: whatever
/// happens to the atlas, the texels that are not to be uploaded are right.
pub proof fn uploads_keep_the_texture_current(
    texture: Seq<u8>,
    s: AtlasState,
    key: u64,
    raster: Option<Raster>,
)
    requires
        s.wf(),
        complete(raster),
        mirrors(texture, s),
    ensures
        mirrors(texture, s.learned(key, raster)),
        mirrors(texture, s.begun()),
{
    let t = s.learned(key, raster);
    assert forall|x: int, y: int|
        0 <= x < 2_048 && 0 <= y < 2_048 && !stale(t.dirty, x, y) implies texture[#[trigger] texel(
        x,
        y,
    )] == t.atlas[texel(x, y)] by {
        assert(texel(x, y) % 2_048 == x && texel(x, y) / 2_048 == y);
        if t.dirty.len() > s.dirty.len() {
            assert(!t.dirty[s.dirty.len() as int].holds(x, y));
        }
        assert forall|k: int| 0 <= k < s.dirty.len() implies !(#[trigger] s.dirty[k].holds(x, y)) by {
            assert(t.dirty[k] == s.dirty[k]);
            assert(!t.dirty[k].holds(x, y));
        }
    }
    let b = s.begun();
    if s.full {
        assert forall|x: int, y: int| 0 <= x < 2_048 && 0 <= y < 2_048 implies stale(
            b.dirty,
            x,
            y,
        ) by {
            assert(b.dirty[0].holds(x, y));
        }
    }
}

/// Glyphs never overlap, and learning one leaves the texels of every other
/// that stays as they were. The new one's texels are its raster.
pub proof fn glyphs_keep_their_texels(
    s: AtlasState,
    key: u64,
    raster: Option<Raster>,
    other: u64,
    x: int,
    y: int,
)
    requires
        s.wf(),
        complete(raster),
        0 <= x < 2_048,
        0 <= y < 2_048,
        s.learned(key, raster).cache.dom().contains(other),
        s.learned(key, raster).cache[other] is Some,
        s.learned(key, raster).cache[other]->0.holds(x, y),
    ensures
        other != key ==> s.cache.dom().contains(other) && s.cache[other] == s.learned(
            key,
            raster,
        ).cache[other] && s.learned(key, raster).atlas[texel(x, y)] == s.atlas[texel(x, y)],
        other == key ==> raster is Some && s.learned(key, raster).atlas[texel(x, y)]
            == raster->0.coverage@[s.learned(key, raster).cache[other]->0.place(x, y)],
{
    let t = s.learned(key, raster);
    lemma_learning_keeps_order(s, key, raster);
    assert(texel(x, y) % 2_048 == x && texel(x, y) / 2_048 == y);
    if other != key {
        assert(t.cache.dom().contains(key));
        assert(separate(t.cache[key], t.cache[other]));
    }
}

/// What was laid out stays good for the rest of the frame: until the next
/// frame begins, a glyph the atlas knows keeps its place.
pub proof fn known_glyphs_stay_put(
    s: AtlasState,
    id: u16,
    px: u32,
    raster: Option<Raster>,
    other: u16,
    size: u32,
)
    requires
        s.cache.dom().contains(key_for(other, size)),
        key_for(other, size) != key_for(id, px),
    ensures
        s.learned(key_for(id, px), raster).glyph_at(other, size) == s.glyph_at(other, size),
{
}

/// A refused glyph is not asked for again before the atlas is wiped, and an
/// atlas that refused one is wiped when the next frame begins.
pub proof fn a_refusal_is_remembered(s: AtlasState, id: u16, px: u32, raster: Option<Raster>)
    requires
        raster matches Some(r) && r.w > 0 && r.h > 0 && !s.fits(r.w as int, r.h as int) && possible(
            r.w as int,
            r.h as int,
        ),
    ensures
        s.learned(key_for(id, px), raster).cache.dom().contains(key_for(id, px)),
        s.learned(key_for(id, px), raster).glyph_at(id, px) is None,
        s.learned(key_for(id, px), raster).atlas == s.atlas,
        s.learned(key_for(id, px), raster).begun().cache == Map::<u64, Option<Entry>>::empty(),
{
}

} // verus!
