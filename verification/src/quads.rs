//! The renderer's work, seen from outside: what is drawn of each item, where,
//! and with which pictures bound; and how text is set.

use crate::items::{Align, ItemState, RectPx, Rgba, Uv, VAlign, VideoMode};
use crate::render::{
    a_frame_draws_its_items_in_order, chip, corner, glyph_quad, key_of, later_items_lie_on_top,
    logical, quad_of, text_fits, text_quads, DrawState, Instance, Param, Sheet,
};
use crate::text::{
    key_for, laid, pen, quads, run_width, AtlasState, Entry, Glyph, GlyphQuad, LaidState,
    LineMetrics, Patch, Raster,
};
use crate::textures::{levels, long_side};
use crate::units::{round_div_bounds, round_div_is_nearest, ONE};
use vstd::prelude::*;

verus! {

/// A picture is drawn in its item's place, with the part of the texture that the
/// item names, by the shader's number of its mode: 1 plain, 2 delta, 3 split, 4
/// checker, 5 blend. A checker's tile is a length, every other setting a ratio.
/// The pair bound is the item's own, where those textures are there.
pub proof fn a_picture_is_drawn_as_its_item_says(
    a: usize,
    b: usize,
    r: RectPx,
    uv: Uv,
    mode: VideoMode,
    p0: i64,
    p1: i64,
    textures: int,
    logo: Uv,
)
    requires
        textures > 0,
    ensures
        ({
            let item = ItemState::Video { a, b, r, uv, mode, p0, p1 };
            &&& a < textures && b < textures ==> key_of(item, textures) == Some((a, b))
            &&& quad_of(item, logo) matches Some(q)
            &&& q.r == r && q.uv == uv
            &&& q.mode == match mode {
                VideoMode::Tex => 1int,
                VideoMode::Delta => 2,
                VideoMode::Split => 3,
                VideoMode::Checker => 4,
                VideoMode::Blend => 5,
            }
            &&& q.p0 == if mode == VideoMode::Checker { Param::Px(p0) } else { Param::Ratio(p0) }
            &&& q.p1 == Param::Ratio(p1)
        }),
{
}

/// Every other item is drawn in its place, in its colours, by a number of its
/// own; it needs no pair.
pub proof fn other_items_are_drawn_in_their_place(item: ItemState, textures: int, logo: Uv)
    requires
        !(item is Video),
        !(item is Text),
    ensures
        key_of(item, textures) is None,
        ({
            &&& quad_of(item, logo) matches Some(q)
            &&& match item {
                ItemState::Rect(i) => q.r == i.r && q.color == i.color && q.mode == 0 && q.p0
                    == Param::Px(i.radius) && q.p1 == Param::Px(i.border_w) && q.flag == i.fade_up
                    && (q.uv.u0, q.uv.v0, q.uv.u1, q.uv.v1) == (
                    i.border_color.r,
                    i.border_color.g,
                    i.border_color.b,
                    i.border_color.a,
                ),
                ItemState::Mask { r, .. } => q.r == r && q.mode == 8 && q.uv == Uv {
                    u0: 0,
                    v0: 0,
                    u1: 1_000_000_000,
                    v1: 1_000_000_000,
                },
                ItemState::Triangle { r, color, left, radius } => q.r == r && q.color == color
                    && q.mode == 9 && q.flag == left && q.p0 == Param::Px(radius),
                ItemState::Logo { r, alpha } => q.r == r && q.uv == logo && q.mode == 7
                    && q.color.a == alpha,
                _ => false,
            }
        }),
{
}

/// Whether quad `q` is drawn with the pictures `a` and `b` bound.
pub open spec fn bound(d: DrawState, q: int, a: usize, b: usize) -> bool {
    exists|k: int|
        0 <= k < d.batches.len() && (#[trigger] d.batches[k]).start <= q < d.batches[k].end
            && d.batches[k].a == a && d.batches[k].b == b
}

proof fn lemma_bound_pushed(
    d: DrawState,
    key: Option<(usize, usize)>,
    inst: Instance,
    q: int,
    a: usize,
    b: usize,
)
    requires
        d.wf(),
        d.data.len() < u32::MAX,
        bound(d, q, a, b),
    ensures
        bound(d.pushed(key, inst), q, a, b),
{
    let k = choose|k: int|
        0 <= k < d.batches.len() && (#[trigger] d.batches[k]).start <= q < d.batches[k].end
            && d.batches[k].a == a && d.batches[k].b == b;
    let e = d.pushed(key, inst);
    if k < d.batches.len() - 1 {
        assert(e.batches[k] == d.batches[k]);
    } else {
        assert(e.batches[k].start == d.batches[k].start);
        assert(e.batches[k].end >= d.batches[k].end);
    }
}

proof fn lemma_bound_stacked(d: DrawState, insts: Seq<Instance>, q: int, a: usize, b: usize)
    requires
        d.wf(),
        d.data.len() + insts.len() <= u32::MAX,
        bound(d, q, a, b),
    ensures
        bound(d.stacked(insts), q, a, b),
    decreases insts.len(),
{
    if insts.len() > 0 {
        let front = insts.drop_last();
        lemma_bound_stacked(d, front, q, a, b);
        crate::render::stacking_keeps_order(d, front);
        lemma_bound_pushed(d.stacked(front), None, insts.last(), q, a, b);
    }
}

/// Every picture of a frame is drawn with its own pair of textures bound,
/// whatever is drawn after it: its quad stands in the list where the items before
/// it ended, in a draw call of that pair.
pub proof fn pictures_are_drawn_with_their_own_pair(sheet: Sheet, i: int, m: int)
    requires
        0 <= i < m <= sheet.items.len(),
        sheet.items[i] is Video,
        sheet.items[i]->a < sheet.textures && sheet.items[i]->b < sheet.textures,
        sheet.upto(i).data.len() < u32::MAX,
    ensures
        ({
            let q = sheet.upto(i).data.len() as int;
            let d = sheet.upto(m);
            &&& q < d.data.len()
            &&& Some(d.data[q]) == quad_of(sheet.items[i], sheet.logo)
            &&& bound(d, q, sheet.items[i]->a, sheet.items[i]->b)
        }),
    decreases m,
{
    let q = sheet.upto(i).data.len() as int;
    later_items_lie_on_top(sheet, i, m - 1);
    later_items_lie_on_top(sheet, i, i);
    let s = sheet.upto(m - 1);
    a_frame_draws_its_items_in_order(sheet, m - 1);
    let d = sheet.upto(m);
    if i == m - 1 {
        crate::render::the_draw_calls_cover_the_quads(
            s,
            key_of(sheet.items[i], sheet.textures),
            sheet.quads(i)[0],
        );
        let k = d.batches.len() - 1;
        assert(d.batches[k].start <= q < d.batches[k].end);
    } else {
        pictures_are_drawn_with_their_own_pair(sheet, i, m - 1);
        let (a, b) = (sheet.items[i]->a, sheet.items[i]->b);
        if !sheet.skips(m - 1, s.data.len()) {
            match sheet.items[m - 1] {
                ItemState::Text(_) => lemma_bound_stacked(s, sheet.quads(m - 1), q, a, b),
                item => lemma_bound_pushed(
                    s,
                    key_of(item, sheet.textures),
                    sheet.quads(m - 1)[0],
                    q,
                    a,
                    b,
                ),
            }
        }
    }
}

/// Whether `r` is the logical length of `v` physical units, to the nearest.
pub open spec fn is_logical(r: int, v: int, scale: int) -> bool {
    let n = v * 1_000_000_000;
    2 * (scale * r) <= 2 * n + scale && 2 * n < 2 * (scale * r) + scale
}

proof fn lemma_logical(v: int, scale: int)
    requires
        scale > 0,
    ensures
        is_logical(logical(v, scale), v, scale),
{
    round_div_is_nearest(v * ONE, scale);
    let r = logical(v, scale);
    assert(2 * scale * r == 2 * (scale * r)) by (nonlinear_arith);
}

/// A run of text hangs from its anchor: by its left edge, its middle or its right
/// edge, and by its top or its middle, to within a unit.
pub proof fn text_hangs_from_its_anchor(
    t: crate::items::TextState,
    run: LaidState,
    scale: int,
)
    requires
        scale > 0,
    ensures
        exists|w: int, h: int|
            {
                &&& #[trigger] is_logical(w, run.w, scale)
                &&& #[trigger] is_logical(h, run.h, scale)
                &&& {
                    let (x, y) = corner(t, run, scale);
                    &&& t.align == Align::Left ==> x == t.x
                    &&& t.align == Align::Center ==> -1 <= 2 * (x - t.x) + w <= 1
                    &&& t.align == Align::Right ==> x + w == t.x
                    &&& t.valign == VAlign::Top ==> y == t.y
                    &&& t.valign == VAlign::Middle ==> -1 <= 2 * (y - t.y) + h <= 1
                }
            },
{
    let (w, h) = (logical(run.w, scale), logical(run.h, scale));
    lemma_logical(run.w, scale);
    lemma_logical(run.h, scale);
    round_div_is_nearest(w, 2);
    round_div_is_nearest(h, 2);
}

/// A glyph is drawn at its place in the run, in its size, with its own texels of
/// the atlas, in the text's colour.
pub proof fn glyphs_are_drawn_in_their_place(
    q: GlyphQuad,
    at: (int, int),
    color: Rgba,
    scale: int,
)
    requires
        scale > 0,
        crate::render::glyph_fits(q, at, scale),
        crate::text::quad_ok(q),
    ensures
        ({
            let g = glyph_quad(q, at, color, scale);
            &&& is_logical(g.r.x - at.0, q.x as int, scale)
            &&& is_logical(g.r.y - at.1, q.y as int, scale)
            &&& is_logical(g.r.w as int, q.w as int, scale)
            &&& is_logical(g.r.h as int, q.h as int, scale)
            &&& g.color == color && g.mode == 6
            &&& is_logical(g.uv.u0 as int, q.texels.x as int, 2_048)
            &&& is_logical(g.uv.v0 as int, q.texels.y as int, 2_048)
            &&& is_logical(g.uv.u1 as int, q.texels.x + q.texels.w, 2_048)
            &&& is_logical(g.uv.v1 as int, q.texels.y + q.texels.h, 2_048)
        }),
{
    lemma_logical(q.x as int, scale);
    lemma_logical(q.y as int, scale);
    lemma_logical(q.w as int, scale);
    lemma_logical(q.h as int, scale);
    lemma_texel(q.texels.x as int);
    lemma_texel(q.texels.y as int);
    lemma_texel(q.texels.x + q.texels.w);
    lemma_texel(q.texels.y + q.texels.h);
}

proof fn lemma_texel(k: int)
    requires
        0 <= k <= 2_048,
    ensures
        is_logical(crate::render::along(k) as int, k, 2_048),
{
    lemma_logical(k, 2_048);
    round_div_bounds(k * ONE, 2_048, 0, ONE as int);
}

/// A run's quads: what lies behind it first, then one for each glyph laid out, in
/// order.
pub proof fn a_run_draws_every_glyph(t: crate::items::TextState, run: LaidState, scale: int, k: int)
    requires
        0 <= k < run.quads.len(),
    ensures
        ({
            let all = text_quads(t, run, scale);
            let n = all.len() - run.quads.len();
            &&& t.bg is None ==> n == 0
            &&& t.bg matches Some(bg) ==> n == if bg.shadow.a > 0 { 2int } else { 1 }
            &&& all[n + k] == glyph_quad(run.quads[k], corner(t, run, scale), t.color, scale)
        }),
{
}

/// The chip behind a run is the run's box, widened by its padding on every side.
pub proof fn a_chip_lies_round_its_run(
    t: crate::items::TextState,
    bg: crate::items::TextBg,
    run: LaidState,
    scale: int,
)
    requires
        scale > 0,
        t.bg == Some(bg),
        crate::render::backing_fits(t, run, scale),
    ensures
        ({
            let r = chip(t, bg, run, scale);
            let (x, y) = corner(t, run, scale);
            &&& r.x == x - bg.pad_x && r.y == y - bg.pad_y
            &&& is_logical(r.w - 2 * bg.pad_x, run.w, scale)
            &&& is_logical(r.h - 2 * bg.pad_y, run.h, scale)
        }),
{
    lemma_logical(run.w, scale);
    lemma_logical(run.h, scale);
}

/// Text of ordinary numbers is never left out of a frame.
pub proof fn ordinary_text_is_drawn(t: crate::items::TextState, run: LaidState, scale: int)
    requires
        scale >= 1_000_000,
        -0x1_0000_0000_0000 <= t.x <= 0x1_0000_0000_0000,
        -0x1_0000_0000_0000 <= t.y <= 0x1_0000_0000_0000,
        t.bg is None,
        0 <= run.w <= 0x1_0000_0000_0000,
        0 <= run.h <= 0x1_0000_0000_0000,
        forall|k: int|
            0 <= k < run.quads.len() ==> {
                &&& -0x1_0000_0000_0000 <= (#[trigger] run.quads[k]).x <= 0x1_0000_0000_0000
                &&& -0x1_0000_0000_0000 <= run.quads[k].y <= 0x1_0000_0000_0000
                &&& 0 <= run.quads[k].w <= 0x1_0000_0000_0000
                &&& 0 <= run.quads[k].h <= 0x1_0000_0000_0000
            },
    ensures
        text_fits(t, run, scale),
{
    reveal(text_fits);
    lemma_small(run.w, scale);
    lemma_small(run.h, scale);
    round_div_is_nearest(logical(run.w, scale), 2);
    round_div_is_nearest(logical(run.h, scale), 2);
    assert forall|k: int| 0 <= k < run.quads.len() implies crate::render::glyph_fits(
        #[trigger] run.quads[k],
        corner(t, run, scale),
        scale,
    ) by {
        lemma_small(run.quads[k].x as int, scale);
        lemma_small(run.quads[k].y as int, scale);
        lemma_small(run.quads[k].w as int, scale);
        lemma_small(run.quads[k].h as int, scale);
    }
}

proof fn lemma_small(v: int, scale: int)
    requires
        scale >= 1_000_000,
        -0x1_0000_0000_0000 <= v <= 0x1_0000_0000_0000,
    ensures
        -0x400_0000_0000_0000 <= logical(v, scale) <= 0x400_0000_0000_0000,
{
    let b = 0x400_0000_0000_0000int;
    assert((-b) * scale <= v * ONE && v * ONE <= b * scale) by (nonlinear_arith)
        requires
            scale >= 1_000_000,
            b == 0x400_0000_0000_0000,
            -0x1_0000_0000_0000 <= v <= 0x1_0000_0000_0000,
            ONE == 1_000_000_000,
    ;
    round_div_bounds(v * ONE, scale, -b, b);
}

/// The pen moves on by each glyph's advance and the tracking; a run is as wide as
/// its glyphs advance, the tracking counted between them alone.
pub proof fn the_pen_moves_on(glyphs: Seq<Glyph>, tracking: int, k: int)
    requires
        0 <= k < glyphs.len(),
    ensures
        pen(glyphs, tracking, 0) == 0,
        pen(glyphs, tracking, k + 1) == pen(glyphs, tracking, k) + glyphs[k].advance + tracking,
        glyphs.len() == 1 ==> run_width(glyphs, tracking) == glyphs[0].advance,
        k + 1 == glyphs.len() ==> run_width(glyphs, tracking) == pen(glyphs, tracking, k)
            + glyphs[k].advance,
        run_width(Seq::<Glyph>::empty(), tracking) == 0,
{
    reveal_with_fuel(pen, 3);
}

/// A line is laid out glyph by glyph: one that the atlas has is set at the pen,
/// moved by its bearing, on the line's ascent, in its own size and with its own
/// texels; white space, and what the atlas has nothing for, sets none.
pub proof fn glyphs_are_set_at_the_pen(
    atlas: AtlasState,
    glyphs: Seq<Glyph>,
    px: u32,
    ascent: int,
    tracking: int,
    k: int,
)
    requires
        0 <= k < glyphs.len(),
    ensures
        ({
            let g = glyphs[k];
            let was = quads(atlas, glyphs, px, ascent, tracking, k);
            let now = quads(atlas, glyphs, px, ascent, tracking, k + 1);
            let x = pen(glyphs, tracking, k);
            let key = key_for(g.id, px);
            let known = atlas.cache.dom().contains(key) && atlas.cache[key] is Some;
            &&& g.space || !known ==> now == was
            &&& !g.space && known ==> {
                let e = atlas.cache[key]->0;
                &&& now.len() == was.len() + 1
                &&& now.drop_last() == was
                &&& now.last().texels == (Patch { x: e.ax, y: e.ay, w: e.w, h: e.h })
                &&& i64::MIN <= x + e.left <= i64::MAX ==> now.last().x == x + e.left
                &&& i64::MIN <= ascent + e.top <= i64::MAX ==> now.last().y == ascent + e.top
                &&& now.last().w == 100_000 * e.w && now.last().h == 100_000 * e.h
            }
        }),
{
    let was = quads(atlas, glyphs, px, ascent, tracking, k);
    let now = quads(atlas, glyphs, px, ascent, tracking, k + 1);
    if now.len() > was.len() {
        assert(now.drop_last() =~= was);
    }
}

/// A line's box is as high as the font goes up and down from its baseline.
pub proof fn a_line_is_as_high_as_its_font(
    atlas: AtlasState,
    m: LineMetrics,
    glyphs: Seq<Glyph>,
    px: u32,
    tracking: int,
)
    ensures
        laid(atlas, Some(m), glyphs, px, tracking).h == m.ascent - m.descent,
        laid(atlas, Some(m), glyphs, px, tracking).w == run_width(glyphs, tracking),
        laid(atlas, None, glyphs, px, tracking).quads.len() == 0,
{
}

/// A glyph finds room in the atlas while there is any: on the row that is being
/// filled, else below it, a texel apart from its neighbours. It is remembered
/// where it was put, with its bearing, and its coverage stands there.
pub proof fn a_glyph_finds_room(
    s: AtlasState,
    key: u64,
    raster: Raster,
    x: int,
    y: int,
)
    requires
        s.wf(),
        raster.w > 0 && raster.h > 0,
        raster.w < 2_048 && raster.h < 2_048,
        raster.coverage@.len() == raster.w * raster.h,
        0 <= x < raster.w,
        0 <= y < raster.h,
    ensures
        ({
            let same = s.cur_x + raster.w + 1 <= 2_048;
            let (ax, ay) = if same {
                (s.cur_x as int, s.cur_y as int)
            } else {
                (0int, s.cur_y + s.row_h + 1)
            };
            let t = s.learned(key, Some(raster));
            &&& ay + raster.h + 1 <= 2_048 ==> {
                &&& t.cache.dom().contains(key)
                &&& t.cache[key] == Some(
                    Entry {
                        ax: ax as u32,
                        ay: ay as u32,
                        w: raster.w,
                        h: raster.h,
                        left: raster.left,
                        top: raster.top,
                    },
                )
                &&& t.atlas[(ay + y) * 2_048 + ax + x] == raster.coverage@[y * raster.w + x]
                &&& t.dirty.last() == (Patch {
                    x: ax as u32,
                    y: ay as u32,
                    w: raster.w,
                    h: raster.h,
                })
            }
            &&& ay + raster.h + 1 > 2_048 ==> t.full && t.cache[key] is None && t.atlas == s.atlas
        }),
{
    let same = s.cur_x + raster.w + 1 <= 2_048;
    let (ax, ay) = if same {
        (s.cur_x as int, s.cur_y as int)
    } else {
        (0int, s.cur_y + s.row_h + 1)
    };
    if ay + raster.h + 1 <= 2_048 {
        let i = (ay + y) * 2_048 + ax + x;
        assert(i % 2_048 == ax + x && i / 2_048 == ay + y);
    }
}

/// Textures have as many levels as it takes to halve the longer side to one
/// pixel, up to four.
pub proof fn textures_have_up_to_four_levels(size: (u32, u32))
    ensures
        ({
            let m = if size.0 >= size.1 { size.0 } else { size.1 };
            levels(size) == if m == 0 {
                0int
            } else if m == 1 {
                1
            } else if m <= 3 {
                2
            } else if m <= 7 {
                3
            } else {
                4
            }
        }),
{
    let m = long_side(size);
    reveal_with_fuel(crate::textures::bit_length, 5);
    lemma_bits(m / 16);
}

proof fn lemma_bits(n: int)
    ensures
        crate::textures::bit_length(n) >= 0,
    decreases n,
{
    if n > 0 {
        lemma_bits(n / 2);
    }
}

/// A text's glyphs are those of its characters, in order; white space draws
/// none.
pub proof fn a_text_is_spelled_by_its_characters(
    face: (Seq<u8>, u32),
    text: Seq<char>,
    i: int,
)
    requires
        0 <= i < text.len(),
    ensures
        ({
            let s = crate::font::spelling(face, text);
            &&& s.len() == text.len()
            &&& s[i].id == crate::font::glyph_number(face, text[i])
            &&& text[i] == ' ' ==> s[i].space
            &&& '!' <= text[i] && text[i] <= '~' ==> !s[i].space
        }),
{
}

/// Sizes that lie a pixel or more apart are remembered apart.
pub proof fn sizes_a_pixel_apart_are_told_apart(id: u16, px: u32, other: u32)
    requires
        px + 100_000 <= other,
    ensures
        key_for(id, px) != key_for(id, other),
{
    crate::text::keys_differ(id, px, id, other);
}

/// A picture that has no texture yet is drawn with the last there is.
pub proof fn a_missing_texture_is_the_last(i: usize, textures: int)
    requires
        0 < textures <= usize::MAX,
    ensures
        i < textures ==> crate::render::slot(i, textures) == i,
        i >= textures ==> crate::render::slot(i, textures) == textures - 1,
{
}

/// The wordmark is shown in the shape of its trimmed picture, from the part of
/// the texture that holds it, to the nearest billionth.
pub proof fn the_wordmark_is_shown_trimmed(b: crate::logo::Bounds, w: int, h: int)
    requires
        b.x0 < b.x1 <= w,
        b.y0 < b.y1 <= h,
        w <= u32::MAX,
        h <= u32::MAX,
    ensures
        ({
            let l = crate::logo::part(b, w, h);
            &&& is_logical(l.aspect as int, b.x1 - b.x0, b.y1 - b.y0)
            &&& is_logical(l.uv.u0 as int, b.x0 as int, w)
            &&& is_logical(l.uv.v0 as int, b.y0 as int, h)
            &&& is_logical(l.uv.u1 as int, b.x1 as int, w)
            &&& is_logical(l.uv.v1 as int, b.y1 as int, h)
        }),
{
    lemma_share_of(b.x1 - b.x0, b.y1 - b.y0);
    lemma_share_of(b.x0 as int, w);
    lemma_share_of(b.y0 as int, h);
    lemma_share_of(b.x1 as int, w);
    lemma_share_of(b.y1 as int, h);
}

proof fn lemma_share_of(a: int, b: int)
    requires
        0 <= a <= u32::MAX,
        b >= 1,
    ensures
        is_logical(crate::units::ratio_of(a, b), a, b),
        0 <= crate::units::ratio_of(a, b) <= i64::MAX,
{
    lemma_logical(a, b);
    crate::units::round_div_sign(a * ONE, b);
}

/// An atlas that has refused a glyph starts the next frame empty, with the whole
/// of it to be uploaded; any other starts it as it is.
pub proof fn a_full_atlas_starts_over(s: AtlasState)
    ensures
        !s.full ==> s.begun() == s,
        s.full ==> {
            let t = s.begun();
            &&& !t.full && t.cur_x == 0 && t.cur_y == 0 && t.row_h == 0
            &&& t.cache == Map::<u64, Option<Entry>>::empty()
            &&& t.dirty == seq![Patch { x: 0, y: 0, w: 2_048, h: 2_048 }]
            &&& t.atlas.len() == 2_048 * 2_048
            &&& forall|i: int| 0 <= i < t.atlas.len() ==> t.atlas[i] == 0u8
        },
{
}

/// A wordmark's trimmed bounds hold every pixel that shows, and touch one on each
/// side: one shows where its fourth byte is not 0.
pub proof fn trimmed_bounds_hold_the_mark(
    b: crate::logo::Bounds,
    pixels: Seq<u8>,
    w: int,
    h: int,
    x: int,
    y: int,
)
    requires
        b.wraps(pixels, w, h),
        0 <= x < w,
        0 <= y < h,
    ensures
        pixels[4 * (y * w + x) + 3] != 0 ==> b.x0 <= x < b.x1 && b.y0 <= y < b.y1,
        exists|k: int| 0 <= k < h && #[trigger] alpha(pixels, w, b.x0 as int, k) != 0,
        exists|k: int| 0 <= k < h && #[trigger] alpha(pixels, w, b.x1 - 1, k) != 0,
        exists|k: int| 0 <= k < w && #[trigger] alpha(pixels, w, k, b.y0 as int) != 0,
        exists|k: int| 0 <= k < w && #[trigger] alpha(pixels, w, k, b.y1 - 1) != 0,
{
    if pixels[4 * (y * w + x) + 3] != 0 {
        assert(crate::logo::inked(pixels, w, x, y));
    }
    let k = choose|k: int|
        0 <= k < h && #[trigger] crate::logo::inked(pixels, w, b.x0 as int, k);
    assert(alpha(pixels, w, b.x0 as int, k) != 0);
    let k = choose|k: int| 0 <= k < h && #[trigger] crate::logo::inked(pixels, w, b.x1 - 1, k);
    assert(alpha(pixels, w, b.x1 - 1, k) != 0);
    let k = choose|k: int|
        0 <= k < w && #[trigger] crate::logo::inked(pixels, w, k, b.y0 as int);
    assert(alpha(pixels, w, k, b.y0 as int) != 0);
    let k = choose|k: int| 0 <= k < w && #[trigger] crate::logo::inked(pixels, w, k, b.y1 - 1);
    assert(alpha(pixels, w, k, b.y1 - 1) != 0);
}

/// How much a pixel shows.
pub open spec fn alpha(pixels: Seq<u8>, w: int, x: int, y: int) -> u8 {
    pixels[4 * (y * w + x) + 3]
}

} // verus!
