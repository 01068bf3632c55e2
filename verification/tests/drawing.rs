use abner::font::{font_candidates, open_font, spell, Spelled};
use abner::items::{Align, Item, RectItem, RectPx, Rgba, TextBg, TextItem, Upload, Uv, VAlign, VideoMode};
use abner::render::{
    draw_list, text_in_range, texture_slot, Batch, DrawList, Instance, Param, MODE_GLYPH, MODE_LOGO,
    MODE_MASK, MODE_RECT, MODE_TRIANGLE,
};
use abner::text::{Glyph, GlyphQuad, LaidText, LineMetrics, Patch, Raster, TextCtx, ATLAS};
use abner::textures::{
    grown_capacity, mip_levels, pick_alpha, pick_surface_format, plan_mask, plan_textures,
    surface_size, takes_upload, texture_limit, texture_sizes, AlphaMode, MaskPlan, MaskStamp,
};

const ONE: i64 = 1_000_000_000;

fn be16(out: &mut Vec<u8>, v: u16) {
    out.extend_from_slice(&v.to_be_bytes());
}

fn be32(out: &mut Vec<u8>, v: u32) {
    out.extend_from_slice(&v.to_be_bytes());
}

/// The smallest font there is: it knows two letters.
fn tiny_font() -> Vec<u8> {
    let mut cmap = Vec::new();
    for v in [0u16, 1, 0, 3] {
        be16(&mut cmap, v);
    }
    be32(&mut cmap, 12);
    for v in [6u16, 14, 0, 65, 2, 5, 7] {
        be16(&mut cmap, v);
    }
    let mut head = Vec::new();
    be32(&mut head, 0x0001_0000);
    be32(&mut head, 0);
    be32(&mut head, 0);
    be32(&mut head, 0x5F0F_3CF5);
    be16(&mut head, 0);
    be16(&mut head, 1_000);
    head.extend_from_slice(&[0; 16]);
    for v in [0u16, 0, 0, 0, 0, 8, 2, 0, 0] {
        be16(&mut head, v);
    }
    let mut hhea = Vec::new();
    be32(&mut hhea, 0x0001_0000);
    for v in [800u16, 0, 0, 1_000, 0, 0, 0, 1, 0, 0, 0, 0, 0, 0, 0, 0] {
        be16(&mut hhea, v);
    }
    let mut maxp = Vec::new();
    be32(&mut maxp, 0x0000_5000);
    be16(&mut maxp, 9);
    let tables = [(b"cmap", cmap), (b"head", head), (b"hhea", hhea), (b"maxp", maxp)];
    let mut out = Vec::new();
    be32(&mut out, 0x0001_0000);
    for v in [4u16, 64, 2, 0] {
        be16(&mut out, v);
    }
    let mut at = 12 + 16 * tables.len();
    for (tag, data) in &tables {
        out.extend_from_slice(*tag);
        be32(&mut out, 0);
        be32(&mut out, at as u32);
        be32(&mut out, data.len() as u32);
        at += (data.len() + 3) / 4 * 4;
    }
    for (_, data) in &tables {
        out.extend_from_slice(data);
        while out.len() % 4 != 0 {
            out.push(0);
        }
    }
    out
}

#[test]
fn a_font_spells_a_text() {
    let font = open_font(tiny_font()).expect("a font");
    assert_eq!(
        spell(&font, "AB z\u{2003}"),
        vec![
            Spelled { id: 5, space: false },
            Spelled { id: 7, space: false },
            Spelled { id: 0, space: true },
            Spelled { id: 0, space: false },
            Spelled { id: 0, space: true },
        ]
    );
    assert!(open_font(b"no font at all".to_vec()).is_none());
    assert_eq!(font_candidates().len(), 5);
    assert_eq!(font_candidates()[0], "/System/Library/Fonts/SFNSMono.ttf");
}

fn raster(w: u32, h: u32, fill: u8) -> Option<Raster> {
    Some(Raster { w, h, left: 50_000, top: -300_000, coverage: vec![fill; (w * h) as usize] })
}

fn glyph(id: u16) -> Glyph {
    Glyph { id, advance: 600_000, space: false }
}

#[test]
fn glyphs_pack_side_by_side() {
    let mut ctx = TextCtx::new();
    let line = vec![glyph(1), Glyph { id: 9, advance: 500_000, space: true }, glyph(2), glyph(1)];
    let mut asked = Vec::new();
    while let Some(id) = ctx.next_missing(&line, 1_200_000) {
        asked.push(id);
        ctx.learn(id, 1_200_000, raster(4 + id as u32, 8, 100 + id as u8));
    }
    assert_eq!(asked, vec![1, 2]);
    let laid = ctx.layout(Some(LineMetrics { ascent: 1_000_000, descent: -200_000 }), &line, 1_200_000, 25_000);
    assert_eq!(laid.h, 1_200_000);
    assert_eq!(laid.w, 600_000 + 500_000 + 600_000 + 600_000 + 3 * 25_000);
    assert_eq!(
        laid.quads,
        vec![
            GlyphQuad { x: 50_000, y: 700_000, w: 500_000, h: 800_000, texels: Patch { x: 0, y: 0, w: 5, h: 8 } },
            GlyphQuad {
                x: 625_000 + 525_000 + 50_000,
                y: 700_000,
                w: 600_000,
                h: 800_000,
                texels: Patch { x: 6, y: 0, w: 6, h: 8 },
            },
            GlyphQuad {
                x: 625_000 + 525_000 + 625_000 + 50_000,
                y: 700_000,
                w: 500_000,
                h: 800_000,
                texels: Patch { x: 0, y: 0, w: 5, h: 8 },
            },
        ]
    );
    let side = ATLAS as usize;
    for y in 0..10 {
        for x in 0..20 {
            let want = match (x, y) {
                (0..=4, 0..=7) => 101,
                (6..=11, 0..=7) => 102,
                _ => 0,
            };
            assert_eq!(ctx.atlas[y * side + x], want, "{x},{y}");
        }
    }
    assert_eq!(
        ctx.take_dirty(),
        vec![Patch { x: 0, y: 0, w: 5, h: 8 }, Patch { x: 6, y: 0, w: 6, h: 8 }]
    );
    assert!(ctx.take_dirty().is_empty());
    // Another size is another glyph; the nearest pixel decides.
    assert_eq!(ctx.next_missing(&line, 1_249_999), None);
    assert_eq!(ctx.next_missing(&line, 1_250_000), Some(1));
}

#[test]
fn a_row_ends_and_the_next_begins() {
    let mut ctx = TextCtx::new();
    ctx.learn(1, 0, raster(2_000, 20, 1));
    ctx.learn(2, 0, raster(100, 10, 2));
    assert_eq!(
        ctx.take_dirty(),
        vec![Patch { x: 0, y: 0, w: 2_000, h: 20 }, Patch { x: 0, y: 21, w: 100, h: 10 }]
    );
    // Nothing to draw is remembered too.
    ctx.learn(3, 0, None);
    ctx.learn(4, 0, raster(0, 5, 0));
    assert!(ctx.take_dirty().is_empty());
    assert_eq!(ctx.next_missing(&vec![glyph(3), glyph(4)], 0), None);
    assert!(ctx.layout(Some(LineMetrics { ascent: 0, descent: 0 }), &vec![glyph(3)], 0, 0).quads.is_empty());
}

#[test]
fn a_full_atlas_refuses_until_the_next_frame() {
    let mut ctx = TextCtx::new();
    ctx.learn(1, 0, raster(2_000, 1_500, 9));
    ctx.take_dirty();
    ctx.learn(2, 0, raster(2_000, 1_500, 9));
    assert!(ctx.full);
    assert!(ctx.take_dirty().is_empty());
    assert_eq!(ctx.next_missing(&vec![glyph(1), glyph(2)], 0), None);
    let m = Some(LineMetrics { ascent: 0, descent: 0 });
    assert_eq!(ctx.layout(m, &vec![glyph(1), glyph(2)], 0, 0).quads.len(), 1);
    ctx.begin_frame();
    assert!(!ctx.full);
    assert!(ctx.atlas.iter().all(|p| *p == 0));
    assert_eq!(ctx.take_dirty(), vec![Patch { x: 0, y: 0, w: ATLAS, h: ATLAS }]);
    assert_eq!(ctx.next_missing(&vec![glyph(2)], 0), Some(2));
    // A glyph that no atlas could hold does not wipe it.
    ctx.learn(3, 0, raster(3_000, 1, 1));
    assert!(!ctx.full);
}

#[test]
fn without_a_font_there_is_no_text() {
    let ctx = TextCtx::new();
    let laid = ctx.layout(None, &vec![glyph(1)], 1_200_000, 0);
    assert!(laid.quads.is_empty());
    assert_eq!((laid.w, laid.h), (0, 0));
}

fn rect(x: i64, y: i64, w: i64, h: i64) -> RectPx {
    RectPx { x, y, w, h }
}

const RED: Rgba = Rgba { r: ONE, g: 0, b: 0, a: ONE };

fn video(a: usize, b: usize) -> Item {
    Item::Video { a, b, r: rect(0, 0, 10, 10), uv: Uv::full(), mode: VideoMode::Tex, p0: 0, p1: 0 }
}

fn plain() -> Item {
    Item::Rect(RectItem::new(rect(1, 2, 3, 4), RED))
}

#[test]
fn quads_that_sample_nothing_ride_along() {
    let mut list = DrawList::new();
    for item in [plain(), video(0, 0), plain(), video(0, 1), plain(), video(0, 1), video(9, 1)] {
        list.item(&item, 3, Uv::full());
    }
    assert_eq!(list.data.len(), 7);
    assert_eq!(
        list.batches,
        vec![
            Batch { a: 0, b: 0, start: 0, end: 3 },
            Batch { a: 0, b: 1, start: 3, end: 6 },
            Batch { a: 2, b: 1, start: 6, end: 7 },
        ]
    );
    assert!(list.has_room(10));
    assert!(!list.has_room(0xffff_ffff));
    assert_eq!(texture_slot(1, 3), 1);
    assert_eq!(texture_slot(3, 3), 2);
}

#[test]
fn every_item_has_its_quad() {
    let mut list = DrawList::new();
    let mut framed = RectItem::default();
    framed.r = rect(1, 2, 3, 4);
    framed.border_color = RED;
    framed.border_w = 200_000;
    framed.radius = 500_000;
    framed.fade_up = true;
    list.item(&Item::Rect(framed), 1, Uv::full());
    assert_eq!(
        list.data[0],
        Instance {
            r: rect(1, 2, 3, 4),
            uv: Uv { u0: ONE, v0: 0, u1: 0, v1: ONE },
            color: Rgba::clear(),
            mode: MODE_RECT,
            p0: Param::Px(500_000),
            p1: Param::Px(200_000),
            flag: true,
        }
    );
    for (mode, p0) in [(VideoMode::Checker, Param::Px(6_400_000)), (VideoMode::Blend, Param::Ratio(6_400_000))] {
        list.item(
            &Item::Video { a: 0, b: 0, r: rect(0, 0, 1, 1), uv: Uv::full(), mode, p0: 6_400_000, p1: 7 },
            1,
            Uv::full(),
        );
        let q = list.data[list.data.len() - 1];
        assert_eq!(q.mode, mode.code());
        assert_eq!(q.p0, p0);
        assert_eq!(q.p1, Param::Ratio(7));
    }
    assert_eq!(
        [VideoMode::Tex, VideoMode::Delta, VideoMode::Split, VideoMode::Checker, VideoMode::Blend]
            .map(|m| m.code()),
        [1, 2, 3, 4, 5]
    );
    let logo = Uv { u0: 1, v0: 2, u1: 3, v1: 4 };
    list.item(&Item::Logo { r: rect(0, 0, 2, 1), alpha: 9 }, 1, logo);
    list.item(
        &Item::Mask { r: rect(0, 0, 2, 1), slot: 0, id: 1, revision: 2, width: 3, height: 4 },
        1,
        logo,
    );
    list.item(&Item::Triangle { r: rect(0, 0, 2, 1), color: RED, left: true, radius: 100_000 }, 1, logo);
    let n = list.data.len();
    assert_eq!(list.data[n - 3].mode, MODE_LOGO);
    assert_eq!(list.data[n - 3].uv, logo);
    assert_eq!(list.data[n - 3].color.a, 9);
    assert_eq!(list.data[n - 2].mode, MODE_MASK);
    assert_eq!(list.data[n - 1].mode, MODE_TRIANGLE);
    assert!(list.data[n - 1].flag);
    list.item(&Item::Text(TextItem::new(0, 0, 1, RED, String::new())), 1, logo);
    assert_eq!(list.data.len(), n);
}

fn laid() -> LaidText {
    LaidText {
        quads: vec![GlyphQuad {
            x: 100_000,
            y: 200_000,
            w: 800_000,
            h: 1_000_000,
            texels: Patch { x: 1_024, y: 512, w: 512, h: 256 },
        }],
        w: 4_000_000,
        h: 2_400_000,
    }
}

#[test]
fn text_hangs_from_its_anchor() {
    let mut t = TextItem::new(10_000_000, 5_000_000, 1_200_000, RED, "x".to_string());
    let place = |t: &TextItem| {
        assert!(text_in_range(t, &laid(), 2 * ONE));
        let mut list = DrawList::new();
        list.text(t, &laid(), 2 * ONE);
        list.data[list.data.len() - 1]
    };
    let q = place(&t);
    assert_eq!(q.r, rect(10_050_000, 5_100_000, 400_000, 500_000));
    assert_eq!(
        q.uv,
        Uv { u0: ONE / 2, v0: ONE / 4, u1: ONE / 4 * 3, v1: ONE / 8 * 3 }
    );
    assert_eq!((q.mode, q.color), (MODE_GLYPH, RED));
    t.align = Align::Center;
    t.valign = VAlign::Middle;
    assert_eq!(place(&t).r, rect(9_050_000, 4_500_000, 400_000, 500_000));
    t.align = Align::Right;
    assert_eq!(place(&t).r, rect(8_050_000, 4_500_000, 400_000, 500_000));
}

#[test]
fn a_chip_fits_its_label() {
    let mut t = TextItem::new(10_000_000, 5_000_000, 1_200_000, RED, "x".to_string());
    let mut bg = TextBg::new(RED);
    bg.radius = 400_000;
    t.bg = Some(bg);
    let mut list = DrawList::new();
    list.text(&t, &laid(), 2 * ONE);
    assert_eq!(list.data.len(), 2);
    assert_eq!(list.data[0].r, rect(9_400_000, 4_700_000, 3_200_000, 1_800_000));
    assert_eq!(list.data[0].p0, Param::Px(400_000));
    bg.shadow = Rgba { r: 0, g: 0, b: 0, a: ONE };
    bg.shadow_dy = 200_000;
    t.bg = Some(bg);
    let mut list = DrawList::new();
    list.text(&t, &laid(), 2 * ONE);
    assert_eq!(list.data.len(), 3);
    assert_eq!(list.data[0].r, rect(9_400_000, 4_900_000, 3_200_000, 1_800_000));
    assert_eq!(list.data[0].color, bg.shadow);
    assert_eq!(list.batches, vec![Batch { a: 0, b: 0, start: 0, end: 3 }]);
    t.x = i64::MAX;
    assert!(!text_in_range(&t, &laid(), 2 * ONE));
}

#[test]
fn a_frame_draws_its_items_in_order() {
    let label = |x: i64| Item::Text(TextItem::new(x, 0, 1_200_000, RED, "x".to_string()));
    let items = vec![
        plain(),
        label(100_000),
        video(0, 1),
        label(i64::MAX),
        label(300_000),
        video(0, 1),
        label(500_000),
    ];
    // The last run was not laid out, and the second's numbers don't fit.
    let mut wide = laid();
    wide.w = 8_000_000;
    let list = draw_list(&items, &vec![laid(), laid(), wide], 2, Uv::full(), 2 * ONE);
    let modes: Vec<u8> = list.data.iter().map(|q| q.mode).collect();
    let tex = VideoMode::Tex.code();
    assert_eq!(modes, vec![MODE_RECT, MODE_GLYPH, tex, MODE_GLYPH, tex]);
    assert_eq!(list.data[1].r.x, 150_000);
    assert_eq!(list.data[3].r.x, 350_000);
    assert_eq!(
        list.batches,
        vec![Batch { a: 0, b: 0, start: 0, end: 2 }, Batch { a: 0, b: 1, start: 2, end: 5 }]
    );
    // Text is drawn at every scale there is.
    let list = draw_list(&items, &vec![laid(), laid(), laid()], 2, Uv::full(), ONE / 20);
    assert_eq!(list.data.len(), 5);
    assert_eq!(list.data[1].r, rect(2_100_000, 4_000_000, 16_000_000, 20_000_000));
    let list = draw_list(&items, &vec![laid(), laid(), laid()], 2, Uv::full(), 1);
    assert_eq!(list.data.len(), 5);
    assert_eq!(list.data[1].r.w, 800_000 * ONE);
    let list = draw_list(&items, &vec![laid(), laid(), laid()], 2, Uv::full(), 0);
    assert_eq!(list.data.len(), 3);
    assert!(draw_list(&vec![], &vec![], 1, Uv::full(), ONE).data.is_empty());
}

#[test]
fn white_space_is_what_unicode_says() {
    let font = open_font(tiny_font()).expect("a font");
    let all: String = (0..=0x10ffff).filter_map(char::from_u32).collect();
    let spaces: Vec<u32> = all
        .chars()
        .zip(spell(&font, &all))
        .filter(|(_, s)| s.space)
        .map(|(c, _)| c as u32)
        .collect();
    let mut want: Vec<u32> = (0x9..=0xd).collect();
    want.extend([0x20, 0x85, 0xa0, 0x1680]);
    want.extend(0x2000..=0x200a);
    want.extend([0x2028, 0x2029, 0x202f, 0x205f, 0x3000]);
    assert_eq!(spaces, want);
}

#[test]
fn textures_follow_the_clips() {
    assert_eq!(texture_sizes(&vec![]), vec![(2, 2)]);
    assert_eq!(texture_sizes(&vec![(1, 7), (320, 180)]), vec![(2, 7), (320, 180)]);
    let two = vec![(320, 180), (640, 360)];
    let three = vec![(320, 180), (640, 360), (10, 10)];
    let plan = plan_textures(&two, &three);
    assert_eq!(plan.keep, vec![true, true, false]);
    assert!(plan.rebind);
    let plan = plan_textures(&two, &two);
    assert_eq!(plan.keep, vec![true, true]);
    assert!(!plan.rebind);
    let plan = plan_textures(&three, &vec![(320, 180), (5, 5)]);
    assert_eq!(plan.keep, vec![true, false]);
    assert!(plan.rebind);
    for (size, levels) in [((2, 2), 2), ((4, 1), 3), ((7, 7), 3), ((8, 2), 4), ((3_840, 2_160), 4)] {
        assert_eq!(mip_levels(size), levels);
    }
}

#[test]
fn an_upload_has_to_fit() {
    let sizes = vec![(2, 2), (3, 1)];
    let up = |idx, w, h, n| Upload { idx, w, h, buf: vec![0; n] };
    assert!(takes_upload(&up(0, 2, 2, 16), &sizes));
    assert!(takes_upload(&up(1, 3, 1, 12), &sizes));
    assert!(!takes_upload(&up(1, 2, 2, 16), &sizes));
    assert!(!takes_upload(&up(0, 2, 2, 15), &sizes));
    assert!(!takes_upload(&up(2, 2, 2, 16), &sizes));
}

#[test]
fn a_mask_is_sent_when_it_changed() {
    let a = MaskStamp { id: 1, revision: 2, width: 3, height: 4 };
    assert_eq!(plan_mask(None, a), MaskPlan::Rebuild);
    assert_eq!(plan_mask(Some(a), a), MaskPlan::Keep);
    assert_eq!(plan_mask(Some(a), MaskStamp { revision: 3, ..a }), MaskPlan::Refresh);
    assert_eq!(plan_mask(Some(a), MaskStamp { id: 2, ..a }), MaskPlan::Refresh);
    assert_eq!(plan_mask(Some(a), MaskStamp { width: 5, ..a }), MaskPlan::Rebuild);
}

#[test]
fn the_surface_and_its_buffers() {
    assert_eq!(grown_capacity(1_024, 1_000), 1_024);
    assert_eq!(grown_capacity(1_024, 1_025), 2_048);
    assert_eq!(grown_capacity(0, 1), 1);
    assert_eq!(grown_capacity(3, 4_096), 4_096);
    assert_eq!(surface_size(0, 5), None);
    assert_eq!(surface_size(5, 0), None);
    assert_eq!(surface_size(5, 6), Some((5, 6)));
    assert_eq!(
        pick_alpha(&vec![AlphaMode::Opaque, AlphaMode::Postmultiplied, AlphaMode::Premultiplied]),
        Some(2)
    );
    assert_eq!(pick_alpha(&vec![AlphaMode::Other, AlphaMode::Opaque]), Some(1));
    assert_eq!(pick_alpha(&vec![]), None);
    assert_eq!(pick_surface_format(&vec![false, true, true]), 1);
    assert_eq!(pick_surface_format(&vec![false, false]), 0);
    assert_eq!(texture_limit(4_096), 8_192);
    assert_eq!(texture_limit(10_000), 10_000);
    assert_eq!(texture_limit(99_999), 16_384);
}
