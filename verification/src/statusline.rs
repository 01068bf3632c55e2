//! The bottom status line: a fixed-width chip naming the input mode on the
//! left, that mode's keys beside it, mode status on the right. Unlike the
//! transport above it, it never fades: it is how you tell which keys are
//! live.

use crate::app::{App, AppState, STATUS_H};
use crate::geometry::{half, halve, rect};
use crate::hud::{draw_rect, draw_rounded, rounded};
use crate::items::{
    draw, drawn, label, plain, Align, Item, ItemState, RectItem, RectPx, TextItem, TextState,
    VAlign,
};
use crate::palette::Ink;
use crate::paths::{file_name, file_name_of};
use crate::readout::{clipped, digits, ellipsize, fixed, push_fixed, push_number};
use crate::scene::{letter, letter_of, line, line_of};
use crate::units::{least, max, most};
use vstd::prelude::*;
use vstd::string::StrSliceExecFns;
use vstd::string::StringExecFns;

verus! {

/// The mode chip's fixed width: constant across modes, so the keys never
/// shift.
pub const MODE_W: i64 = 9_200_000;

pub const CAP_H: i64 = 2_200_000;

/// How far a keycap's hard shadow drops.
pub const CAP_DROP: i64 = 300_000;

/// Width of a keycap with `n` characters: some air each side of a monospace
/// run, floored at the cap height so a single glyph stays square.
pub open spec fn cap_width(n: int) -> int {
    most(1_566_000 + 810_000 * n, CAP_H as int)
}

/// One keycap, its top-left corner at `(x, y)`: a hard drop shadow, a
/// near-black face with a hairline outline, and an inset top highlight held
/// off the corners.
pub open spec fn keycap(x: int, y: int, cap: Seq<char>) -> Seq<ItemState> {
    let w = cap_width(cap.len() as int);
    seq![
        rounded(rect(x, y + CAP_DROP, w, CAP_H as int), Ink::KeyShadow.color(), 500_000),
        ItemState::Rect(
            RectItem {
                radius: 500_000,
                border_w: 100_000,
                border_color: Ink::KeyHairline.color(),
                ..plain(rect(x, y, w, CAP_H as int), Ink::KeySurface.color())
            },
        ),
        rounded(
            rect(x + 275_000, y + 100_000, most(w - 550_000, 0), 100_000),
            Ink::KeyHighlight.color(),
            50_000,
        ),
        line(x + half(w), y + 1_100_000, 1_350_000, Ink::KeyInk.color(), cap, Align::Center),
    ]
}

fn draw_keycap(items: &mut Vec<Item>, x: i64, y: i64, w: i64, cap: &str)
    requires
        w == cap_width(cap@.len() as int),
        0 <= x <= 0x2_0000_0000,
        w <= 0x2_0000_0000,
        -0x2_0000_0000 <= y <= 0x2_0000_0000,
    ensures
        drawn(final(items)@) == drawn(old(items)@) + keycap(x as int, y as int, cap@),
{
    let ghost before = drawn(items@);
    draw_rounded(
        items,
        RectPx { x, y: y + CAP_DROP, w, h: CAP_H },
        Ink::KeyShadow.color(),
        500_000,
    );
    let mut ri = RectItem::new(RectPx { x, y, w, h: CAP_H }, Ink::KeySurface.color());
    ri.radius = 500_000;
    ri.border_w = 100_000;
    ri.border_color = Ink::KeyHairline.color();
    draw(items, Item::Rect(ri));
    draw_rounded(
        items,
        RectPx { x: x + 275_000, y: y + 100_000, w: max(w - 550_000, 0), h: 100_000 },
        Ink::KeyHighlight.color(),
        50_000,
    );
    draw(
        items,
        line_of(
            x + halve(w),
            y + 1_100_000,
            1_350_000,
            Ink::KeyInk.color(),
            cap.to_owned(),
            Align::Center,
        ),
    );
    assert(drawn(items@) =~= before + keycap(x as int, y as int, cap@));
}

/// A key and what it does.
pub struct Hint {
    pub cap: String,
    pub label: String,
}

pub open spec fn hints(keys: Seq<Hint>) -> Seq<(Seq<char>, Seq<char>)> {
    Seq::new(keys.len(), |i: int| (keys[i].cap@, keys[i].label@))
}

/// How much room a key takes with the word beside it.
pub open spec fn hint_width(key: (Seq<char>, Seq<char>)) -> int {
    cap_width(key.0.len() as int) + 800_000 + 720_000 * key.1.len()
}

/// The keys from number `i` on, as many as end before `limit`.
pub open spec fn keycaps(
    keys: Seq<(Seq<char>, Seq<char>)>,
    i: int,
    x: int,
    y: int,
    limit: int,
) -> Seq<ItemState>
    decreases keys.len() - i,
{
    if i >= keys.len() || x + hint_width(keys[i]) > limit {
        Seq::empty()
    } else {
        keycap(x, y, keys[i].0).push(
            line(
                x + cap_width(keys[i].0.len() as int) + 800_000,
                y + 1_100_000,
                1_200_000,
                Ink::Text.color(),
                keys[i].1,
                Align::Left,
            ),
        ) + keycaps(keys, i + 1, x + hint_width(keys[i]) + 2_000_000, y, limit)
    }
}

fn draw_keycaps(items: &mut Vec<Item>, keys: &Vec<Hint>, x: i64, y: i64, limit: i128)
    requires
        0 <= x <= 0x1_0000_0000,
        limit <= 0x1_0000_0000,
        -0x1_0000_0000 <= y <= 0x1_0000_0000,
    ensures
        drawn(final(items)@) == drawn(old(items)@) + keycaps(
            hints(keys@),
            0,
            x as int,
            y as int,
            limit as int,
        ),
{
    let ghost before = drawn(items@);
    let ghost all = hints(keys@);
    let mut kx: i64 = x;
    let mut i: usize = 0;
    while i < keys.len()
        invariant
            i <= keys@.len(),
            all == hints(keys@),
            0 <= kx <= 0x1_0100_0000,
            limit <= 0x1_0000_0000,
            -0x1_0000_0000 <= y <= 0x1_0000_0000,
            drawn(items@) + keycaps(all, i as int, kx as int, y as int, limit as int) == before
                + keycaps(all, 0, x as int, y as int, limit as int),
        ensures
            drawn(items@) == before + keycaps(all, 0, x as int, y as int, limit as int),
        decreases keys@.len() - i,
    {
        let ghost so_far = drawn(items@);
        let key = &keys[i];
        assert(all[i as int] == (key.cap@, key.label@));
        let air: i128 = 1_566_000 + 810_000 * key.cap.as_str().unicode_len() as i128;
        let cap_w: i128 = if air > CAP_H as i128 {
            air
        } else {
            CAP_H as i128
        };
        let step: i128 = cap_w + 800_000 + 720_000 * key.label.as_str().unicode_len() as i128;
        assert(step == hint_width(all[i as int]));
        if kx as i128 + step > limit {
            assert(drawn(items@) =~= drawn(items@) + keycaps(
                all,
                i as int,
                kx as int,
                y as int,
                limit as int,
            ));
            break;
        }
        draw_keycap(items, kx, y, cap_w as i64, key.cap.as_str());
        draw(
            items,
            line_of(
                kx + cap_w as i64 + 800_000,
                y + 1_100_000,
                1_200_000,
                Ink::Text.color(),
                key.label.as_str().to_owned(),
                Align::Left,
            ),
        );
        let ghost next = kx + step + 2_000_000;
        assert(drawn(items@) + keycaps(all, i + 1, next, y as int, limit as int) =~= so_far
            + keycaps(all, i as int, kx as int, y as int, limit as int));
        kx = kx + step as i64 + 2_000_000;
        i = i + 1;
        if i >= keys.len() {
            assert(drawn(items@) =~= drawn(items@) + keycaps(
                all,
                i as int,
                kx as int,
                y as int,
                limit as int,
            ));
        }
    }
    assert(i >= keys@.len() ==> drawn(items@) =~= before + keycaps(
        all,
        0,
        x as int,
        y as int,
        limit as int,
    ));
}

fn hint(cap: &str, word: &str) -> (r: Hint)
    ensures
        r.cap@ == cap@,
        r.label@ == word@,
{
    Hint { cap: cap.to_owned(), label: word.to_owned() }
}

impl AppState {
    pub open spec fn status_bar(self) -> RectPx {
        rect(0, self.vp.1 - STATUS_H, self.vp.0 as int, STATUS_H as int)
    }

    /// The number keys that pick a clip.
    pub open spec fn clip_keys(self) -> Seq<char> {
        if self.videos.len() == 1 {
            "1"@
        } else {
            "1-"@ + digits(least(self.videos.len() as int, 9) as nat)
        }
    }

    /// The keys that are live.
    pub open spec fn live_keys(self) -> Seq<(Seq<char>, Seq<char>)> {
        let clips = self.clip_keys();
        if self.mask_mode {
            seq![
                ("drag"@, "paint"@),
                ("+ -"@, "brush"@),
                ("s"@, "save"@),
                (clips, "clip"@),
                ("m"@, "exit"@),
                ("enter"@, "next clip"@),
            ]
        } else {
            seq![
                (clips, "clip"@),
                ("space"@, "play"@),
                ("< >"@, "frame-step"@),
                ("[ ]"@, "speed"@),
                ("v"@, "view"@),
                ("m"@, "mask"@),
                ("tab"@, "info"@),
                ("f"@, "fullscreen"@),
                ("enter"@, "flip"@),
            ]
        }
    }

    /// What the right-hand side says: while painting the focused clip, the
    /// brush size and what became of the last save.
    pub open spec fn status_text(self) -> Seq<char> {
        if self.mask_mode {
            let tail = if self.mask_status.len() == 0 {
                "blue → white · red → black"@
            } else {
                self.mask_status
            };
            letter(self.active as int) + " "@ + clipped(
                file_name_of(self.videos[self.active as int].info.path),
                28,
            ) + " · brush "@ + fixed(self.brush_diameter as nat, 100_000, 0) + "px · "@ + tail
        } else {
            Seq::empty()
        }
    }

    /// Where the keycaps have to end.
    pub open spec fn keys_limit(self) -> int {
        let n = self.status_text().len() as int;
        self.vp.0 - 1_600_000 - if n > 0 { 660_000 * n + 2_400_000 } else { 0 }
    }

    pub open spec fn status_line(self) -> Seq<ItemState> {
        let bar = self.status_bar();
        let cy = bar.y + 1_700_000;
        let (bg, chip, name) = if self.mask_mode {
            (Ink::StatusBgMask, Ink::MaskRed, "MASK"@)
        } else {
            (Ink::StatusBgAb, Ink::Accent, "A/B TEST"@)
        };
        let head = seq![
            ItemState::Rect(plain(bar, bg.color())),
            ItemState::Rect(
                plain(rect(0, bar.y as int, MODE_W as int, STATUS_H as int), chip.color()),
            ),
            ItemState::Text(
                TextState {
                    align: Align::Center,
                    valign: VAlign::Middle,
                    tracking: 150_000,
                    ..label(4_600_000, cy, 1_100_000, Ink::Text.color(), name)
                },
            ),
        ];
        let status = self.status_text();
        let right = if status.len() > 0 {
            seq![
                line(
                    self.vp.0 - 1_600_000,
                    cy,
                    1_100_000,
                    Ink::Label.color(),
                    status,
                    Align::Right,
                ),
            ]
        } else {
            Seq::empty()
        };
        head + right + keycaps(
            self.live_keys(),
            0,
            10_600_000,
            bar.y + 450_000,
            self.keys_limit(),
        )
    }
}

impl App {
    fn list_keys(&self) -> (r: Vec<Hint>)
        ensures
            hints(r@) == self@.live_keys(),
    {
        let mut clips = String::new();
        if self.videos.len() == 1 {
            clips.append("1");
        } else {
            clips.append("1-");
            push_number(&mut clips, if self.videos.len() < 9 { self.videos.len() as u64 } else { 9 });
        }
        assert(clips@ =~= self@.clip_keys());
        let mut keys: Vec<Hint> = Vec::new();
        if self.mask_mode {
            keys.push(hint("drag", "paint"));
            keys.push(hint("+ -", "brush"));
            keys.push(hint("s", "save"));
            keys.push(hint(clips.as_str(), "clip"));
            keys.push(hint("m", "exit"));
            keys.push(hint("enter", "next clip"));
        } else {
            keys.push(hint(clips.as_str(), "clip"));
            keys.push(hint("space", "play"));
            keys.push(hint("< >", "frame-step"));
            keys.push(hint("[ ]", "speed"));
            keys.push(hint("v", "view"));
            keys.push(hint("m", "mask"));
            keys.push(hint("tab", "info"));
            keys.push(hint("f", "fullscreen"));
            keys.push(hint("enter", "flip"));
        }
        assert(hints(keys@) =~= self@.live_keys());
        keys
    }

    fn status_run(&self) -> (r: String)
        requires
            self@.wf(),
        ensures
            r@ == self@.status_text(),
    {
        let mut s = String::new();
        if self.mask_mode {
            let name = file_name(self.videos[self.active].info.path.as_str());
            s = letter_of(self.active);
            s.append(" ");
            s.append(ellipsize(name.as_str(), 28).as_str());
            s.append(" · brush ");
            push_fixed(&mut s, self.brush_diameter as u64, 100_000, 0);
            s.append("px · ");
            if self.mask_status.as_str().unicode_len() == 0 {
                s.append("blue → white · red → black");
            } else {
                s.append(self.mask_status.as_str());
            }
        }
        assert(s@ =~= self@.status_text());
        s
    }

    pub(crate) fn build_status_line(&self, items: &mut Vec<Item>)
        requires
            self@.wf(),
        ensures
            drawn(final(items)@) == drawn(old(items)@) + self@.status_line(),
    {
        let ghost before = drawn(items@);
        let bar = RectPx {
            x: 0,
            y: self.vp.1 as i64 - STATUS_H,
            w: self.vp.0 as i64,
            h: STATUS_H,
        };
        let cy: i64 = bar.y + 1_700_000;
        let (bg, chip) = if self.mask_mode {
            (Ink::StatusBgMask, Ink::MaskRed)
        } else {
            (Ink::StatusBgAb, Ink::Accent)
        };
        draw_rect(items, bar, bg.color());
        draw_rect(items, RectPx { x: 0, y: bar.y, w: MODE_W, h: STATUS_H }, chip.color());
        let name = if self.mask_mode {
            "MASK".to_owned()
        } else {
            "A/B TEST".to_owned()
        };
        let mut t = TextItem::new(4_600_000, cy, 1_100_000, Ink::Text.color(), name);
        t.align = Align::Center;
        t.valign = VAlign::Middle;
        t.tracking = 150_000;
        draw(items, Item::Text(t));
        let ghost head = drawn(items@);
        // Right-hand status first, so the keycaps stop short of it.
        let status = self.status_run();
        let n: usize = status.as_str().unicode_len();
        let taken: i128 = if n > 0 {
            660_000 * n as i128 + 2_400_000
        } else {
            0
        };
        let limit: i128 = self.vp.0 as i128 - 1_600_000 - taken;
        if n > 0 {
            draw(
                items,
                line_of(
                    self.vp.0 as i64 - 1_600_000,
                    cy,
                    1_100_000,
                    Ink::Label.color(),
                    status,
                    Align::Right,
                ),
            );
        }
        let keys = self.list_keys();
        draw_keycaps(items, &keys, 10_600_000, bar.y + 450_000, limit);
        assert(drawn(items@) =~= before + self@.status_line());
    }
}

} // verus!
