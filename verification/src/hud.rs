//! The instrument overlay: corner brackets, the clip toggle, the info block
//! and the hover-revealed transport.

use crate::app::{clip_ok, App, AppState};
use crate::geometry::{half, halve, rect, CELL_LIMIT};
use crate::items::{
    draw, drawn, label, plain, Align, Item, ItemState, RectItem, RectPx, Rgba, TextItem, TextState,
    VAlign,
};
use crate::palette::Ink;
use crate::paths::{file_name, file_name_of, parent, parent_of};
use crate::probe::InfoState;
use crate::readout::{
    clipped, clipped_left, digits, ellipsize, ellipsize_left, fixed, fmt_size, fmt_time, push_fixed,
    push_number, size_text, time_text,
};
use crate::scene::{letter, letter_of, line, line_of};
use crate::units::{least, min, ONE, PX};
use vstd::prelude::*;
use vstd::string::StrSliceExecFns;
use vstd::string::StringExecFns;

verus! {

/// Info block width.
pub const INFO_W: i64 = 43_000_000;

/// As far out as things are placed: beyond every window.
pub const FAR: i64 = 0x1000_0000_0000_0000;

/// How many characters fit inside it.
pub const INFO_CH: usize = 65;

/// Extra scrim drawn above the transport so the gradient's transparent end
/// falls on bare frame rather than on the controls.
pub const SCRIM_LEAD: i64 = 5_400_000;

/// A rounded rect.
pub open spec fn rounded(r: RectPx, color: Rgba, radius: int) -> ItemState {
    ItemState::Rect(RectItem { radius: radius as i64, ..plain(r, color) })
}

/// Adds a plain rect.
pub fn draw_rect(items: &mut Vec<Item>, r: RectPx, color: Rgba)
    ensures
        drawn(final(items)@) == drawn(old(items)@).push(ItemState::Rect(plain(r, color))),
{
    draw(items, Item::Rect(RectItem::new(r, color)));
}

/// Adds a rounded rect.
pub fn draw_rounded(items: &mut Vec<Item>, r: RectPx, color: Rgba, radius: i64)
    ensures
        drawn(final(items)@) == drawn(old(items)@).push(rounded(r, color, radius as int)),
{
    let mut ri = RectItem::new(r, color);
    ri.radius = radius;
    draw(items, Item::Rect(ri));
}

/// A triangle.
pub open spec fn triangle(x: int, y: int, w: int, h: int, left: bool, color: Rgba) -> ItemState {
    ItemState::Triangle { r: rect(x, y, w, h), color, left, radius: PX }
}

pub fn draw_triangle(items: &mut Vec<Item>, r: RectPx, left: bool, color: Rgba)
    ensures
        drawn(final(items)@) == drawn(old(items)@).push(
            ItemState::Triangle { r, color, left, radius: PX },
        ),
{
    draw(items, Item::Triangle { r, color, left, radius: PX });
}

/// One corner bracket: a horizontal and a vertical arm.
pub open spec fn bracket(hx: int, hy: int, vx: int, vy: int) -> Seq<ItemState> {
    seq![
        ItemState::Rect(plain(rect(hx, hy, 2_600_000, 200_000), Ink::Accent.color())),
        ItemState::Rect(plain(rect(vx, vy, 200_000, 2_600_000), Ink::Accent.color())),
    ]
}

fn draw_bracket(items: &mut Vec<Item>, hx: i64, hy: i64, vx: i64, vy: i64)
    ensures
        drawn(final(items)@) == drawn(old(items)@) + bracket(
            hx as int,
            hy as int,
            vx as int,
            vy as int,
        ),
{
    let ghost before = drawn(items@);
    draw_rect(items, RectPx { x: hx, y: hy, w: 2_600_000, h: 200_000 }, Ink::Accent.color());
    draw_rect(items, RectPx { x: vx, y: vy, w: 200_000, h: 2_600_000 }, Ink::Accent.color());
    assert(drawn(items@) =~= before + bracket(hx as int, hy as int, vx as int, vy as int));
}

/// Resolution, frame rate, codec and pixel format.
pub open spec fn picture_text(info: InfoState) -> Seq<char> {
    digits(info.width as nat) + "×"@ + digits(info.height as nat) + "  "@ + fixed(
        info.fps as nat,
        ONE as nat,
        3,
    ) + " fps  "@ + info.codec + " "@ + info.pix_fmt
}

pub open spec fn rate_text(bit_rate: Option<u64>) -> Seq<char> {
    match bit_rate {
        Some(b) => fixed(b as nat, 1_000_000, 2) + " Mb/s"@,
        None => "? Mb/s"@,
    }
}

/// Bit rate, size and duration.
pub open spec fn file_text(info: InfoState) -> Seq<char> {
    rate_text(info.bit_rate) + "  "@ + size_text(info.file_size as nat) + "  "@ + time_text(
        info.duration,
    )
}

/// A detail line on its own faint strip.
pub open spec fn detail(y: int, ink: Ink, text: Seq<char>) -> Seq<ItemState> {
    seq![
        ItemState::Rect(plain(rect(2_200_000, y - 200_000, INFO_W as int, 1_500_000), Ink::DetailBg.color())),
        ItemState::Text(label(3_000_000, y, 1_050_000, ink.color(), clipped(text, INFO_CH as nat))),
    ]
}

fn draw_detail(items: &mut Vec<Item>, y: i64, ink: Ink, text: &str)
    requires
        y >= 0,
    ensures
        drawn(final(items)@) == drawn(old(items)@) + detail(y as int, ink, text@),
{
    let ghost before = drawn(items@);
    draw_rect(
        items,
        RectPx { x: 2_200_000, y: y - 200_000, w: INFO_W, h: 1_500_000 },
        Ink::DetailBg.color(),
    );
    draw(
        items,
        Item::Text(TextItem::new(3_000_000, y, 1_050_000, ink.color(), ellipsize(text, INFO_CH))),
    );
    assert(drawn(items@) =~= before + detail(y as int, ink, text@));
}

impl AppState {
    /// Corner brackets framing the active stream.
    pub open spec fn brackets(self) -> Seq<ItemState> {
        let (w, h) = (self.vp.0 as int, self.vp.1 as int);
        let top = 1_600_000 + self.inset();
        bracket(1_600_000, top, 1_600_000, top) + bracket(w - 4_200_000, top, w - 1_800_000, top) + bracket(
            1_600_000,
            h - 1_800_000,
            1_600_000,
            h - 4_200_000,
        ) + bracket(w - 4_200_000, h - 1_800_000, w - 1_800_000, h - 4_200_000)
    }

    /// The clip toggle's pill. It sits in the titlebar strip, level with the
    /// window buttons; fullscreen has no strip.
    pub open spec fn pill(self) -> RectPx {
        let w = least(4_000_000 * self.videos.len() as int + 400_000, FAR as int);
        rect(
            half(self.vp.0 - w),
            if self.fullscreen { 1_000_000 } else { 200_000 },
            w,
            2_400_000,
        )
    }

    /// Clip `i`'s segment of the toggle.
    pub open spec fn segment(self, i: int) -> Seq<ItemState> {
        let pill = self.pill();
        let x = least(pill.x + 300_000 + 4_000_000 * i, FAR as int);
        let on = i == self.active;
        let text = line(
            x + 1_900_000,
            pill.y + 1_200_000,
            1_100_000,
            if on { Ink::FrameInk.color() } else { Ink::SegOff.color() },
            letter(i),
            Align::Center,
        );
        if on {
            seq![
                rounded(rect(x, pill.y + 300_000, 3_800_000, 1_800_000), Ink::Accent.color(), 450_000),
                text,
            ]
        } else {
            seq![text]
        }
    }

    /// The segments of the first `k` clips.
    pub open spec fn segments(self, k: int) -> Seq<ItemState>
        decreases k,
    {
        if k <= 0 {
            Seq::empty()
        } else {
            self.segments(k - 1) + self.segment(k - 1)
        }
    }

    /// The centre toggle: what's on screen.
    pub open spec fn toggle(self) -> Seq<ItemState> {
        seq![
            ItemState::Rect(
                RectItem {
                    radius: 700_000,
                    border_w: PX,
                    border_color: Ink::AccentEdge.color(),
                    ..plain(self.pill(), Ink::PillBg.color())
                },
            ),
        ] + self.segments(self.videos.len() as int)
    }

    /// Clip `i`'s title row: a dark strip with a coloured left rule.
    pub open spec fn title_row(self, i: int, y: int) -> Seq<ItemState> {
        let on = i == self.active;
        let name = clipped(file_name_of(self.videos[i].info.path), 34);
        let mid = y + 950_000;
        let row = seq![
            ItemState::Rect(
                plain(
                    rect(2_200_000, y, INFO_W as int, 1_900_000),
                    if on { Ink::RowBgOn.color() } else { Ink::RowBgOff.color() },
                ),
            ),
            ItemState::Rect(
                plain(
                    rect(2_200_000, y, 200_000, 1_900_000),
                    if on { Ink::Accent.color() } else { Ink::RuleOff.color() },
                ),
            ),
            line(
                3_000_000,
                mid,
                1_100_000,
                if on { Ink::Accent.color() } else { Ink::Inactive.color() },
                letter(i),
                Align::Left,
            ),
            line(
                4_400_000,
                mid,
                1_200_000,
                if on { Ink::Text.color() } else { Ink::TextOff.color() },
                name,
                Align::Left,
            ),
        ];
        if on {
            row.push(
                ItemState::Text(
                    TextState {
                        valign: VAlign::Middle,
                        tracking: 120_000,
                        ..label(
                            least(5_400_000 + 720_000 * name.len() as int, 39_200_000),
                            mid,
                            900_000,
                            Ink::Accent.color(),
                            "● SHOWN"@,
                        )
                    },
                ),
            )
        } else {
            row
        }
    }

    /// Clip `i`'s details under its title.
    pub open spec fn details(self, i: int, y: int) -> Seq<ItemState> {
        let v = self.videos[i];
        if v.player.failed {
            detail(y, Ink::Alarm, "DECODE FAILED"@)
        } else {
            detail(y, Ink::Detail, picture_text(v.info)) + detail(
                y + 1_500_000,
                Ink::Dim,
                file_text(v.info),
            ) + detail(y + 3_000_000, Ink::DimPath, clipped_left(parent_of(v.info.path), INFO_CH as nat))
        }
    }

    /// How far clip `i`'s block reaches down.
    pub open spec fn block_height(self, i: int) -> int {
        if self.videos[i].player.failed { 4_600_000 } else { 7_200_000 }
    }

    /// Where clip `k`'s block begins.
    pub open spec fn block_top(self, k: int) -> int
        decreases k,
    {
        if k <= 0 {
            2_200_000 + self.inset()
        } else {
            least(self.block_top(k - 1) + self.block_height(k - 1), FAR as int)
        }
    }

    /// The info blocks of the first `k` clips.
    pub open spec fn info_block(self, k: int) -> Seq<ItemState>
        decreases k,
    {
        if k <= 0 {
            Seq::empty()
        } else {
            self.info_block(k - 1) + self.title_row(k - 1, self.block_top(k - 1)) + self.details(
                k - 1,
                self.block_top(k - 1) + 2_100_000,
            )
        }
    }
}

/// The lesser of a number and `FAR`.
fn near(v: i128) -> (r: i64)
    requires
        v >= -FAR,
    ensures
        r == least(v as int, FAR as int),
{
    if v <= FAR as i128 {
        v as i64
    } else {
        FAR
    }
}

impl App {
    pub(crate) fn draw_brackets(&self, items: &mut Vec<Item>)
        ensures
            drawn(final(items)@) == drawn(old(items)@) + self@.brackets(),
    {
        let ghost before = drawn(items@);
        let w: i64 = self.vp.0 as i64;
        let h: i64 = self.vp.1 as i64;
        let top: i64 = 1_600_000 + self.top_inset();
        draw_bracket(items, 1_600_000, top, 1_600_000, top);
        draw_bracket(items, w - 4_200_000, top, w - 1_800_000, top);
        draw_bracket(items, 1_600_000, h - 1_800_000, 1_600_000, h - 4_200_000);
        draw_bracket(items, w - 4_200_000, h - 1_800_000, w - 1_800_000, h - 4_200_000);
        assert(drawn(items@) =~= before + self@.brackets());
    }

    fn pill_rect(&self) -> (r: RectPx)
        requires
            self@.wf(),
        ensures
            r == self@.pill(),
            -FAR <= r.x <= CELL_LIMIT,
            0 <= r.y <= 1_000_000,
    {
        let w: i64 = near(4_000_000 * self.videos.len() as i128 + 400_000);
        RectPx {
            x: halve(self.vp.0 as i64 - w),
            y: if self.fullscreen {
                1_000_000
            } else {
                200_000
            },
            w,
            h: 2_400_000,
        }
    }

    fn draw_segment(&self, items: &mut Vec<Item>, i: usize)
        requires
            self@.wf(),
            i < self@.videos.len(),
        ensures
            drawn(final(items)@) == drawn(old(items)@) + self@.segment(i as int),
    {
        let ghost before = drawn(items@);
        let pill = self.pill_rect();
        let x: i64 = near(pill.x as i128 + 300_000 + 4_000_000 * i as i128);
        let on = i == self.active;
        if on {
            draw_rounded(
                items,
                RectPx { x, y: pill.y + 300_000, w: 3_800_000, h: 1_800_000 },
                Ink::Accent.color(),
                450_000,
            );
        }
        draw(
            items,
            line_of(
                x + 1_900_000,
                pill.y + 1_200_000,
                1_100_000,
                if on {
                    Ink::FrameInk.color()
                } else {
                    Ink::SegOff.color()
                },
                letter_of(i),
                Align::Center,
            ),
        );
        assert(drawn(items@) =~= before + self@.segment(i as int));
    }

    pub(crate) fn draw_toggle(&self, items: &mut Vec<Item>)
        requires
            self@.wf(),
        ensures
            drawn(final(items)@) == drawn(old(items)@) + self@.toggle(),
    {
        let ghost before = drawn(items@);
        let ghost s = self@;
        let mut ri = RectItem::new(self.pill_rect(), Ink::PillBg.color());
        ri.radius = 700_000;
        ri.border_w = PX;
        ri.border_color = Ink::AccentEdge.color();
        draw(items, Item::Rect(ri));
        let ghost start = drawn(items@);
        let mut i: usize = 0;
        assert(start =~= start + s.segments(0));
        while i < self.videos.len()
            invariant
                self@ == s,
                s.wf(),
                i <= self.videos@.len(),
                drawn(items@) == start + s.segments(i as int),
            decreases self.videos@.len() - i,
        {
            self.draw_segment(items, i);
            i = i + 1;
            assert(drawn(items@) =~= start + s.segments(i as int));
        }
        assert(drawn(items@) =~= before + s.toggle());
    }

    fn draw_title_row(&self, items: &mut Vec<Item>, i: usize, y: i64)
        requires
            self@.wf(),
            i < self@.videos.len(),
            0 <= y <= FAR + 2_100_000,
        ensures
            drawn(final(items)@) == drawn(old(items)@) + self@.title_row(i as int, y as int),
    {
        let ghost before = drawn(items@);
        let on = i == self.active;
        let full = file_name(self.videos[i].info.path.as_str());
        let name = ellipsize(full.as_str(), 34);
        let len: usize = name.as_str().unicode_len();
        proof {
            crate::readout::clipping_respects_the_limit(full@, 34);
        }
        let mid: i64 = y + 950_000;
        draw_rect(
            items,
            RectPx { x: 2_200_000, y, w: INFO_W, h: 1_900_000 },
            if on {
                Ink::RowBgOn.color()
            } else {
                Ink::RowBgOff.color()
            },
        );
        draw_rect(
            items,
            RectPx { x: 2_200_000, y, w: 200_000, h: 1_900_000 },
            if on {
                Ink::Accent.color()
            } else {
                Ink::RuleOff.color()
            },
        );
        draw(
            items,
            line_of(
                3_000_000,
                mid,
                1_100_000,
                if on {
                    Ink::Accent.color()
                } else {
                    Ink::Inactive.color()
                },
                letter_of(i),
                Align::Left,
            ),
        );
        draw(
            items,
            line_of(
                4_400_000,
                mid,
                1_200_000,
                if on {
                    Ink::Text.color()
                } else {
                    Ink::TextOff.color()
                },
                name,
                Align::Left,
            ),
        );
        if on {
            let mut t = TextItem::new(
                min(5_400_000 + 720_000 * len as i64, 39_200_000),
                mid,
                900_000,
                Ink::Accent.color(),
                "● SHOWN".to_owned(),
            );
            t.valign = VAlign::Middle;
            t.tracking = 120_000;
            draw(items, Item::Text(t));
        }
        assert(drawn(items@) =~= before + self@.title_row(i as int, y as int));
    }

    fn draw_details(&self, items: &mut Vec<Item>, i: usize, y: i64)
        requires
            self@.wf(),
            i < self@.videos.len(),
            0 <= y <= FAR + 2_100_000,
        ensures
            drawn(final(items)@) == drawn(old(items)@) + self@.details(i as int, y as int),
    {
        let ghost before = drawn(items@);
        let v = &self.videos[i];
        assert(v@ == self@.videos[i as int]);
        proof {
            clip_ok(self@.videos, self@.masks, i as int);
        }
        if v.player.failed() {
            draw_detail(items, y, Ink::Alarm, "DECODE FAILED");
            return;
        }
        let mut picture = String::new();
        push_number(&mut picture, v.info.width as u64);
        picture.append("×");
        push_number(&mut picture, v.info.height as u64);
        picture.append("  ");
        push_fixed(&mut picture, v.info.fps as u64, ONE as u64, 3);
        picture.append(" fps  ");
        picture.append(v.info.codec.as_str());
        picture.append(" ");
        picture.append(v.info.pix_fmt.as_str());
        assert(picture@ =~= picture_text(v.info@));
        draw_detail(items, y, Ink::Detail, picture.as_str());
        let mut file = String::new();
        match v.info.bit_rate {
            Some(b) => {
                push_fixed(&mut file, b, 1_000_000, 2);
                file.append(" Mb/s");
            },
            None => {
                file.append("? Mb/s");
            },
        }
        assert(file@ =~= rate_text(v.info.bit_rate));
        file.append("  ");
        file.append(fmt_size(v.info.file_size).as_str());
        file.append("  ");
        file.append(fmt_time(v.info.duration).as_str());
        assert(file@ =~= file_text(v.info@));
        draw_detail(items, y + 1_500_000, Ink::Dim, file.as_str());
        let dir = ellipsize_left(parent(v.info.path.as_str()).as_str(), INFO_CH);
        draw_detail(items, y + 3_000_000, Ink::DimPath, dir.as_str());
        assert(drawn(items@) =~= before + self@.details(i as int, y as int));
    }

    pub(crate) fn draw_info(&self, items: &mut Vec<Item>)
        requires
            self@.wf(),
        ensures
            drawn(final(items)@) == drawn(old(items)@) + self@.info_block(
                self@.videos.len() as int,
            ),
    {
        let ghost before = drawn(items@);
        let ghost s = self@;
        let mut y: i64 = 2_200_000 + self.top_inset();
        let mut i: usize = 0;
        assert(before =~= before + s.info_block(0));
        while i < self.videos.len()
            invariant
                self@ == s,
                s.wf(),
                i <= self.videos@.len(),
                y == s.block_top(i as int),
                0 <= y <= FAR,
                drawn(items@) == before + s.info_block(i as int),
            decreases self.videos@.len() - i,
        {
            self.draw_title_row(items, i, y);
            self.draw_details(items, i, y + 2_100_000);
            assert(s.videos[i as int] == self.videos@[i as int]@);
            y = min(
                y + if self.videos[i].player.failed() {
                    4_600_000
                } else {
                    7_200_000
                },
                FAR,
            );
            i = i + 1;
            assert(drawn(items@) =~= before + s.info_block(i as int));
        }
    }
}

} // verus!
