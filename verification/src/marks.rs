//! What is written over the pictures, seen from outside: the letters, the clips'
//! details, the clock and the seek bar.

use crate::app::{AppState, Mode};
use crate::items::{Align, ItemState, RectPx};
use crate::paths::{file_name_of, parent_of};
use crate::readout::{clipped, clipped_left, digits, fixed, signed_digits, size_text, time_text};
use crate::scene::letter;
use crate::tick::ReplyState;
use crate::transport::walk;
use crate::units::{round_div_bounds, round_div_is_nearest, scaled, ONE};
use vstd::prelude::*;

verus! {

/// Whether a run of text is among the items.
pub open spec fn says(items: Seq<ItemState>, text: Seq<char>) -> bool {
    exists|m: int| 0 <= m < items.len() && is_text(#[trigger] items[m], text)
}

pub open spec fn is_text(item: ItemState, text: Seq<char>) -> bool {
    item matches ItemState::Text(t) && t.text == text
}

proof fn lemma_says_left(a: Seq<ItemState>, b: Seq<ItemState>, text: Seq<char>)
    requires
        says(a, text),
    ensures
        says(a + b, text),
{
    let m = choose|m: int| 0 <= m < a.len() && is_text(#[trigger] a[m], text);
    assert((a + b)[m] == a[m]);
}

proof fn lemma_says_right(a: Seq<ItemState>, b: Seq<ItemState>, text: Seq<char>)
    requires
        says(b, text),
    ensures
        says(a + b, text),
{
    let m = choose|m: int| 0 <= m < b.len() && is_text(#[trigger] b[m], text);
    assert((a + b)[a.len() + m] == b[m]);
}

proof fn lemma_says_at(a: Seq<ItemState>, m: int, text: Seq<char>)
    requires
        0 <= m < a.len(),
        is_text(a[m], text),
    ensures
        says(a, text),
{
}

/// Clips are lettered A, B, C and so on.
pub proof fn clips_are_lettered_in_order(i: int)
    requires
        0 <= i < 26,
    ensures
        letter(i).len() == 1,
        letter(i)[0] as int == 'A' as int + i,
{
}

/// The texts of a clip's details: its dimensions, rate and formats; and its bit
/// rate, size and length.
pub open spec fn detail_texts(s: AppState, i: int) -> Seq<Seq<char>> {
    let v = s.videos[i].info;
    let rate = match v.bit_rate {
        Some(b) => fixed(b as nat, 1_000_000, 2) + " Mb/s"@,
        None => "? Mb/s"@,
    };
    seq![
        digits(v.width as nat) + "×"@ + digits(v.height as nat) + "  "@ + fixed(
            v.fps as nat,
            1_000_000_000,
            3,
        ) + " fps  "@ + v.codec + " "@ + v.pix_fmt,
        rate + "  "@ + size_text(v.file_size as nat) + "  "@ + time_text(v.duration),
    ]
}

proof fn lemma_block(s: AppState, i: int, k: int)
    requires
        0 <= i < k,
    ensures
        ({
            let b = s.info_block(k);
            let v = s.videos[i];
            &&& says(b, letter(i))
            &&& says(b, clipped(file_name_of(v.info.path), 34))
            &&& v.player.failed ==> says(b, clipped("DECODE FAILED"@, crate::hud::INFO_CH as nat))
            &&& !v.player.failed ==> {
                &&& says(b, clipped(detail_texts(s, i)[0], crate::hud::INFO_CH as nat))
                &&& says(b, clipped(detail_texts(s, i)[1], crate::hud::INFO_CH as nat))
                &&& says(
                    b,
                    clipped(
                        clipped_left(parent_of(v.info.path), crate::hud::INFO_CH as nat),
                        crate::hud::INFO_CH as nat,
                    ),
                )
            }
        }),
    decreases k,
{
    let v = s.videos[i];
    let n = crate::hud::INFO_CH as nat;
    let path = clipped(clipped_left(parent_of(v.info.path), n), n);
    let y = s.block_top(k - 1);
    let (front, row, more) = (
        s.info_block(k - 1),
        s.title_row(k - 1, y),
        s.details(k - 1, y + 2_100_000),
    );
    let name = clipped(file_name_of(v.info.path), 34);
    let failed = clipped("DECODE FAILED"@, n);
    let (one, two) = (clipped(detail_texts(s, i)[0], n), clipped(detail_texts(s, i)[1], n));
    if i < k - 1 {
        lemma_block(s, i, k - 1);
        lemma_says_left(front, row, letter(i));
        lemma_says_left(front + row, more, letter(i));
        lemma_says_left(front, row, name);
        lemma_says_left(front + row, more, name);
        if v.player.failed {
            lemma_says_left(front, row, failed);
            lemma_says_left(front + row, more, failed);
        } else {
            lemma_says_left(front, row, one);
            lemma_says_left(front + row, more, one);
            lemma_says_left(front, row, two);
            lemma_says_left(front + row, more, two);
            lemma_says_left(front, row, path);
            lemma_says_left(front + row, more, path);
        }
    } else {
        lemma_says_at(row, 2, letter(i));
        lemma_says_right(front, row, letter(i));
        lemma_says_left(front + row, more, letter(i));
        lemma_says_at(row, 3, name);
        lemma_says_right(front, row, name);
        lemma_says_left(front + row, more, name);
        if v.player.failed {
            lemma_says_at(more, 1, failed);
            lemma_says_right(front + row, more, failed);
        } else {
            assert(detail_texts(s, i)[0] =~= crate::hud::picture_text(v.info));
            assert(detail_texts(s, i)[1] =~= crate::hud::file_text(v.info));
            lemma_says_at(more, 1, one);
            lemma_says_right(front + row, more, one);
            lemma_says_at(more, 3, two);
            lemma_says_right(front + row, more, two);
            lemma_says_at(more, 5, path);
            lemma_says_right(front + row, more, path);
        }
    }
}

/// With the interface up every clip is described: by its letter and its name; by
/// its dimensions, rate, formats, bit rate, size, length and place, or by that it
/// failed. Each clip's own, and what is too long is cut.
pub proof fn every_clip_is_described(s: AppState, i: int)
    requires
        0 <= i < s.videos.len(),
        s.show_ui,
        !s.mask_mode,
    ensures
        ({
            let v = s.videos[i];
            &&& says(s.scene(), letter(i))
            &&& says(s.scene(), clipped(file_name_of(v.info.path), 34))
            &&& v.player.failed ==> says(s.scene(), "DECODE FAILED"@)
            &&& !v.player.failed ==> {
                &&& says(s.scene(), clipped(detail_texts(s, i)[0], 65))
                &&& says(s.scene(), clipped(detail_texts(s, i)[1], 65))
                &&& says(s.scene(), clipped_left(parent_of(v.info.path), 65))
            }
        }),
{
    let v = s.videos[i];
    let n = s.videos.len() as int;
    reveal_strlit("DECODE FAILED");
    lemma_block(s, i, n);
    lemma_in_scene(s, letter(i));
    lemma_in_scene(s, clipped(file_name_of(v.info.path), 34));
    if v.player.failed {
        lemma_in_scene(s, "DECODE FAILED"@);
    } else {
        lemma_in_scene(s, clipped(detail_texts(s, i)[0], 65));
        lemma_in_scene(s, clipped(detail_texts(s, i)[1], 65));
        lemma_in_scene(s, clipped_left(parent_of(v.info.path), 65));
    }
}

/// What the information or the transport says, the frame says.
proof fn lemma_in_scene(s: AppState, text: Seq<char>)
    requires
        s.show_ui,
        !s.mask_mode,
        says(s.info_block(s.videos.len() as int), text) || says(s.transport_items(), text) || says(
            s.toggle(),
            text,
        ),
    ensures
        says(s.scene(), text),
{
    let n = s.videos.len() as int;
    let (a, b, c) = (s.brackets() + s.toggle(), s.info_block(n), s.transport_items());
    if says(s.toggle(), text) {
        lemma_says_right(s.brackets(), s.toggle(), text);
        lemma_says_left(a, b, text);
        lemma_says_left(a + b, c, text);
    } else if says(b, text) {
        lemma_says_right(a, b, text);
        lemma_says_left(a + b, c, text);
    } else {
        lemma_says_right(a + b, c, text);
    }
    let base = s.pictures() + s.badges();
    lemma_says_right(base, s.hud(), text);
    lemma_says_left(base + s.hud(), s.status_line(), text);
}

proof fn lemma_walk_says(
    segments: Seq<(Seq<char>, crate::items::Rgba)>,
    i: int,
    j: int,
    x: int,
    y: int,
)
    requires
        0 <= i <= j < segments.len(),
    ensures
        says(walk(segments, i, x, y), segments[j].0),
    decreases j - i,
{
    let nx = x - (660_000 * segments[i].0.len() + 800_000);
    let head = seq![
        crate::scene::line(x, y, 1_100_000, segments[i].1, segments[i].0, Align::Right),
    ];
    let rest = walk(segments, i + 1, nx, y);
    if i == j {
        lemma_says_at(head, 0, segments[j].0);
        lemma_says_left(head, rest, segments[j].0);
    } else {
        lemma_walk_says(segments, i + 1, j, nx, y);
        lemma_says_right(head, rest, segments[j].0);
    }
}

proof fn lemma_readout(s: AppState, j: int)
    requires
        s.revealed() > crate::transport::FAINTEST,
        0 <= j < 5,
    ensures
        says(s.transport_items(), s.readout()[j].0),
{
    let text = s.readout()[j].0;
    let w = walk(s.readout(), 0, s.vp.0 - 2_200_000, s.transport_middle());
    lemma_walk_says(s.readout(), 0, j, s.vp.0 - 2_200_000, s.transport_middle());
    let head = s.scrim() + s.skip_glyph(2_200_000, true) + s.skip_glyph(9_600_000, false)
        + s.play_glyph() + s.seek_bar();
    lemma_says_right(head, w, text);
}

/// Whether a frame number is that of a time: the nearest whole number of frames
/// at that rate.
pub open spec fn is_frame_of(n: int, t: int, fps: int) -> bool {
    let second = 1_000_000_000 * 1_000_000_000;
    2 * (n * second - t * fps) <= second && 2 * (t * fps - n * second) <= second
}

/// While the transport is up it tells the time, the length (or that it is not
/// known), the number of the frame at the comparison's rate, and the speed where
/// that is not one; the view with what it has to set; and the zoom.
pub proof fn the_readout_tells_where_one_is(s: AppState)
    requires
        s.wf(),
        s.videos.len() > 0,
        s.show_ui,
        !s.mask_mode,
        s.since_pointer <= 2_600_000_000,
    ensures
        ({
            let items = s.scene();
            &&& says(items, time_text(s.t as int))
            &&& s.wrap is None ==> says(items, "/ ?"@)
            &&& s.wrap matches Some(w) ==> says(items, "/ "@ + time_text(w as int))
            &&& exists|n: int|
                #![trigger signed_digits(n)]
                is_frame_of(n, s.t as int, s.fps as int) && {
                    let f = "· frame "@ + signed_digits(n);
                    &&& s.speed == 1_000_000_000 ==> says(items, f + " ·"@)
                    &&& s.speed < 999_000_000 || s.speed > 1_001_000_000 ==> says(
                        items,
                        f + " · "@ + fixed(s.speed as nat, 1_000_000_000, 2) + "× ·"@,
                    )
                }
            &&& s.zoom == 1_000_000_000 ==> says(items, "fit"@)
            &&& s.zoom > 1_001_000_000 ==> says(
                items,
                fixed(s.zoom as nat, 1_000_000_000, 1) + "×"@,
            )
            &&& s.videos.len() == 1 ==> says(items, "overlay"@)
            &&& s.videos.len() >= 2 ==> match s.mode {
                Mode::Overlay => says(items, "overlay"@),
                Mode::SideBySide => says(items, "side-by-side"@),
                Mode::Delta => says(
                    items,
                    "delta"@ + "  gain ×"@ + fixed(s.gain as nat, 1_000_000_000, 1),
                ),
                Mode::Split => says(items, "split"@),
                Mode::Checker => says(
                    items,
                    "checker"@ + "  checker "@ + fixed(s.checker_px as nat, 100_000, 0) + "px"@,
                ),
                Mode::Blend => says(
                    items,
                    "blend"@ + "  blend "@ + fixed(s.blend as nat, 10_000_000, 0) + "%"@,
                ),
            }
        }),
{
    reveal(AppState::revealed);
    assert(s.revealed() > crate::transport::FAINTEST);
    lemma_readout(s, 0);
    lemma_readout(s, 1);
    lemma_readout(s, 2);
    lemma_readout(s, 3);
    lemma_readout(s, 4);
    lemma_in_scene(s, s.readout()[0].0);
    lemma_in_scene(s, s.readout()[1].0);
    lemma_in_scene(s, s.readout()[2].0);
    lemma_in_scene(s, s.readout()[3].0);
    lemma_in_scene(s, s.readout()[4].0);
    let second = ONE * ONE;
    let n = s.frame_number();
    let p = s.t * s.fps;
    if p >= 0 {
        round_div_is_nearest(p, second);
    } else {
        round_div_is_nearest(-p, second);
    }
    assert(is_frame_of(n, s.t as int, s.fps as int));
    assert("/ "@ + "?"@ =~= "/ ?"@) by {
        reveal_strlit("/ ");
        reveal_strlit("?");
        reveal_strlit("/ ?");
    }
    let _ = signed_digits(n);
}

/// The knob of the seek bar stands as far along the track as the clock is into
/// the comparison, to the nearest unit; without a known length it stands at the
/// start.
pub proof fn the_knob_stands_at_the_time(s: AppState)
    requires
        s.wf(),
    ensures
        ({
            let track = s.seek_track();
            let bar = s.seek_bar();
            &&& bar.len() >= 1
            &&& bar.last() matches ItemState::Rect(knob)
            &&& {
                let d = knob.r.x + 650_000 - track.x;
                &&& knob.r.w == 1_300_000
                &&& s.wrap is None ==> d == 0
                &&& s.wrap matches Some(w) ==> {
                    &&& s.t <= 0 ==> d == 0
                    &&& s.t >= w ==> d == track.w
                    &&& 0 <= s.t <= w ==> {
                        &&& 2 * (1_000_000_000 * (w * d - track.w * s.t)) <= w * (1_000_000_000
                            + track.w)
                        &&& 2 * (1_000_000_000 * (track.w * s.t - w * d)) <= w * (1_000_000_000
                            + track.w)
                    }
                }
            }
        }),
{
    reveal(AppState::progress);
    let track = s.seek_track();
    let p = s.progress();
    let len = track.w as int;
    let d = scaled(len, p);
    crate::units::scaled_within(len, p);
    if s.wrap is Some {
        let w = s.wrap->0 as int;
        crate::gestures::lemma_scrub(
            len,
            s.t as int,
            RectPx { x: 0, y: 0, w: w as i64, h: 0 },
        );
        assert(crate::geometry::spot(s.t as int, 0, w) == p);
    } else {
        assert(len * 0 == 0);
        round_div_bounds(0, ONE as int, 0, 0);
    }
}

/// The middle button shows what a press on it would not change: bars while
/// playing, a triangle that points on while paused.
pub proof fn the_play_button_shows_the_state(s: AppState)
    ensures
        ({
            let g = s.play_glyph();
            &&& g[0] matches ItemState::Rect(plate)
            &&& plate.r == s.play_button()
            &&& s.playing ==> g.len() == 3 && g[1] is Rect && g[2] is Rect
            &&& !s.playing ==> g.len() == 2 && (g[1] matches ItemState::Triangle {
                left,
                ..
            } && !left)
        }),
{
}

proof fn lemma_segment_says(s: AppState, i: int, k: int)
    requires
        0 <= i < k,
    ensures
        says(s.segments(k), letter(i)),
    decreases k,
{
    if i < k - 1 {
        lemma_segment_says(s, i, k - 1);
        lemma_says_left(s.segments(k - 1), s.segment(k - 1), letter(i));
    } else {
        let g = s.segment(i);
        lemma_says_at(g, g.len() - 1, letter(i));
        lemma_says_right(s.segments(k - 1), g, letter(i));
    }
}

/// The toggle holds every clip's letter, on a plate for the active clip alone.
pub proof fn the_toggle_shows_every_letter(s: AppState, i: int)
    requires
        0 <= i < s.videos.len(),
    ensures
        says(s.toggle(), letter(i)),
        s.segment(i).len() == if i == s.active { 2int } else { 1 },
{
    lemma_segment_says(s, i, s.videos.len() as int);
    lemma_says_right(
        s.toggle().take(1),
        s.segments(s.videos.len() as int),
        letter(i),
    );
    assert(s.toggle() =~= s.toggle().take(1) + s.segments(s.videos.len() as int));
}

/// Whether every one of the items is a run of that text.
pub open spec fn only_says(items: Seq<ItemState>, text: Seq<char>) -> bool {
    forall|m: int| 0 <= m < items.len() ==> is_text(#[trigger] items[m], text)
}

/// The badges name what is seen: in overlay the active clip's letter, compared
/// the active clip's and the next one's, side by side every clip's over its own
/// cell. None while a mask is painted, and with the interface hidden only while
/// the flash of a flip lasts.
pub proof fn the_badges_name_what_is_seen(s: AppState, i: int)
    requires
        s.wf(),
        s.videos.len() > 0,
        0 <= i < s.videos.len(),
    ensures
        ({
            let b = s.badges();
            let n = s.videos.len() as int;
            let alone = s.mode == Mode::Overlay || n == 1;
            let shown = !s.mask_mode && (s.show_ui || s.badge_flash > 0);
            &&& !shown ==> b.len() == 0
            &&& shown && alone ==> b.len() == 2 && only_says(b, letter(s.active as int))
            &&& shown && !alone && s.mode == Mode::SideBySide ==> b.len() == n && is_text(
                b[i],
                letter(i),
            )
            &&& shown && !alone && s.mode != Mode::SideBySide ==> b.len() == 4 && only_says(
                b.take(2),
                letter(s.active as int),
            ) && only_says(b.skip(2), letter((s.active + 1) % n))
        }),
{
    let n = s.videos.len() as int;
    if n > 1 {
        if s.active + 1 < n {
            vstd::arithmetic::div_mod::lemma_small_mod((s.active + 1) as nat, n as nat);
        } else {
            vstd::arithmetic::div_mod::lemma_mod_self_0(n);
        }
    }
    round_div_is_nearest(5 * s.badge_flash, 2);
}

/// A's badge hugs the left edge of the window, the last clip's the right, each in
/// the middle of its height, to within a unit; a letter has its shadow under it.
pub proof fn badges_hug_the_edges(s: AppState, px: int, on: bool)
    requires
        s.videos.len() > 0,
    ensures
        ({
            let n = s.videos.len() as int;
            &&& s.badge(0, px, on)[1] matches ItemState::Text(a)
            &&& a.x == 2_600_000 && a.align == Align::Left && 0 <= 2 * a.y - s.vp.1 <= 1
            &&& n > 1 ==> (s.badge(n - 1, px, on)[1] matches ItemState::Text(z) && z.x == s.vp.0
                - 2_600_000 && z.align == Align::Right)
        }),
{
    let n = s.videos.len() as int;
    round_div_is_nearest(s.vp.1 as int, 2);
    if n > 1 {
        let w = s.vp.0 - 5_200_000;
        assert(0 * w == 0);
        round_div_bounds(0, n - 1, 0, 0);
        vstd::arithmetic::mul::lemma_mul_is_commutative(n - 1, w);
        crate::units::round_div_exact(w, n - 1);
    }
}

/// The status line names the mode of input: painting, or comparing. While
/// painting it tells whose mask it is, how wide the brush is in pixels of the
/// image, and what became of the last save.
pub proof fn the_status_line_names_the_mode(s: AppState)
    ensures
        s.mask_mode ==> says(s.status_line(), "MASK"@) && !says(s.status_line().take(3), "A/B TEST"@),
        !s.mask_mode ==> says(s.status_line(), "A/B TEST"@),
        s.mask_mode && s.mask_status.len() > 0 ==> s.status_text() == letter(s.active as int)
            + " "@ + clipped(file_name_of(s.videos[s.active as int].info.path), 28) + " · brush "@
            + fixed(s.brush_diameter as nat, 100_000, 0) + "px · "@ + s.mask_status,
        s.mask_mode ==> s.status_text().len() > 0 && says(s.status_line(), s.status_text()),
        !s.mask_mode ==> s.status_text().len() == 0,
{
    reveal_strlit("MASK");
    reveal_strlit("A/B TEST");
    let l = s.status_line();
    assert("MASK"@.len() != "A/B TEST"@.len());
    assert(l[2] is Text);
    lemma_says_at(l, 2, if s.mask_mode { "MASK"@ } else { "A/B TEST"@ });
    assert forall|m: int| 0 <= m < l.take(3).len() implies !(s.mask_mode && is_text(
        #[trigger] l.take(3)[m],
        "A/B TEST"@,
    )) by {
        assert(l.take(3)[m] == l[m]);
    }
    if s.mask_mode {
        assert(s.status_text().len() > 0);
        assert(is_text(l[3], s.status_text()));
        lemma_says_at(l, 3, s.status_text());
    }
}

/// A window without clips shows the wordmark in its shape, in the middle across,
/// and asks for a clip; a drag over it lights the line.
pub proof fn the_launch_window_asks_for_a_clip(s: AppState)
    requires
        s.wf(),
        s.vp.0 >= 40_000_000,
    ensures
        ({
            let l = s.launch_items();
            &&& l.len() == 2
            &&& s.drag_hover ==> is_text(l[1], "release to open"@)
            &&& !s.drag_hover ==> is_text(l[1], "drop a video file to begin"@)
            &&& l[0] matches ItemState::Logo { r, alpha }
            &&& alpha == 1_000_000_000
            &&& 0 <= 2 * r.x + r.w - s.vp.0 <= 1
            &&& 24_000_000 <= r.w <= 46_000_000 && r.w < s.vp.0
            &&& r.h <= i64::MAX ==> 2 * (r.h * s.logo_aspect - r.w * 1_000_000_000)
                <= s.logo_aspect && 2 * (r.w * 1_000_000_000 - r.h * s.logo_aspect) <= s.logo_aspect
        }),
{
    let w = s.vp.0 as int;
    let (lw, lh) = s.logo_size();
    round_div_is_nearest(34 * w, 100);
    round_div_is_nearest(w - lw, 2);
    let a = s.logo_aspect as int;
    round_div_is_nearest(lw * ONE, a);
    assert(2 * a * lh == 2 * (lh * a)) by (nonlinear_arith);
    assert(0 <= lh <= 0x1000_0000_0000_0000) by (nonlinear_arith)
        requires
            2 * a * lh <= 2 * (lw * 1_000_000_000) + a,
            2 * (lw * 1_000_000_000) + a < 2 * a * lh + 2 * a,
            0 <= lw <= 46_000_000,
            a >= 1,
    ;
}

/// Side by side, every clip's letter stands just inside the left edge of its own
/// cell, in the middle of the window's height, to within a unit.
pub proof fn cell_letters_stand_in_their_cells(s: AppState, i: int)
    requires
        s.wf(),
        0 <= i < s.videos.len(),
    ensures
        ({
            let n = s.videos.len() as int;
            &&& s.cell_badge(i) matches ItemState::Text(t)
            &&& t.text == letter(i) && t.align == Align::Left
            &&& 2 * (n * (t.x - 2_000_000) - i * s.vp.0) <= i * n
            &&& 2 * (i * s.vp.0 - n * (t.x - 2_000_000)) <= i * n
            &&& 0 <= 2 * t.y - s.vp.1 <= 1
        }),
{
    let n = s.videos.len() as int;
    let w = s.vp.0 as int;
    let c = crate::geometry::cell_width(w, n);
    round_div_is_nearest(w, n);
    round_div_is_nearest(s.vp.1 as int, 2);
    crate::pointer::lemma_cells(w, n, i);
    let nc = n * c;
    assert(2 * n * c == 2 * nc) by (nonlinear_arith)
        requires
            nc == n * c,
    ;
    assert(2 * (i * nc) - 2 * (i * w) <= i * n && 2 * (i * w) - 2 * (i * nc) <= i * n)
        by (nonlinear_arith)
        requires
            2 * nc <= 2 * w + n,
            2 * w + n <= 2 * nc + 2 * n,
            i >= 0,
    ;
    assert(n * (i * c) == i * nc) by (nonlinear_arith)
        requires
            nc == n * c,
    ;
}

/// A badge is a quarter of the window high, or thereabouts, and never smaller
/// than 72 pixels nor larger than 240.
pub proof fn badges_grow_with_the_window(s: AppState)
    ensures
        ({
            let b = s.badge_size();
            let v = 257 * s.vp.1;
            &&& 7_200_000 <= b <= 24_000_000
            &&& 7_200_000_000 <= v <= 24_000_000_000 ==> -500 <= 1_000 * b - v <= 500
        }),
{
    round_div_is_nearest(257 * s.vp.1, 1_000);
}

/// The brush is drawn round the pointer, as wide on screen as it is on the image
/// at the picture's scale: where the pointer is over the picture, and nowhere
/// else.
pub proof fn the_brush_is_drawn_round_the_pointer(s: AppState)
    requires
        s.wf(),
        s.mask_mode,
    ensures
        ({
            let a = s.active as int;
            let l = s.mask_layer();
            let d = s.brush_on_screen();
            let image = (s.masks[a]->0).width * 100_000;
            let over = s.cursor_inside && crate::gestures::over_the_picture(
                s,
                s.cursor.0 as int,
                s.cursor.1 as int,
            );
            &&& !over ==> l.len() == 1
            &&& over ==> {
                &&& l.len() == 3
                &&& 2 * (d * image - s.brush_diameter * s.content(a).w) <= image
                &&& 2 * (s.brush_diameter * s.content(a).w - d * image) <= image
                &&& l[2] matches ItemState::Rect(ring)
                &&& ring.r.w == d && ring.r.h == d
                &&& -1 <= 2 * ring.r.x + d - 2 * s.cursor.0 <= 0
                &&& -1 <= 2 * ring.r.y + d - 2 * s.cursor.1 <= 0
                &&& l[1] matches ItemState::Rect(outer)
                &&& outer.r.w == d + 200_000
            }
        }),
{
    reveal(AppState::brush_visible);
    let a = s.active as int;
    crate::app::clip_ok(s.videos, s.masks, a);
    let image = (s.masks[a]->0).width * 100_000;
    let d = s.brush_on_screen();
    let p = s.brush_diameter * s.content(a).w;
    round_div_is_nearest(p, image);
    assert(2 * image * d == 2 * (d * image)) by (nonlinear_arith);
    round_div_is_nearest(d, 2);
    round_div_is_nearest(d + 200_000, 2);
    lemma_picture_sides(s);
    assert(0 <= p <= 0x10_0000_0000_0000_0000) by (nonlinear_arith)
        requires
            p == s.brush_diameter * s.content(a).w,
            0 <= s.brush_diameter <= 409_600_000,
            0 <= s.content(a).w <= 0x20_0000_0000,
    ;
    assert(0 <= d <= 0x100_0000_0000_0000) by (nonlinear_arith)
        requires
            2 * image * d <= 2 * p + image,
            2 * p + image < 2 * image * d + 2 * image,
            0 <= p <= 409_600_000 * 0x20_0000_0000,
            image >= 100_000,
    ;
}

proof fn lemma_picture_sides(s: AppState)
    requires
        s.wf(),
        s.videos.len() > 0,
    ensures
        0 <= s.content(s.active as int).w <= 0x20_0000_0000,
        0 <= s.brush_diameter * s.content(s.active as int).w <= 409_600_000 * 0x20_0000_0000,
{
    reveal(AppState::content);
    let i = s.active as int;
    crate::app::clip_ok(s.videos, s.masks, i);
    let c = crate::geometry::whole_window(s.vp);
    crate::geometry::the_fit_stays_inside(s.videos[i].dims(), c);
    crate::geometry::lemma_half_view(s.zoom as int);
    crate::geometry::lemma_zoomed_bounds(
        crate::geometry::fit(s.videos[i].dims(), c),
        s.zoom as int,
        s.middle(),
    );
    let w = s.content(i).w as int;
    assert(0 <= s.brush_diameter * w <= 409_600_000 * 0x20_0000_0000) by (nonlinear_arith)
        requires
            0 <= s.brush_diameter <= 409_600_000,
            0 <= w <= 0x20_0000_0000,
    ;
}

/// The glyphs of the transport lie in their buttons and point their way: back on
/// the left, on on the right.
pub proof fn the_skip_glyphs_point_their_way(s: AppState, k: int)
    requires
        0 <= k < 2,
    ensures
        ({
            let (p, n) = (s.skip_glyph(2_200_000, true), s.skip_glyph(9_600_000, false));
            &&& p.len() == 2 && n.len() == 2
            &&& p[k] matches ItemState::Triangle { r, left, .. }
            &&& left && within(r, s.prev_button())
            &&& n[k] matches ItemState::Triangle { r: q, left: back, .. }
            &&& !back && within(q, s.next_button())
        }),
{
}

/// Whether one rectangle lies in another.
pub open spec fn within(a: RectPx, b: RectPx) -> bool {
    &&& b.x <= a.x && a.x + a.w <= b.x + b.w
    &&& b.y <= a.y && a.y + a.h <= b.y + b.h
}

/// The clips' details stand one below the other, none over another, from the top
/// of the window down.
pub proof fn details_stand_below_each_other(s: AppState, k: int)
    requires
        0 <= k,
        s.block_top(k) + 7_200_000 <= crate::hud::FAR,
    ensures
        s.block_top(0) == if s.fullscreen { 2_200_000int } else { 5_000_000 },
        s.block_top(k + 1) == s.block_top(k) + if s.videos[k].player.failed {
            4_600_000int
        } else {
            7_200_000
        },
{
}

/// The letters of the toggle stand from left to right, forty pixels apart, in a
/// pill in the middle of the window, to within a unit.
pub proof fn the_toggle_stands_in_the_middle(s: AppState, i: int)
    requires
        0 <= i,
        i + 1 < s.videos.len() <= 0x1_0000_0000,
    ensures
        ({
            let p = s.pill();
            let (a, b) = (s.segment(i), s.segment(i + 1));
            &&& p.w == 4_000_000 * s.videos.len() + 400_000
            &&& 0 <= 2 * p.x + p.w - s.vp.0 <= 1
            &&& a.last() matches ItemState::Text(t)
            &&& b.last() matches ItemState::Text(u)
            &&& t.text == letter(i) && u.text == letter(i + 1)
            &&& u.x == t.x + 4_000_000
            &&& p.x <= t.x && u.x <= p.x + p.w
        }),
{
    let w = 4_000_000 * s.videos.len() + 400_000;
    round_div_is_nearest(s.vp.0 - w, 2);
}

/// The filled part of the seek bar reaches from its left end to the knob.
pub proof fn the_bar_is_filled_to_the_knob(s: AppState)
    requires
        s.wf(),
    ensures
        ({
            let bar = s.seek_bar();
            let track = s.seek_track();
            &&& bar[0] matches ItemState::Rect(whole)
            &&& whole.r == track
            &&& bar.len() == 3 ==> (bar[1] matches ItemState::Rect(part) && (bar[2]
                matches ItemState::Rect(knob) && part.r.x == track.x && part.r.x + part.r.w
                == knob.r.x + 650_000 && part.r.y == track.y && part.r.h == track.h))
            &&& bar.len() == 2 || bar.len() == 3
        }),
{
    reveal(AppState::progress);
    crate::units::scaled_within(s.seek_track().w as int, s.progress());
}

/// The row of the clip that is shown says so, and no other row does.
pub proof fn the_shown_clip_says_so(s: AppState, i: int, y: int)
    ensures
        ({
            let row = s.title_row(i, y);
            &&& row.len() == if i == s.active { 5int } else { 4 }
            &&& i == s.active ==> is_text(row[4], "● SHOWN"@)
            &&& is_text(row[2], letter(i))
            &&& is_text(row[3], clipped(file_name_of(s.videos[i].info.path), 34))
        }),
{
}

/// The status line lists the keys of the mode: painting, saving and leaving while
/// a mask is painted; playing, stepping, the views and the mask else.
pub proof fn the_keys_listed_are_those_of_the_mode(s: AppState)
    ensures
        s.mask_mode ==> {
            &&& s.live_keys().contains(("drag"@, "paint"@))
            &&& s.live_keys().contains(("+ -"@, "brush"@))
            &&& s.live_keys().contains(("s"@, "save"@))
            &&& s.live_keys().contains(("m"@, "exit"@))
            &&& s.live_keys().contains(("enter"@, "next clip"@))
        },
        !s.mask_mode ==> {
            &&& s.live_keys().contains(("space"@, "play"@))
            &&& s.live_keys().contains(("< >"@, "frame-step"@))
            &&& s.live_keys().contains(("[ ]"@, "speed"@))
            &&& s.live_keys().contains(("v"@, "view"@))
            &&& s.live_keys().contains(("m"@, "mask"@))
            &&& s.live_keys().contains(("tab"@, "info"@))
            &&& s.live_keys().contains(("f"@, "fullscreen"@))
            &&& s.live_keys().contains(("enter"@, "flip"@))
        },
        s.videos.len() == 1 ==> s.live_keys().contains(("1"@, "clip"@)),
        2 <= s.videos.len() <= 9 ==> s.live_keys().contains(
            ("1-"@ + digits(s.videos.len()), "clip"@),
        ),
        s.videos.len() > 9 ==> s.live_keys().contains(("1-"@ + digits(9), "clip"@)),
{
    let k = s.live_keys();
    if s.mask_mode {
        assert(k[0] == ("drag"@, "paint"@) && k[1] == ("+ -"@, "brush"@));
        assert(k[2] == ("s"@, "save"@) && k[4] == ("m"@, "exit"@));
        assert(k[5] == ("enter"@, "next clip"@));
        assert(k[3] == (s.clip_keys(), "clip"@));
    } else {
        assert(k[0] == (s.clip_keys(), "clip"@));
        assert(k[1] == ("space"@, "play"@) && k[2] == ("< >"@, "frame-step"@));
        assert(k[3] == ("[ ]"@, "speed"@) && k[4] == ("v"@, "view"@) && k[5] == ("m"@, "mask"@));
        assert(k[6] == ("tab"@, "info"@) && k[7] == ("f"@, "fullscreen"@));
        assert(k[8] == ("enter"@, "flip"@));
    }
}

/// Keys are drawn from left to right with what they do, as many as there is room
/// for: one that ends before the limit is drawn, the first that does not ends the
/// row.
pub proof fn keys_are_drawn_while_there_is_room(
    keys: Seq<(Seq<char>, Seq<char>)>,
    i: int,
    x: int,
    y: int,
    limit: int,
)
    requires
        0 <= i < keys.len(),
    ensures
        ({
            let caps = crate::statusline::keycaps(keys, i, x, y, limit);
            let end = x + crate::statusline::hint_width(keys[i]);
            &&& end <= limit ==> says(caps, keys[i].0) && says(caps, keys[i].1)
            &&& end > limit ==> caps.len() == 0
            &&& end > x + 720_000 * keys[i].1.len()
        }),
{
    let key = keys[i];
    let end = x + crate::statusline::hint_width(key);
    if end <= limit {
        let caps = crate::statusline::keycaps(keys, i, x, y, limit);
        assert(is_text(caps[3], key.0));
        assert(is_text(caps[4], key.1));
        lemma_says_at(caps, 3, key.0);
        lemma_says_at(caps, 4, key.1);
    }
}

/// A colour fades by its alpha alone, in proportion, to the nearest billionth:
/// wholly at 0, not at all at 1.
pub proof fn colours_fade_by_their_alpha(ink: crate::palette::Ink, alpha: int)
    requires
        0 <= alpha <= 1_000_000_000,
    ensures
        ({
            let (a, b) = (ink.shade(), ink.faded(alpha));
            &&& b.r == a.r && b.g == a.g && b.b == a.b
            &&& 0 <= a.a <= 1_000_000_000
            &&& 2 * (1_000_000_000 * b.a - a.a * alpha) <= 1_000_000_000
            &&& 2 * (a.a * alpha - 1_000_000_000 * b.a) <= 1_000_000_000
            &&& alpha == 0 ==> b.a == 0
            &&& alpha == 1_000_000_000 ==> b == a
        }),
{
    let a = ink.shade();
    assert(0 <= a.a <= ONE);
    crate::units::scaled_within(a.a as int, alpha);
    round_div_is_nearest(a.a * alpha, ONE as int);
    if alpha == 0 {
        assert(a.a * 0 == 0);
        round_div_bounds(0, ONE as int, 0, 0);
    }
}

/// With the interface up the letters show at full strength; hidden, they show
/// while the flash lasts, and fade over its last four tenths of a second.
pub proof fn letters_fade_with_the_flash(s: AppState)
    requires
        s.wf(),
    ensures
        s.show_ui ==> s.badge_alpha() == 1_000_000_000,
        !s.show_ui && s.badge_flash == 0 ==> s.badge_alpha() == 0,
        !s.show_ui && s.badge_flash >= 400_000_000 ==> s.badge_alpha() == 1_000_000_000,
        !s.show_ui && s.badge_flash <= 400_000_000 ==> 0 <= 2 * s.badge_alpha() - 5 * s.badge_flash
            <= 1,
{
    round_div_is_nearest(5 * s.badge_flash, 2);
}

/// Whether a run of text has an ink's hue, however faded.
pub open spec fn has_hue(item: ItemState, ink: crate::palette::Ink) -> bool {
    item matches ItemState::Text(t) && t.color.r == ink.shade().r && t.color.g == ink.shade().g
        && t.color.b == ink.shade().b
}

/// The letter of the clip that is shown is lit in the accent's hue, in the list
/// of clips and over its cell, and no other clip's is; of two clips compared the
/// active one's is.
pub proof fn the_shown_clips_letter_is_lit(s: AppState, i: int, y: int)
    requires
        0 <= i < s.videos.len(),
    ensures
        ({
            let lit = crate::palette::Ink::Accent;
            let b = s.badges();
            &&& has_hue(s.title_row(i, y)[2], lit) <==> i == s.active
            &&& s.title_row(i, y)[1] matches ItemState::Rect(rule)
            &&& rule.color == lit.shade() <==> i == s.active
            &&& has_hue(s.cell_badge(i), lit) <==> i == s.active
            &&& b.len() == 4 && s.mode != Mode::SideBySide ==> has_hue(b[1], lit) && !has_hue(
                b[3],
                lit,
            )
            &&& b.len() == 2 && s.videos.len() == 1 ==> has_hue(b[1], lit)
        }),
{
}

/// Whether a run of text ends `gap` before another begins, both hung by their
/// right edges: a character of it is 6.6 pixels wide.
pub open spec fn clear_of(right: ItemState, left: ItemState, gap: int) -> bool {
    &&& right matches ItemState::Text(a)
    &&& left matches ItemState::Text(b)
    &&& a.align == Align::Right && b.align == Align::Right
    &&& a.y == b.y
    &&& b.x == a.x - 660_000 * a.text.len() - gap
}

proof fn lemma_walk_steps(
    segments: Seq<(Seq<char>, crate::items::Rgba)>,
    i: int,
    j: int,
    x: int,
    y: int,
)
    requires
        0 <= i,
        0 <= j,
        i + j + 1 < segments.len(),
    ensures
        walk(segments, i, x, y).len() > j + 1,
        clear_of(walk(segments, i, x, y)[j], walk(segments, i, x, y)[j + 1], 800_000),
    decreases j,
{
    let nx = x - (660_000 * segments[i].0.len() + 800_000);
    let rest = walk(segments, i + 1, nx, y);
    if j == 0 {
        assert(rest.len() > 0 && rest[0] == crate::scene::line(
            nx,
            y,
            1_100_000,
            segments[i + 1].1,
            segments[i + 1].0,
            Align::Right,
        ));
        assert(walk(segments, i, x, y)[1] == rest[0]);
    } else {
        lemma_walk_steps(segments, i + 1, j - 1, nx, y);
        assert(walk(segments, i, x, y)[j] == rest[j - 1]);
        assert(walk(segments, i, x, y)[j + 1] == rest[j]);
    }
}

/// The readout runs from the right to the left, its parts clear of each other.
pub proof fn the_readouts_parts_are_clear_of_each_other(s: AppState, j: int)
    requires
        0 <= j < 4,
    ensures
        ({
            let w = walk(s.readout(), 0, s.vp.0 - 2_200_000, s.transport_middle());
            &&& w.len() > j + 1
            &&& clear_of(w[j], w[j + 1], 800_000)
            &&& w[0] matches ItemState::Text(t) && t.x == s.vp.0 - 2_200_000
        }),
{
    lemma_walk_steps(s.readout(), 0, j, s.vp.0 - 2_200_000, s.transport_middle());
}

/// Behind the transport the picture is darkened, over its whole width and down
/// to the window's lower edge, and from some way above it.
pub proof fn the_transport_stands_on_a_scrim(s: AppState)
    ensures
        s.scrim()[0] matches ItemState::Rect(shade) && {
            &&& shade.fade_up
            &&& shade.r.x == 0 && shade.r.w == s.vp.0
            &&& shade.r.y + shade.r.h == s.vp.1
            &&& shade.r.y < s.transport().y
        },
        s.scrim()[1] matches ItemState::Rect(rule) && {
            &&& rule.r.x == 0 && rule.r.w == s.vp.0
            &&& rule.r.y == s.transport().y
        },
{
}

/// Whether an item is a bar between those edges.
pub open spec fn is_bar(item: ItemState, x0: int, y0: int, x1: int, y1: int) -> bool {
    item matches ItemState::Rect(b) && b.r.x == x0 && b.r.y == y0 && b.r.x + b.r.w == x1 && b.r.y
        + b.r.h == y1
}

/// The frame has a bracket in each corner: two arms that meet there, sixteen
/// pixels off the edges and clear of the window's own buttons.
pub proof fn brackets_stand_in_the_corners(s: AppState)
    ensures
        ({
            let b = s.brackets();
            let top = if s.fullscreen { 1_600_000int } else { 4_400_000 };
            let (right, bottom) = (s.vp.0 - 1_600_000, s.vp.1 - 1_600_000);
            let (arm, thick) = (2_600_000int, 200_000int);
            let left = 1_600_000int;
            &&& b.len() == 8
            &&& is_bar(b[0], left, top, left + arm, top + thick)
            &&& is_bar(b[1], left, top, left + thick, top + arm)
            &&& is_bar(b[2], right - arm, top, right, top + thick)
            &&& is_bar(b[3], right - thick, top, right, top + arm)
            &&& is_bar(b[4], left, bottom - thick, left + arm, bottom)
            &&& is_bar(b[5], left, bottom - arm, left + thick, bottom)
            &&& is_bar(b[6], right - arm, bottom - thick, right, bottom)
            &&& is_bar(b[7], right - thick, bottom - arm, right, bottom)
        }),
{
}

/// The launch window and the comparison each have a ground of their own.
pub proof fn windows_have_their_ground(s: AppState, dt: int, vp: (u32, u32), reply: ReplyState)
    ensures
        s.videos.len() > 0 ==> s.shown_frame(dt, vp, reply).clear
            == crate::palette::Ink::FrameBg.shade(),
        s.videos.len() == 0 ==> s.shown_frame(dt, vp, reply).clear
            == crate::palette::Ink::LaunchBg.shade(),
{
}

/// The wordmark takes a third of the window's width, not less than 240 pixels
/// nor more than 460, and keeps 48 free on either side; it and the line below it
/// are centred as one.
pub proof fn the_launch_group_is_centred(s: AppState)
    requires
        s.wf(),
    ensures
        ({
            let (w, h) = (s.vp.0 as int, s.vp.1 as int);
            &&& s.launch_items()[0] matches ItemState::Logo { r, .. }
            &&& r.w <= w - 9_600_000 && r.w <= 46_000_000
            &&& r.w == w - 9_600_000 || r.w >= 24_000_000
            &&& 33_600_000 <= w && 2_400_000_000 < 34 * w < 4_600_000_000 ==> -50 <= 100 * r.w
                - 34 * w <= 50
            &&& 34 * w >= 4_600_000_000 ==> r.w == 46_000_000
            &&& 33_600_000 <= w && 34 * w <= 2_400_000_000 ==> r.w == 24_000_000
            &&& 0 <= 2 * r.x + r.w - w <= 1
            &&& 0 <= 2 * r.y + r.h + 4_900_000 - h <= 1
            &&& s.launch_items()[1] matches ItemState::Text(t)
            &&& t.align == Align::Center && t.y == r.y + r.h + 3_600_000
            &&& 0 <= 2 * t.x - w <= 1
        }),
{
    let w = s.vp.0 as int;
    let lw = s.logo_size().0;
    let a = s.logo_aspect as int;
    round_div_is_nearest(34 * w, 100);
    assert(-9_600_000 <= lw <= 46_000_000);
    let m = 0x1000_0000_0000_0000int;
    assert(-m * a <= lw * ONE && lw * ONE <= m * a) by (nonlinear_arith)
        requires
            -9_600_000 <= lw <= 46_000_000,
            a >= 1,
            m == 0x1000_0000_0000_0000int,
    ;
    round_div_bounds(lw * ONE, a, -m, m);
    let lh = s.logo_size().1;
    round_div_is_nearest(w - lw, 2);
    round_div_is_nearest(w, 2);
    round_div_is_nearest(s.vp.1 - (lh + 4_900_000), 2);
}

/// The keys leave room for what is said at the right: they end 24 pixels before
/// it begins, a character being 6.6 pixels wide, and at its place where nothing
/// is said.
pub proof fn the_keys_end_before_the_status(s: AppState)
    ensures
        ({
            let n = s.status_text().len() as int;
            let right = s.vp.0 - 1_600_000;
            &&& n > 0 ==> s.keys_limit() == right - 660_000 * n - 2_400_000
            &&& n == 0 ==> s.keys_limit() == right
            &&& n > 0 ==> exists|m: int|
                0 <= m < s.status_line().len() && (#[trigger] s.status_line()[m] matches ItemState::Text(
                    t,
                ) && t.text == s.status_text() && t.x == right && t.align == Align::Right)
            &&& !s.mask_mode ==> n == 0
        }),
{
    if s.status_text().len() > 0 {
        let m = 3int;
        assert(is_text(s.status_line()[m], s.status_text()));
    }
}

} // verus!
