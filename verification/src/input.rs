//! What keys and the pointer do to the application.

use crate::app::{
    clip_ok, clips_ok, fits, fps_of, half_more, ids_ok, is_known, loop_point, mask_states, quarter_more, video_states,
    wrap_upto, App, AppState, Cmd, Mode, SaveJob, Video, VideoState, MIDDLE, SHORTEST,
    TITLEBAR_H, WRAP_MARGIN,
};
use crate::geometry::lemma_half_view;
use crate::mask::{Mask, MaskIds, MaskState};
use crate::paths::output_path;
use crate::player::refilled;
use crate::units::{
    clamp, div_round, max, min, round_div_bounds, round_div_sign, time_ok, ONE, PX, TIME_LIMIT,
};
use vstd::prelude::*;

verus! {

/// The shortest known duration is a duration, and no known one is shorter.
pub proof fn the_loop_point_is_the_shortest_duration(
    videos: Seq<VideoState>,
    k: int,
)
    requires
        0 <= k <= videos.len(),
    ensures
        wrap_upto(videos, k) matches Some(w) ==> {
            &&& exists|i: int| 0 <= i < k && #[trigger] videos[i].info.duration == w
            &&& is_known(w)
            &&& forall|i: int|
                0 <= i < k && is_known(#[trigger] videos[i].info.duration)
                    ==> videos[i].info.duration >= w
        },
        wrap_upto(videos, k) is None ==> forall|i: int|
            0 <= i < k ==> !is_known(#[trigger] videos[i].info.duration),
    decreases k,
{
    if k > 0 {
        the_loop_point_is_the_shortest_duration(videos, k - 1);
        let d = videos[k - 1].info.duration;
        if wrap_upto(videos, k - 1) is None {
            assert(videos[k - 1].info.duration == d);
        }
    }
}

fn find_fps(videos: &Vec<Video>) -> (r: i64)
    requires
        forall|i: int| 0 <= i < videos@.len() ==> (#[trigger] video_states(videos@)[i]).wf(),
    ensures
        r == fps_of(video_states(videos@)),
        ONE < r <= TIME_LIMIT,
{
    assert(videos@.len() > 0 ==> video_states(videos@)[0].wf());
    if videos.len() > 0 && videos[0].info.fps > ONE {
        videos[0].info.fps
    } else {
        30 * ONE
    }
}

fn find_wrap(videos: &Vec<Video>) -> (r: Option<i64>)
    requires
        forall|i: int| 0 <= i < videos@.len() ==> (#[trigger] video_states(videos@)[i]).wf(),
    ensures
        r == loop_point(video_states(videos@)),
        r matches Some(w) ==> SHORTEST < w <= TIME_LIMIT,
{
    proof {
        reveal(loop_point);
    }
    let mut w: Option<i64> = None;
    let mut k: usize = 0;
    while k < videos.len()
        invariant
            k <= videos@.len(),
            forall|i: int| 0 <= i < videos@.len() ==> (#[trigger] video_states(videos@)[i]).wf(),
            match w {
                Some(v) => wrap_upto(video_states(videos@), k as int) == Some(v as int) && SHORTEST
                    < v <= TIME_LIMIT,
                None => wrap_upto(video_states(videos@), k as int) is None,
            },
        decreases videos@.len() - k,
    {
        let d: i64 = videos[k].info.duration;
        assert(video_states(videos@)[k as int].wf());
        if d > SHORTEST && d < TIME_LIMIT {
            w = match w {
                Some(v) => Some(min(v, d)),
                None => Some(d),
            };
        }
        k = k + 1;
    }
    w
}

/// `n` slots without a mask.
fn no_masks(n: usize) -> (r: Vec<Option<Mask>>)
    ensures
        r@.len() == n,
        forall|i: int| 0 <= i < n ==> #[trigger] r@[i] is None,
{
    let mut r: Vec<Option<Mask>> = Vec::new();
    let mut i: usize = 0;
    while i < n
        invariant
            i <= n,
            r@.len() == i,
            forall|k: int| 0 <= k < i ==> #[trigger] r@[k] is None,
        decreases n - i,
    {
        r.push(None);
        i = i + 1;
    }
    r
}

fn grow_half(v: i64, up: bool) -> (r: i64)
    requires
        0 <= v <= 0x1000_0000_0000,
    ensures
        r == half_more(v as int, up),
{
    proof {
        round_div_bounds(3 * v, 2, 0, 3 * v);
        round_div_bounds(2 * v, 3, 0, 2 * v);
    }
    if up {
        div_round(3 * v as i128, 2) as i64
    } else {
        div_round(2 * v as i128, 3) as i64
    }
}

pub(crate) fn grow_quarter(v: i64, up: bool) -> (r: i64)
    requires
        0 <= v <= 0x1000_0000_0000,
    ensures
        r == quarter_more(v as int, up),
        up ==> v <= r,
        !up ==> 0 <= r <= v,
{
    proof {
        round_div_bounds(5 * v, 4, v as int, 5 * v);
        round_div_bounds(4 * v, 5, 0, v as int);
    }
    if up {
        div_round(5 * v as i128, 4) as i64
    } else {
        div_round(4 * v as i128, 5) as i64
    }
}

/// A seek leaves a clip in order.
proof fn lemma_sought_wf(v: VideoState, target: int, paused: bool)
    requires
        v.wf(),
        target <= TIME_LIMIT,
    ensures
        v.sought(target, paused).wf(),
        v.rewound().wf(),
{
}

fn seek_each(videos: &mut Vec<Video>, target: i64, paused: bool)
    requires
        time_ok(target as int),
        forall|i: int| 0 <= i < old(videos)@.len() ==> (#[trigger] video_states(old(videos)@)[i]).wf(),
    ensures
        video_states(final(videos)@) == Seq::new(
            old(videos)@.len(),
            |i: int| video_states(old(videos)@)[i].sought(target as int, paused),
        ),
        forall|i: int| 0 <= i < final(videos)@.len() ==> (#[trigger] video_states(final(videos)@)[i]).wf(),
{
    let ghost before = video_states(videos@);
    let mut i: usize = 0;
    while i < videos.len()
        invariant
            time_ok(target as int),
            i <= videos@.len(),
            videos@.len() == before.len(),
            forall|k: int| 0 <= k < before.len() ==> (#[trigger] before[k]).wf(),
            forall|k: int|
                0 <= k < before.len() ==> #[trigger] video_states(videos@)[k] == if k < i {
                    before[k].sought(target as int, paused)
                } else {
                    before[k]
                },
        decreases videos@.len() - i,
    {
        let ghost prev = videos@;
        assert(video_states(prev)[i as int] == before[i as int]);
        assert(before[i as int].wf());
        videos[i].player.seek(target, true);
        if paused {
            videos[i].pending = true;
        }
        assert(videos@[i as int]@ == before[i as int].sought(target as int, paused));
        assert forall|k: int| 0 <= k < before.len() && k != i implies #[trigger] video_states(videos@)[k]
            == video_states(prev)[k] by {}
        i = i + 1;
    }
    assert(video_states(videos@) =~= Seq::new(
        before.len(),
        |k: int| before[k].sought(target as int, paused),
    ));
    assert forall|k: int| 0 <= k < videos@.len() implies (#[trigger] video_states(videos@)[k]).wf() by {
        assert(before[k].wf());
        lemma_sought_wf(before[k], target as int, paused);
    }
}

impl App {
    pub fn new(videos: Vec<Video>, mode: Mode) -> (r: App)
        requires
            forall|i: int| 0 <= i < videos@.len() ==> (#[trigger] video_states(videos@)[i]).wf(),
        ensures
            r@ == AppState::fresh(video_states(videos@), mode),
            r@.wf(),
    {
        proof {
            lemma_half_view(ONE as int);
        }
        let fps: i64 = find_fps(&videos);
        let wrap = find_wrap(&videos);
        let masks = no_masks(videos.len());
        let ghost clips = video_states(videos@);
        let r = App {
            videos,
            active: 0,
            masks,
            mask_ids: MaskIds::new(),
            mask_mode: false,
            brush_diameter: 6_400_000,
            painting: false,
            stroke_last: None,
            cursor_inside: false,
            mask_status: String::new(),
            saving: false,
            save_job: None,
            t: 0,
            playing: true,
            started: false,
            mode,
            zoom: ONE,
            center: (MIDDLE, MIDDLE),
            speed: ONE,
            show_ui: true,
            gain: 4_000_000_000,
            blend: MIDDLE,
            checker_px: 4_800_000,
            badge_flash: 0,
            fullscreen: false,
            cursor: (0, 0),
            drag: None,
            since_pointer: 0,
            scrubbing: false,
            vp: (128_000_000, 80_000_000),
            fps,
            wrap,
            drag_hover: false,
            logo_aspect: 3_000_000_000,
            cmds: Vec::new(),
        };
        proof {
            reveal(clips_ok);
            reveal(ids_ok);
        }
        assert(r@.masks =~= AppState::fresh(clips, mode).masks);
        assert(r@.mask_status =~= Seq::empty());
        r
    }

    /// Something to show.
    pub fn ready(&self) -> (r: bool)
        ensures
            r == self@.is_ready(),
    {
        self.videos.len() > 0
    }

    /// The mode actually drawn.
    pub fn shown_mode(&self) -> (r: Mode)
        ensures
            r == self@.shown(),
    {
        if self.videos.len() < 2 {
            Mode::Overlay
        } else {
            self.mode
        }
    }

    pub fn top_inset(&self) -> (r: i64)
        ensures
            r == self@.inset(),
            0 <= r <= TITLEBAR_H,
    {
        if self.fullscreen {
            0
        } else {
            TITLEBAR_H
        }
    }

    pub fn set_logo_aspect(&mut self, aspect: i64)
        requires
            old(self)@.wf(),
            aspect >= 1,
        ensures
            final(self)@ == (AppState { logo_aspect: aspect, ..old(self)@ }),
            final(self)@.wf(),
    {
        self.logo_aspect = aspect;
    }

    /// A file drag entered or left the window.
    pub fn set_drag_hover(&mut self, on: bool)
        requires
            old(self)@.wf(),
        ensures
            final(self)@ == (AppState { drag_hover: on, ..old(self)@ }),
            final(self)@.wf(),
    {
        self.drag_hover = on;
    }

    /// What the window has to do, handed over.
    pub fn take_cmds(&mut self) -> (r: Vec<Cmd>)
        requires
            old(self)@.wf(),
        ensures
            r@ == old(self)@.cmds,
            final(self)@ == (AppState { cmds: Seq::empty(), ..old(self)@ }),
            final(self)@.wf(),
    {
        let mut r: Vec<Cmd> = Vec::new();
        std::mem::swap(&mut r, &mut self.cmds);
        assert(self@.cmds =~= Seq::empty());
        r
    }

    /// The save to start, handed over.
    pub fn take_save_job(&mut self) -> (r: Option<SaveJob>)
        requires
            old(self)@.wf(),
        ensures
            crate::app::job_state(r) == old(self)@.save_job,
            final(self)@ == (AppState { save_job: None, ..old(self)@ }),
            final(self)@.wf(),
    {
        self.save_job.take()
    }

    pub fn mouse_up(&mut self)
        requires
            old(self)@.wf(),
        ensures
            final(self)@ == old(self)@.released(),
            final(self)@.wf(),
    {
        self.painting = false;
        self.stroke_last = None;
        self.drag = None;
        self.scrubbing = false;
    }

    pub fn cursor_left(&mut self)
        requires
            old(self)@.wf(),
        ensures
            final(self)@ == (AppState { cursor_inside: false, ..old(self)@ }).released(),
            final(self)@.wf(),
    {
        self.cursor_inside = false;
        self.mouse_up();
    }

    /// Hands a presented frame's buffer back to its decoder's pool.
    pub fn recycle(&mut self, idx: usize, buf: Vec<u8>)
        requires
            old(self)@.wf(),
        ensures
            idx >= old(self)@.videos.len() ==> final(self)@ == old(self)@,
            idx < old(self)@.videos.len() ==> final(self)@ == (AppState {
                videos: old(self)@.videos.update(
                    idx as int,
                    VideoState {
                        player: crate::player::PlayerState {
                            pool: refilled(old(self)@.videos[idx as int].player.pool, seq![buf@]),
                            ..old(self)@.videos[idx as int].player
                        },
                        ..old(self)@.videos[idx as int]
                    },
                ),
                ..old(self)@
            }),
            final(self)@ == old(self)@.recycled(idx as int, buf@),
            final(self)@.wf(),
    {
        let ghost before = self@;
        let ghost content = buf@;
        if idx < self.videos.len() {
            proof {
                clip_ok(before.videos, before.masks, idx as int);
            }
            self.videos[idx].player.recycle(buf);
            assert(self@.videos =~= before.videos.update(
                idx as int,
                VideoState {
                    player: crate::player::PlayerState {
                        pool: refilled(before.videos[idx as int].player.pool, seq![content]),
                        ..before.videos[idx as int].player
                    },
                    ..before.videos[idx as int]
                },
            ));
            proof {
                reveal(clips_ok);
                assert forall|i: int| 0 <= i < self@.masks.len() implies fits(
                    #[trigger] self@.masks[i],
                    self@.videos[i],
                ) by {
                    assert(fits(before.masks[i], before.videos[i]));
                }
            }
        }
    }

    /// Sends every stream, and the clock, to `target`.
    pub(crate) fn seek_all(&mut self, target: i64)
        requires
            old(self)@.wf(),
            time_ok(target as int),
        ensures
            final(self)@ == old(self)@.sought(target as int),
            final(self)@.wf(),
    {
        let ghost before = self@;
        let paused = !self.playing;
        proof {
            reveal(clips_ok);
        }
        seek_each(&mut self.videos, target, paused);
        self.t = target;
        proof {
            reveal(AppState::sought);
            assert(self@.videos =~= before.sought(target as int).videos);
            assert forall|k: int| 0 <= k < self@.masks.len() implies fits(
                #[trigger] self@.masks[k],
                self@.videos[k],
            ) by {
                assert(fits(before.masks[k], before.videos[k]));
            }
        }
    }

    /// Where a step leads.
    fn step_time(&self, forward: bool) -> (r: i64)
        requires
            self@.wf(),
        ensures
            r == self@.step_target(forward),
            time_ok(r as int),
    {
        let fps: i128 = self.fps as i128;
        let one: i128 = ONE as i128;
        proof {
            round_div_sign(ONE * ONE, 2 * self.fps);
            round_div_sign(3 * ONE * ONE, 2 * self.fps);
        }
        if forward {
            let d: i128 = div_round(one * one, 2 * fps);
            let t: i128 = self.t as i128 + d;
            if t > TIME_LIMIT as i128 {
                TIME_LIMIT
            } else {
                t as i64
            }
        } else {
            let d: i128 = div_round(3 * one * one, 2 * fps);
            let t: i128 = self.t as i128 - d;
            if t < 0 {
                0
            } else {
                t as i64
            }
        }
    }

    /// Step one frame; the delivered frame's true pts is then adopted as the
    /// clock.
    pub(crate) fn step(&mut self, forward: bool)
        requires
            old(self)@.wf(),
        ensures
            final(self)@ == old(self)@.stepped(forward),
            final(self)@.wf(),
    {
        proof {
            reveal(AppState::stepped);
        }
        let ghost before = self@;
        let target: i64 = self.step_time(forward);
        self.playing = false;
        assert(self@ == AppState { playing: false, ..before });
        self.seek_all(target);
    }

    pub(crate) fn seek_by(&mut self, delta: i64)
        requires
            old(self)@.wf(),
            -ONE <= delta <= ONE,
        ensures
            final(self)@ == old(self)@.nudged(delta as int),
            final(self)@.wf(),
    {
        proof {
            reveal(AppState::nudged);
        }
        let last: i64 = match self.wrap {
            Some(w) => max(w - WRAP_MARGIN, 0),
            None => TIME_LIMIT,
        };
        self.seek_all(clamp(self.t + delta, 0, last));
    }

    pub(crate) fn adjust_param(&mut self, up: bool)
        requires
            old(self)@.wf(),
        ensures
            final(self)@ == old(self)@.adjusted(up),
            final(self)@.wf(),
    {
        proof {
            reveal(AppState::adjusted);
        }
        match self.mode {
            Mode::Blend => {
                let d: i64 = if up {
                    100_000_000
                } else {
                    -100_000_000
                };
                self.blend = clamp(self.blend + d, 0, ONE);
            },
            Mode::Checker => {
                self.checker_px = clamp(grow_half(self.checker_px, up), 4 * PX, 512 * PX);
            },
            _ => {
                self.gain = clamp(grow_half(self.gain, up), ONE, 64 * ONE);
            },
        }
    }

    pub(crate) fn resize_brush(&mut self, larger: bool)
        requires
            old(self)@.wf(),
        ensures
            final(self)@ == old(self)@.brush_resized(larger),
            final(self)@.wf(),
    {
        proof {
            reveal(AppState::brush_resized);
        }
        self.brush_diameter = clamp(grow_quarter(self.brush_diameter, larger), PX, 4096 * PX);
        self.stroke_last = None;
    }

    /// Gives the active clip a mask where it has none.
    pub(crate) fn ensure_mask(&mut self)
        requires
            old(self)@.is_ready(),
            old(self)@.active < old(self)@.videos.len(),
            clips_ok(old(self)@.videos, old(self)@.masks),
            ids_ok(old(self)@.masks, old(self)@.next_mask_id),
            old(self)@.masks.len() == old(self)@.videos.len(),
        ensures
            final(self)@ == old(self)@.with_mask(),
            final(self)@ == (AppState {
                masks: final(self)@.masks,
                next_mask_id: final(self)@.next_mask_id,
                ..old(self)@
            }),
            clips_ok(final(self)@.videos, final(self)@.masks),
            ids_ok(final(self)@.masks, final(self)@.next_mask_id),
            final(self)@.masks.len() == old(self)@.masks.len(),
            final(self)@.masks[old(self)@.active as int] is Some,
    {
        let ghost before = self@;
        let a: usize = self.active;
        proof {
            reveal(AppState::with_mask);
            clip_ok(before.videos, before.masks, a as int);
        }
        assert(before.masks[a as int] == crate::app::mask_state(self.masks@[a as int]));
        if self.masks[a].is_none() {
            let (w, h) = (self.videos[a].player.w, self.videos[a].player.h);
            let m = Mask::new(&mut self.mask_ids, w, h);
            self.masks.set(a, Some(m));
            assert(self@.masks =~= before.with_mask().masks);
            proof {
                lemma_with_mask_fits(before);
            }
        }
    }

    /// Show clip `idx` (Enter's flip, or its number key directly).
    pub(crate) fn select(&mut self, idx: usize)
        requires
            old(self)@.wf(),
            idx < old(self)@.videos.len(),
        ensures
            final(self)@ == old(self)@.selected(idx as int),
            final(self)@.wf(),
    {
        proof {
            reveal(AppState::selected);
        }
        let ghost before = self@;
        self.active = idx;
        self.badge_flash = 1_200_000_000;
        self.painting = false;
        self.stroke_last = None;
        self.drag = None;
        self.scrubbing = false;
        if self.mask_mode {
            self.ensure_mask();
            self.mask_status = String::new();
            assert(self@.mask_status =~= Seq::empty());
        }
    }

    /// Hands the focused mask over for saving.
    pub(crate) fn save_mask(&mut self)
        requires
            old(self)@.wf(),
            old(self)@.mask_mode,
        ensures
            final(self)@ == old(self)@.saved(),
            final(self)@.wf(),
    {
        proof {
            reveal(AppState::saved);
        }
        if self.saving {
            return;
        }
        let ghost before = self@;
        let a: usize = self.active;
        assert(before.masks[a as int] == crate::app::mask_state(self.masks@[a as int]));
        match &self.masks[a] {
            Some(m) => {
                let pixels = m.pixels.clone();
                assert(pixels@ =~= m.pixels@);
                let path = output_path(self.videos[a].info.path.as_str());
                self.save_job = Some(SaveJob { path, width: m.width, height: m.height, pixels });
            },
            None => {},
        }
        self.saving = true;
        self.mask_status = "Saving…".to_owned();
    }

    /// Take on newly loaded clips. They fill the next free slots in order (A,
    /// B, C…); `replace` starts a fresh comparison from the first of them
    /// instead.
    ///
    /// Every stream rewinds to 0: the arrivals decode from the top, and a
    /// clip already running that kept its position would be out of sync with
    /// them.
    #[verifier::spinoff_prover]
    pub fn add_videos(&mut self, videos: Vec<Video>, replace: bool)
        requires
            old(self)@.wf(),
            forall|i: int| 0 <= i < videos@.len() ==> (#[trigger] video_states(videos@)[i]).wf(),
        ensures
            final(self)@ == old(self)@.joined(video_states(videos@), replace),
            final(self)@.wf(),
    {
        let ghost s = self@;
        let ghost new = video_states(videos@);
        proof {
            lemma_joined(s, new, replace);
            lemma_half_view(ONE as int);
        }
        if videos.len() == 0 {
            return;
        }
        assert(forall|i: int|
            0 <= i < self.videos@.len() ==> (#[trigger] video_states(self.videos@)[i]).wf()) by {
            reveal(clips_ok);
        }
        join_masks(&mut self.masks, videos.len(), replace);
        join_clips(&mut self.videos, videos, replace);
        assert(self@.videos == s.joined_clips(new, replace)) by {
            reveal(AppState::joined_clips);
            assert(self@.videos =~= s.joined_clips(new, replace));
        }
        assert(self@.masks == s.joined_masks(new.len(), replace)) by {
            reveal(AppState::joined_masks);
            assert(self@.masks =~= s.joined_masks(new.len(), replace));
        }
        assert(forall|i: int|
            0 <= i < self.videos@.len() ==> (#[trigger] video_states(self.videos@)[i]).wf()) by {
            reveal(clips_ok);
        }
        let total: usize = self.videos.len();
        assert(self@.videos.len() == total);
        self.fps = find_fps(&self.videos);
        self.wrap = find_wrap(&self.videos);
        self.mask_mode = false;
        self.painting = false;
        self.stroke_last = None;
        self.mask_status = String::new();
        assert(self.mask_status@ =~= Seq::empty());
        self.t = 0;
        self.started = false;
        self.playing = true;
        self.active = 0;
        self.speed = ONE;
        self.zoom = ONE;
        self.center = (MIDDLE, MIDDLE);
        self.since_pointer = 0;
        self.drag = None;
        self.scrubbing = false;
        self.drag_hover = false;
    }
}

proof fn lemma_joined(s: AppState, new: Seq<VideoState>, replace: bool)
    requires
        s.wf(),
        forall|i: int| 0 <= i < new.len() ==> (#[trigger] new[i]).wf(),
    ensures
        new.len() == 0 ==> s.joined(new, replace) == s,
        new.len() > 0 ==> ({
            let all = s.joined_clips(new, replace);
            s.joined(new, replace) == (AppState {
                videos: all,
                masks: s.joined_masks(new.len(), replace),
                mask_mode: false,
                painting: false,
                stroke_last: None,
                mask_status: Seq::empty(),
                fps: fps_of(all) as i64,
                wrap: loop_point(all),
                t: 0,
                started: false,
                playing: true,
                active: 0,
                speed: ONE,
                zoom: ONE,
                center: (MIDDLE, MIDDLE),
                since_pointer: 0,
                drag: None,
                scrubbing: false,
                drag_hover: false,
                ..s
            })
        }),
        clips_ok(s.joined_clips(new, replace), s.joined_masks(new.len(), replace)),
        ids_ok(s.joined_masks(new.len(), replace), s.next_mask_id),
        s.joined_clips(new, replace).len() == s.joined_masks(new.len(), replace).len(),
        s.joined_clips(new, replace).len() <= s.videos.len() + new.len(),
{
    reveal(AppState::joined);
    reveal(AppState::joined_clips);
    reveal(AppState::joined_masks);
    reveal(clips_ok);
    reveal(ids_ok);
    let all = s.joined_clips(new, replace);
    let masks = s.joined_masks(new.len(), replace);
    assert forall|i: int| 0 <= i < all.len() implies (#[trigger] all[i]).wf() by {
        if !replace && i < s.videos.len() {
            assert(s.videos[i].wf());
            lemma_sought_wf(s.videos[i], 0, false);
        } else if replace {
            assert(all[i] == new[i]);
        } else {
            assert(all[i] == new[i - s.videos.len()]);
        }
    }
    assert forall|i: int| 0 <= i < masks.len() implies fits(#[trigger] masks[i], all[i]) by {
        if !replace && i < s.masks.len() {
            assert(fits(s.masks[i], s.videos[i]));
        }
    }
}

fn join_masks(masks: &mut Vec<Option<Mask>>, n: usize, replace: bool)
    ensures
        mask_states(final(masks)@) == if replace {
            Seq::new(n as nat, |i: int| None::<MaskState>)
        } else {
            mask_states(old(masks)@) + Seq::new(n as nat, |i: int| None::<MaskState>)
        },
{
    let ghost before = mask_states(masks@);
    if replace {
        masks.clear();
    }
    let mut more = no_masks(n);
    masks.append(&mut more);
    assert(mask_states(masks@) =~= if replace {
        Seq::new(n as nat, |i: int| None::<MaskState>)
    } else {
        before + Seq::new(n as nat, |i: int| None::<MaskState>)
    });
}

/// Every clip back at the start.
fn rewind_each(videos: &mut Vec<Video>)
    requires
        forall|i: int| 0 <= i < old(videos)@.len() ==> (#[trigger] video_states(old(videos)@)[i]).wf(),
    ensures
        video_states(final(videos)@) == Seq::new(
            old(videos)@.len(),
            |i: int| video_states(old(videos)@)[i].rewound(),
        ),
{
    let ghost before = video_states(videos@);
    let mut i: usize = 0;
    while i < videos.len()
        invariant
            i <= videos@.len(),
            videos@.len() == before.len(),
            forall|k: int| 0 <= k < before.len() ==> (#[trigger] before[k]).wf(),
            forall|k: int|
                0 <= k < before.len() ==> #[trigger] video_states(videos@)[k] == if k < i {
                    before[k].rewound()
                } else {
                    before[k]
                },
        decreases videos@.len() - i,
    {
        let ghost prev = videos@;
        assert(video_states(prev)[i as int] == before[i as int]);
        assert(before[i as int].wf());
        videos[i].player.seek(0, true);
        videos[i].pending = false;
        videos[i].delivered = false;
        assert(videos@[i as int]@ == before[i as int].rewound());
        assert forall|k: int| 0 <= k < before.len() && k != i implies #[trigger] video_states(videos@)[k]
            == video_states(prev)[k] by {}
        i = i + 1;
    }
    assert(video_states(videos@) =~= Seq::new(before.len(), |k: int| before[k].rewound()));
}

fn join_clips(videos: &mut Vec<Video>, new: Vec<Video>, replace: bool)
    requires
        forall|i: int| 0 <= i < old(videos)@.len() ==> (#[trigger] video_states(old(videos)@)[i]).wf(),
    ensures
        video_states(final(videos)@) == if replace {
            video_states(new@)
        } else {
            Seq::new(old(videos)@.len(), |i: int| video_states(old(videos)@)[i].rewound())
                + video_states(new@)
        },
{
    let ghost before = video_states(videos@);
    let ghost added = video_states(new@);
    if replace {
        *videos = new;
        return;
    }
    rewind_each(videos);
    let ghost mid = videos@;
    let mut new = new;
    videos.append(&mut new);
    assert(video_states(videos@) =~= video_states(mid) + added);
}

/// Giving the active clip a mask keeps every mask fitting its clip, and their
/// ids apart.
proof fn lemma_with_mask_fits(s: AppState)
    requires
        clips_ok(s.videos, s.masks),
        ids_ok(s.masks, s.next_mask_id),
        s.active < s.videos.len(),
    ensures
        clips_ok(s.videos, s.with_mask().masks),
        ids_ok(s.with_mask().masks, s.with_mask().next_mask_id),
{
    let a = s.active as int;
    let m = s.with_mask();
    reveal(clips_ok);
    reveal(ids_ok);
    reveal(AppState::with_mask);
    assert(s.videos[a].wf());
    let (w, h) = (s.videos[a].player.w, s.videos[a].player.h);
    assert(w * h >= 0) by (nonlinear_arith);
    assert(MaskState::blank(s.next_mask_id, w, h).wf());
    assert forall|i: int| 0 <= i < m.masks.len() implies fits(#[trigger] m.masks[i], s.videos[i]) by {
        assert(fits(s.masks[i], s.videos[i]));
    }
}

} // verus!
