//! Application state: the master clock, the view modes, and what every key
//! and pointer event does to them.
//!
//! Sync model: one master time `t` advances by wall-clock time while
//! playing; every player queues frames and each frame the application pops
//! everything due (newest wins). All streams answer to the same clock, so
//! switching the displayed video can never jump in time: the other stream
//! was already decoding the same moment.

use crate::geometry::{
    cell_width, center_for, center_ok, dims_ok, fit, half, panned, rect, share, spot, whole_window,
    zoom_ok, zoomed, ZOOM_MAX, ZOOM_MIN,
};
use crate::items::RectPx;
use crate::mask::{id_after, Mask, MaskIds, MaskState};
use crate::paths::with_extension;
use crate::player::{Player, PlayerState};
use crate::probe::{playable, InfoState, VideoInfo};
use crate::units::{held, least, most, round_div, scaled, time_ok, ONE, PX, TIME_LIMIT};
use vstd::prelude::*;

verus! {

/// Logical height of the titlebar strip the window buttons float in.
pub const TITLEBAR_H: i64 = 2_800_000;

/// Bottom status line (mode chip and keycaps).
pub const STATUS_H: i64 = 3_400_000;

/// Playback loops this long before the shortest stream ends.
pub const WRAP_MARGIN: i64 = 50_000_000;

/// Transport strip: padding, controls, gap and the status line.
pub const TRANSPORT_H: i64 = 9_000_000;

/// Width reserved right of the seek bar for the status readout.
pub const STATUS_RESERVE: i64 = 33_000_000;

/// Extra grab margin above and below the seek track.
pub const SEEK_GRAB: i64 = 900_000;

/// Pointer stillness before the transport starts fading, and the fade.
pub const TRANSPORT_HOLD: i64 = 2_600_000_000;

pub const TRANSPORT_FADE: i64 = 450_000_000;

/// The ratio one half: the middle of the picture.
pub const MIDDLE: i64 = 500_000_000;

/// A duration counts as known only above this.
pub const SHORTEST: i64 = 100_000_000;

#[derive(Debug, Clone, Copy, PartialEq, Eq, Structural)]
pub enum Mode {
    /// Videos stacked on top of each other; Enter flips which one shows.
    Overlay,
    SideBySide,
    /// Amplified difference.
    Delta,
    /// Vertical wipe, divider follows the pointer.
    Split,
    Checker,
    /// Adjustable mix.
    Blend,
}

impl Mode {
    /// The mode's name in the readout.
    pub open spec fn title(self) -> Seq<char> {
        match self {
            Mode::Overlay => "overlay"@,
            Mode::SideBySide => "side-by-side"@,
            Mode::Delta => "delta"@,
            Mode::Split => "split"@,
            Mode::Checker => "checker"@,
            Mode::Blend => "blend"@,
        }
    }

    pub fn name(self) -> (r: String)
        ensures
            r@ == self.title(),
    {
        match self {
            Mode::Overlay => "overlay".to_owned(),
            Mode::SideBySide => "side-by-side".to_owned(),
            Mode::Delta => "delta".to_owned(),
            Mode::Split => "split".to_owned(),
            Mode::Checker => "checker".to_owned(),
            Mode::Blend => "blend".to_owned(),
        }
    }

    /// The views in the order of the cycle.
    pub open spec fn all() -> Seq<Mode> {
        seq![
            Mode::Overlay,
            Mode::SideBySide,
            Mode::Delta,
            Mode::Split,
            Mode::Checker,
            Mode::Blend,
        ]
    }

    /// The view's place in the cycle.
    pub open spec fn place(self) -> int {
        match self {
            Mode::Overlay => 0,
            Mode::SideBySide => 1,
            Mode::Delta => 2,
            Mode::Split => 3,
            Mode::Checker => 4,
            Mode::Blend => 5,
        }
    }

    /// The view that many steps on in the cycle, or back where `steps` is
    /// below 0.
    pub open spec fn turned(self, steps: int) -> Mode {
        Mode::all()[(self.place() + steps) % 6]
    }

    /// The view `dir` steps on in the cycle: the next with 1, the previous
    /// with -1.
    pub fn cycle(self, dir: i32) -> (r: Mode)
        ensures
            r == self.turned(dir as int),
    {
        let i: i64 = match self {
            Mode::Overlay => 0,
            Mode::SideBySide => 1,
            Mode::Delta => 2,
            Mode::Split => 3,
            Mode::Checker => 4,
            Mode::Blend => 5,
        };
        // A whole number of rounds on, so that the remainder is of a sum
        // that is not below 0.
        let k: i64 = (i + dir as i64 + 2_147_483_652) % 6;
        assert(k == (self.place() + dir) % 6);
        if k == 0 {
            Mode::Overlay
        } else if k == 1 {
            Mode::SideBySide
        } else if k == 2 {
            Mode::Delta
        } else if k == 3 {
            Mode::Split
        } else if k == 4 {
            Mode::Checker
        } else {
            Mode::Blend
        }
    }

    /// The view that a word on the command line names.
    pub open spec fn named(s: Seq<char>) -> Option<Mode> {
        if s == "1"@ || s == "overlay"@ {
            Some(Mode::Overlay)
        } else if s == "2"@ || s == "sbs"@ || s == "side-by-side"@ {
            Some(Mode::SideBySide)
        } else if s == "3"@ || s == "delta"@ {
            Some(Mode::Delta)
        } else if s == "4"@ || s == "split"@ {
            Some(Mode::Split)
        } else if s == "5"@ || s == "checker"@ {
            Some(Mode::Checker)
        } else if s == "6"@ || s == "blend"@ {
            Some(Mode::Blend)
        } else {
            None
        }
    }

    pub fn parse(s: &str) -> (r: Option<Mode>)
        ensures
            r == Mode::named(s@),
    {
        let s = s.to_owned();
        if s == "1".to_owned() || s == "overlay".to_owned() {
            Some(Mode::Overlay)
        } else if s == "2".to_owned() || s == "sbs".to_owned() || s == "side-by-side".to_owned() {
            Some(Mode::SideBySide)
        } else if s == "3".to_owned() || s == "delta".to_owned() {
            Some(Mode::Delta)
        } else if s == "4".to_owned() || s == "split".to_owned() {
            Some(Mode::Split)
        } else if s == "5".to_owned() || s == "checker".to_owned() {
            Some(Mode::Checker)
        } else if s == "6".to_owned() || s == "blend".to_owned() {
            Some(Mode::Blend)
        } else {
            None
        }
    }
}

/// Steps through the views add up, and six come round.
pub proof fn the_view_cycle_closes(m: Mode, a: int, b: int)
    ensures
        m.turned(a).turned(b) == m.turned(a + b),
        m.turned(0) == m,
        m.turned(6) == m,
        m.turned(1).turned(-1) == m,
        m.turned(-1).turned(1) == m,
{
    assert(Mode::all()[(m.place() + a) % 6].place() == (m.place() + a) % 6);
}

/// Six steps show every view once.
pub proof fn the_view_cycle_shows_every_view(m: Mode, n: Mode)
    ensures
        exists|k: int| 0 <= k < 6 && #[trigger] m.turned(k) == n,
        forall|j: int, k: int|
            0 <= j < 6 && 0 <= k < 6 && #[trigger] m.turned(j) == #[trigger] m.turned(k) ==> j
                == k,
{
    let k = (n.place() - m.place()) % 6;
    assert(m.turned(k) == n);
    assert forall|j: int, k: int|
        0 <= j < 6 && 0 <= k < 6 && #[trigger] m.turned(j) == #[trigger] m.turned(k) implies j
        == k by {
        assert(m.turned(j).place() == (m.place() + j) % 6);
        assert(m.turned(k).place() == (m.place() + k) % 6);
    }
}

#[derive(Debug, Clone, Copy, PartialEq, Eq, Structural)]
pub enum Key {
    Char(char),
    Left,
    Right,
    Enter,
    Space,
    Escape,
    Tab,
    Backspace,
}

/// What a press of the mouse button lands on.
#[derive(Debug, Clone, Copy, PartialEq, Eq, Structural)]
pub enum Target {
    Prev,
    Play,
    Next,
    Seek,
    /// The open frame: a pan starts.
    Frame,
}

/// What the window has to do.
#[derive(Debug, Clone, Copy, PartialEq, Eq, Structural)]
pub enum Cmd {
    Quit,
    ToggleFullscreen,
}

pub struct Video {
    pub info: VideoInfo,
    pub player: Player,
    pub shown_pts: i64,
    pub delivered: bool,
    /// Waiting to adopt the first frame after an exact seek while paused.
    pub pending: bool,
}

/// A clip's content.
pub struct VideoState {
    pub info: InfoState,
    pub player: PlayerState,
    pub shown_pts: i64,
    pub delivered: bool,
    pub pending: bool,
}

impl View for Video {
    type V = VideoState;

    open spec fn view(&self) -> VideoState {
        VideoState {
            info: self.info@,
            player: self.player@,
            shown_pts: self.shown_pts,
            delivered: self.delivered,
            pending: self.pending,
        }
    }
}

impl VideoState {
    /// The picture can be shown, and its numbers are in range.
    pub open spec fn wf(self) -> bool {
        &&& dims_ok(self.dims())
        &&& self.player.wf()
        &&& 2 <= self.player.w
        &&& 2 <= self.player.h
        &&& self.player.w * self.player.h <= isize::MAX
        &&& 0 <= self.info.fps <= TIME_LIMIT
        &&& time_ok(self.info.duration)
    }

    pub open spec fn dims(self) -> (u32, u32) {
        (self.info.width, self.info.height)
    }

    /// A clip as it is loaded.
    pub open spec fn loaded(info: InfoState, id: u64) -> VideoState {
        VideoState {
            info,
            player: PlayerState::spawned(id, info.width, info.height),
            shown_pts: 0,
            delivered: false,
            pending: false,
        }
    }

    /// After a seek of every stream: a paused one waits for the landing
    /// frame.
    pub open spec fn sought(self, target: int, paused: bool) -> VideoState {
        VideoState {
            player: self.player.sought(target, true),
            pending: self.pending || paused,
            ..self
        }
    }

    /// Back at the start, as if just loaded.
    pub open spec fn rewound(self) -> VideoState {
        VideoState {
            player: self.player.sought(0, true),
            pending: false,
            delivered: false,
            ..self
        }
    }
}

/// Whether a clip's picture has a size and can be held.
pub open spec fn showable(info: InfoState) -> bool {
    &&& dims_ok((info.width, info.height))
    &&& most(info.width as int, 2) * most(info.height as int, 2) <= isize::MAX
}

impl Video {
    /// A clip ready for its decoder, or nothing where its picture is too
    /// large to hold (or has no size).
    pub fn load(info: VideoInfo, id: u64) -> (r: Option<Video>)
        requires
            playable(info@),
        ensures
            match r {
                Some(v) => showable(info@) && v@ == VideoState::loaded(info@, id) && v@.wf(),
                None => !showable(info@),
            },
    {
        if info.width < 1 || info.height < 1 {
            return None;
        }
        let player = Player::spawn(id, info.width, info.height);
        proof {
            assert(0 <= player.w * player.h <= 0xffff_ffff * 0xffff_ffff) by (nonlinear_arith)
                requires
                    player.w <= 0xffff_ffff,
                    player.h <= 0xffff_ffff,
            ;
        }
        if player.w as u64 * player.h as u64 > isize::MAX as u64 {
            return None;
        }
        Some(Video { info, player, shown_pts: 0, delivered: false, pending: false })
    }
}

/// A mask on its way to a file.
pub struct SaveJob {
    pub path: String,
    pub width: u32,
    pub height: u32,
    pub pixels: Vec<u8>,
}

/// A job's content.
pub struct JobState {
    pub path: Seq<char>,
    pub width: u32,
    pub height: u32,
    pub pixels: Seq<u8>,
}

impl View for SaveJob {
    type V = JobState;

    open spec fn view(&self) -> JobState {
        JobState {
            path: self.path@,
            width: self.width,
            height: self.height,
            pixels: self.pixels@,
        }
    }
}

pub struct App {
    pub videos: Vec<Video>,
    pub active: usize,
    pub masks: Vec<Option<Mask>>,
    pub mask_ids: MaskIds,
    pub mask_mode: bool,
    pub brush_diameter: i64,
    pub painting: bool,
    pub stroke_last: Option<(i64, i64)>,
    pub cursor_inside: bool,
    pub mask_status: String,
    /// A save is running.
    pub saving: bool,
    /// A save waiting to be started.
    pub save_job: Option<SaveJob>,
    /// Master clock, content time.
    pub t: i64,
    pub playing: bool,
    /// Clock held at 0 until every stream delivered its first frame, so all
    /// streams anchor on the same instant.
    pub started: bool,
    pub mode: Mode,
    /// Photo-style zoom: 1 is fit; pinch scales around the pointer.
    pub zoom: i64,
    /// Content point (as ratios of the video) held at the view's center. All
    /// videos share it, so pan and zoom stay position-synced.
    pub center: (i64, i64),
    /// Playback rate multiplier.
    pub speed: i64,
    pub show_ui: bool,
    /// Delta amplification.
    pub gain: i64,
    pub blend: i64,
    pub checker_px: i64,
    /// Time left on the big active-letter flash.
    pub badge_flash: i64,
    pub fullscreen: bool,
    pub cursor: (i32, i32),
    /// Last pointer position while a drag-pan is held.
    pub drag: Option<(i32, i32)>,
    /// Time of pointer stillness: drives the transport's reveal.
    pub since_pointer: i64,
    /// Dragging the seek bar (pins the transport open).
    pub scrubbing: bool,
    pub vp: (u32, u32),
    pub fps: i64,
    /// Loop point: shortest stream duration, where one is known.
    pub wrap: Option<i64>,
    /// A file drag is hovering the window.
    pub drag_hover: bool,
    /// Width over height of the wordmark.
    pub logo_aspect: i64,
    pub cmds: Vec<Cmd>,
}

/// The application's content.
pub struct AppState {
    pub videos: Seq<VideoState>,
    pub active: usize,
    pub masks: Seq<Option<MaskState>>,
    pub next_mask_id: u64,
    pub mask_mode: bool,
    pub brush_diameter: i64,
    pub painting: bool,
    pub stroke_last: Option<(i64, i64)>,
    pub cursor_inside: bool,
    pub mask_status: Seq<char>,
    pub saving: bool,
    pub save_job: Option<JobState>,
    pub t: i64,
    pub playing: bool,
    pub started: bool,
    pub mode: Mode,
    pub zoom: i64,
    pub center: (i64, i64),
    pub speed: i64,
    pub show_ui: bool,
    pub gain: i64,
    pub blend: i64,
    pub checker_px: i64,
    pub badge_flash: i64,
    pub fullscreen: bool,
    pub cursor: (i32, i32),
    pub drag: Option<(i32, i32)>,
    pub since_pointer: i64,
    pub scrubbing: bool,
    pub vp: (u32, u32),
    pub fps: i64,
    pub wrap: Option<i64>,
    pub drag_hover: bool,
    pub logo_aspect: i64,
    pub cmds: Seq<Cmd>,
}

pub open spec fn video_states(videos: Seq<Video>) -> Seq<VideoState> {
    Seq::new(videos.len(), |i: int| videos[i]@)
}

pub open spec fn mask_state(mask: Option<Mask>) -> Option<MaskState> {
    match mask {
        Some(m) => Some(m@),
        None => None,
    }
}

pub open spec fn mask_states(masks: Seq<Option<Mask>>) -> Seq<Option<MaskState>> {
    Seq::new(masks.len(), |i: int| mask_state(masks[i]))
}

pub open spec fn job_state(job: Option<SaveJob>) -> Option<JobState> {
    match job {
        Some(j) => Some(j@),
        None => None,
    }
}

impl View for App {
    type V = AppState;

    open spec fn view(&self) -> AppState {
        AppState {
            videos: video_states(self.videos@),
            active: self.active,
            masks: mask_states(self.masks@),
            next_mask_id: self.mask_ids.next,
            mask_mode: self.mask_mode,
            brush_diameter: self.brush_diameter,
            painting: self.painting,
            stroke_last: self.stroke_last,
            cursor_inside: self.cursor_inside,
            mask_status: self.mask_status@,
            saving: self.saving,
            save_job: job_state(self.save_job),
            t: self.t,
            playing: self.playing,
            started: self.started,
            mode: self.mode,
            zoom: self.zoom,
            center: self.center,
            speed: self.speed,
            show_ui: self.show_ui,
            gain: self.gain,
            blend: self.blend,
            checker_px: self.checker_px,
            badge_flash: self.badge_flash,
            fullscreen: self.fullscreen,
            cursor: self.cursor,
            drag: self.drag,
            since_pointer: self.since_pointer,
            scrubbing: self.scrubbing,
            vp: self.vp,
            fps: self.fps,
            wrap: self.wrap,
            drag_hover: self.drag_hover,
            logo_aspect: self.logo_aspect,
            cmds: self.cmds@,
        }
    }
}

/// The frame rate of a comparison: the first clip's, where it is believable.
pub open spec fn fps_of(videos: Seq<VideoState>) -> int {
    if videos.len() > 0 && videos[0].info.fps > ONE {
        videos[0].info.fps
    } else {
        30 * ONE
    }
}

/// Whether a clip's duration is known: a clip has one that is long enough to
/// be one, and short of the end of time, where every longer one is held.
pub open spec fn is_known(d: int) -> bool {
    SHORTEST < d < TIME_LIMIT
}

/// The shortest known duration among the first `k` clips.
pub open spec fn wrap_upto(videos: Seq<VideoState>, k: int) -> Option<int>
    decreases k,
{
    if k <= 0 {
        None
    } else {
        let d = videos[k - 1].info.duration;
        match wrap_upto(videos, k - 1) {
            None => if is_known(d) { Some(d) } else { None },
            Some(w) => Some(if is_known(d) { least(w, d) } else { w }),
        }
    }
}

/// The loop point of a comparison.
pub open spec fn wrap_of(videos: Seq<VideoState>) -> Option<int> {
    wrap_upto(videos, videos.len() as int)
}

/// The loop point as the clock holds it.
#[verifier::opaque]
pub open spec fn loop_point(videos: Seq<VideoState>) -> Option<i64> {
    match wrap_of(videos) {
        Some(w) => Some(w as i64),
        None => None,
    }
}

/// A mask fits the picture it belongs to.
pub open spec fn fits(mask: Option<MaskState>, video: VideoState) -> bool {
    mask matches Some(m) ==> m.wf() && m.width == video.player.w && m.height == video.player.h
}

/// Every clip can be shown, and every mask fits its clip.
#[verifier::opaque]
pub open spec fn clips_ok(videos: Seq<VideoState>, masks: Seq<Option<MaskState>>) -> bool {
    &&& masks.len() == videos.len()
    &&& forall|i: int| 0 <= i < videos.len() ==> (#[trigger] videos[i]).wf()
    &&& forall|i: int| 0 <= i < masks.len() ==> fits(#[trigger] masks[i], videos[i])
}

pub proof fn clip_ok(videos: Seq<VideoState>, masks: Seq<Option<MaskState>>, i: int)
    requires
        clips_ok(videos, masks),
        0 <= i < videos.len(),
    ensures
        videos[i].wf(),
        fits(masks[i], videos[i]),
{
    reveal(clips_ok);
}

/// No two masks share an id, and none has the one that is given out next:
/// until the numbers run out.
#[verifier::opaque]
pub open spec fn ids_ok(masks: Seq<Option<MaskState>>, next: u64) -> bool {
    next < u64::MAX ==> {
        &&& forall|i: int|
            0 <= i < masks.len() ==> (#[trigger] masks[i] matches Some(m) ==> m.id < next)
        &&& forall|i: int, j: int|
            0 <= i < j < masks.len() && #[trigger] masks[i] is Some && #[trigger] masks[j] is Some
                ==> masks[i]->0.id != masks[j]->0.id
    }
}

impl AppState {
    pub open spec fn wf(self) -> bool {
        &&& self.videos.len() <= usize::MAX
        &&& self.masks.len() == self.videos.len()
        &&& clips_ok(self.videos, self.masks)
        &&& ids_ok(self.masks, self.next_mask_id)
        &&& self.videos.len() == 0 ==> self.active == 0 && self.zoom == ONE && !self.mask_mode
        &&& self.videos.len() > 0 ==> self.active < self.videos.len()
        &&& self.mask_mode ==> self.masks[self.active as int] is Some
        &&& zoom_ok(self.zoom as int)
        &&& center_ok(self.zoom as int, self.middle())
        &&& PX <= self.brush_diameter <= 4096 * PX
        &&& time_ok(self.t as int)
        &&& ONE / 4 <= self.speed <= 4 * ONE
        &&& ONE <= self.gain <= 64 * ONE
        &&& 0 <= self.blend <= ONE
        &&& 4 * PX <= self.checker_px <= 512 * PX
        &&& 0 <= self.badge_flash <= 2 * ONE
        &&& 0 <= self.since_pointer <= TIME_LIMIT
        &&& ONE < self.fps <= TIME_LIMIT
        &&& self.wrap matches Some(w) ==> SHORTEST < w <= TIME_LIMIT
        &&& self.logo_aspect >= 1
    }

    pub open spec fn middle(self) -> (int, int) {
        (self.center.0 as int, self.center.1 as int)
    }

    /// Something to show. One clip is enough: it lands in slot A and plays.
    pub open spec fn is_ready(self) -> bool {
        self.videos.len() > 0
    }

    /// The mode actually drawn. A lone clip has nothing to compare against,
    /// so every mode shows it plain.
    pub open spec fn shown(self) -> Mode {
        if self.videos.len() < 2 { Mode::Overlay } else { self.mode }
    }

    /// Top margin for rows that would otherwise sit under the window
    /// buttons.
    pub open spec fn inset(self) -> int {
        if self.fullscreen { 0 } else { TITLEBAR_H as int }
    }

    /// Where clip `i` is shown when it fills the window.
    #[verifier::opaque]
    pub open spec fn content(self, i: int) -> RectPx {
        zoomed(fit(self.videos[i].dims(), whole_window(self.vp)), self.zoom as int, self.middle())
    }

    /// The mouse button is up: no gesture goes on.
    pub open spec fn released(self) -> AppState {
        AppState { painting: false, stroke_last: None, drag: None, scrubbing: false, ..self }
    }

    /// The active clip has a mask: a blank one where it had none.
    #[verifier::opaque]
    pub open spec fn with_mask(self) -> AppState {
        let a = self.active as int;
        if self.masks[a] is None {
            AppState {
                masks: self.masks.update(
                    a,
                    Some(
                        MaskState::blank(
                            self.next_mask_id,
                            self.videos[a].player.w,
                            self.videos[a].player.h,
                        ),
                    ),
                ),
                next_mask_id: id_after(self.next_mask_id),
                ..self
            }
        } else {
            self
        }
    }

    /// Clip `idx` is shown.
    #[verifier::opaque]
    pub open spec fn selected(self, idx: int) -> AppState {
        let s = AppState { active: idx as usize, badge_flash: 1_200_000_000, ..self }.released();
        if self.mask_mode {
            AppState { mask_status: Seq::empty(), ..s.with_mask() }
        } else {
            s
        }
    }

    /// Every stream is sent to `target`, and so is the clock.
    #[verifier::opaque]
    pub open spec fn sought(self, target: int) -> AppState {
        AppState {
            videos: Seq::new(
                self.videos.len(),
                |i: int| self.videos[i].sought(target, !self.playing),
            ),
            t: target as i64,
            ..self
        }
    }

    /// One frame on or back, paused. Targets sit half a frame period past or
    /// before the current frame, so rounding can't land on the same frame.
    #[verifier::opaque]
    pub open spec fn stepped(self, forward: bool) -> AppState {
        let s = AppState { playing: false, ..self };
        s.sought(self.step_target(forward))
    }

    pub open spec fn step_target(self, forward: bool) -> int {
        if forward {
            least(self.t + round_div(ONE * ONE, 2 * self.fps), TIME_LIMIT as int)
        } else {
            most(self.t - round_div(3 * ONE * ONE, 2 * self.fps), 0)
        }
    }

    /// The last instant that can be sought to.
    pub open spec fn last_instant(self) -> int {
        match self.wrap {
            Some(w) => most(w - WRAP_MARGIN, 0),
            None => TIME_LIMIT as int,
        }
    }

    #[verifier::opaque]
    pub open spec fn nudged(self, delta: int) -> AppState {
        self.sought(held(self.t + delta, 0, self.last_instant()))
    }

    #[verifier::opaque]
    pub open spec fn adjusted(self, up: bool) -> AppState {
        match self.mode {
            Mode::Blend => AppState {
                blend: held(
                    self.blend + if up { 100_000_000 } else { -100_000_000int },
                    0,
                    ONE as int,
                ) as i64,
                ..self
            },
            Mode::Checker => AppState {
                checker_px: held(half_more(self.checker_px as int, up), 4 * PX, 512 * PX) as i64,
                ..self
            },
            _ => AppState {
                gain: held(half_more(self.gain as int, up), ONE as int, 64 * ONE) as i64,
                ..self
            },
        }
    }

    #[verifier::opaque]
    pub open spec fn brush_resized(self, larger: bool) -> AppState {
        AppState {
            brush_diameter: held(quarter_more(self.brush_diameter as int, larger), PX as int, 4096 * PX) as i64,
            stroke_last: None,
            ..self
        }
    }

    /// The focused mask is handed over for saving, unless a save is running.
    #[verifier::opaque]
    pub open spec fn saved(self) -> AppState {
        if self.saving {
            self
        } else {
            let m = self.masks[self.active as int]->0;
            AppState {
                saving: true,
                save_job: Some(
                    JobState {
                        path: with_extension(
                            self.videos[self.active as int].info.path,
                            "mask.png"@,
                        ),
                        width: m.width,
                        height: m.height,
                        pixels: m.pixels,
                    },
                ),
                mask_status: "Saving…"@,
                ..self
            }
        }
    }

    #[verifier::opaque]
    pub open spec fn fullscreen_toggled(self) -> AppState {
        AppState {
            fullscreen: !self.fullscreen,
            cmds: self.cmds.push(Cmd::ToggleFullscreen),
            ..self
        }
    }

    /// Escape leaves fullscreen, else quits.
    #[verifier::opaque]
    pub open spec fn escaped(self) -> AppState {
        if self.fullscreen {
            self.fullscreen_toggled()
        } else {
            AppState { cmds: self.cmds.push(Cmd::Quit), ..self }
        }
    }

    /// Keys on the launch window, where only the global ones are live.
    #[verifier::opaque]
    pub open spec fn launch_keyed(self, k: Key) -> AppState {
        match k {
            Key::Escape => self.escaped(),
            Key::Char(c) => if c == 'q' || c == 'Q' {
                AppState { cmds: self.cmds.push(Cmd::Quit), ..self }
            } else if c == 'f' || c == 'F' {
                self.fullscreen_toggled()
            } else {
                self
            },
            _ => self,
        }
    }

    /// Mask painting is switched on (paused) or off.
    #[verifier::opaque]
    pub open spec fn mask_toggled(self) -> AppState {
        let s = AppState { mask_mode: !self.mask_mode, ..self }.released();
        if self.mask_mode {
            s
        } else {
            AppState { playing: false, ..s }.with_mask()
        }
    }

    /// The keys that mean something else while painting.
    pub open spec fn is_mask_key(k: Key) -> bool {
        match k {
            Key::Escape => true,
            Key::Char(c) => c == '+' || c == '=' || c == '-' || c == '_' || c == 's' || c == 'S',
            _ => false,
        }
    }

    #[verifier::opaque]
    pub open spec fn mask_keyed(self, k: Key) -> AppState {
        match k {
            Key::Escape => AppState { mask_mode: false, ..self }.released(),
            Key::Char(c) => if c == '+' || c == '=' {
                self.brush_resized(true)
            } else if c == '-' || c == '_' {
                self.brush_resized(false)
            } else {
                self.saved()
            },
            _ => self,
        }
    }

    /// The keys of the comparison.
    #[verifier::opaque]
    pub open spec fn compare_keyed(self, k: Key) -> AppState {
        match k {
            Key::Enter => self.selected(following(self.active as int, self.videos.len() as int)),
            Key::Space => AppState { playing: !self.playing, ..self },
            Key::Tab => AppState { show_ui: !self.show_ui, ..self },
            Key::Left => self.nudged(-ONE as int),
            Key::Right => self.nudged(ONE as int),
            Key::Escape => self.escaped(),
            Key::Backspace => AppState { speed: ONE, ..self },
            Key::Char(c) => self.char_keyed(c),
        }
    }

    #[verifier::opaque]
    pub open spec fn char_keyed(self, c: char) -> AppState {
        if c == 'V' {
            AppState { mode: self.mode.turned(-1), ..self }
        } else if '1' <= c && c <= '9' {
            let idx = c as int - '1' as int;
            if idx < self.videos.len() { self.selected(idx) } else { self }
        } else if c == 'q' || c == 'Q' {
            AppState { cmds: self.cmds.push(Cmd::Quit), ..self }
        } else if c == 'f' || c == 'F' {
            self.fullscreen_toggled()
        } else if c == 'z' || c == 'Z' {
            AppState { zoom: ONE, center: (MIDDLE, MIDDLE), ..self }
        } else if c == '[' {
            AppState {
                speed: most(quarter_more(self.speed as int, false), ONE as int / 4) as i64,
                ..self
            }
        } else if c == ']' {
            AppState {
                speed: least(quarter_more(self.speed as int, true), 4 * ONE) as i64,
                ..self
            }
        } else if c == ',' || c == '<' {
            self.stepped(false)
        } else if c == '.' || c == '>' {
            self.stepped(true)
        } else if c == '-' {
            self.adjusted(false)
        } else if c == '=' || c == '+' {
            self.adjusted(true)
        } else if c == 'v' {
            AppState { mode: self.mode.turned(1), ..self }
        } else {
            self
        }
    }

    /// Whether a character means anything to the comparison.
    pub open spec fn is_compare_char(c: char) -> bool {
        ||| c == 'V' || c == 'v' || '1' <= c && c <= '9'
        ||| c == 'q' || c == 'Q' || c == 'f' || c == 'F' || c == 'z' || c == 'Z'
        ||| c == '[' || c == ']' || c == ',' || c == '<' || c == '.' || c == '>'
        ||| c == '-' || c == '=' || c == '+'
    }

    /// What a key does.
    pub open spec fn keyed(self, k: Key) -> AppState {
        if !self.is_ready() {
            self.launch_keyed(k)
        } else if k == Key::Char('m') || k == Key::Char('M') {
            self.mask_toggled()
        } else if self.mask_mode && Self::is_mask_key(k) {
            self.mask_keyed(k)
        } else if self.mask_mode {
            AppState { stroke_last: None, ..self }.compare_keyed(k)
        } else {
            self.compare_keyed(k)
        }
    }

    /// The fit rect a pointer gesture is anchored to: the hovered cell in
    /// side-by-side, the active video's full-window fit otherwise.
    #[verifier::opaque]
    pub open spec fn gesture_base(self, x: int) -> RectPx {
        let n = self.videos.len() as int;
        if self.mode == Mode::SideBySide && !self.mask_mode {
            let cw = most(cell_width(self.vp.0 as int, n), PX as int);
            let i = least(most(x / cw, 0), n - 1);
            fit(self.videos[i].dims(), rect(i * cw, 0, cw, self.vp.1 as int))
        } else {
            fit(self.videos[self.active as int].dims(), whole_window(self.vp))
        }
    }

    /// The view's middle moved with the pointer by `(dx, dy)`, the gesture at
    /// `x`.
    #[verifier::opaque]
    pub open spec fn pan_center(self, dx: int, dy: int, x: int) -> (i64, i64) {
        let base = self.gesture_base(x);
        let zoom = self.zoom as int;
        (
            panned(self.center.0 - share(dx, scaled(base.w as int, zoom)), zoom) as i64,
            panned(self.center.1 - share(dy, scaled(base.h as int, zoom)), zoom) as i64,
        )
    }

    /// The zoom that a pinch leads to.
    pub open spec fn pinch_zoom(self, delta: int) -> int {
        held(scaled(self.zoom as int, ONE + delta), ONE as int, ZOOM_MAX as int)
    }

    /// Whether a pinch changes anything.
    pub open spec fn pinch_acts(self, delta: int) -> bool {
        self.is_ready() && !(-10_000 < self.pinch_zoom(delta) - self.zoom < 10_000)
    }

    /// The view's middle after a pinch to the zoom `new` around the pointer:
    /// whatever sits under the pointer stays put.
    #[verifier::opaque]
    pub open spec fn pinch_center(self, new: int) -> (i64, i64) {
        let (cx, cy) = (self.cursor.0 as int, self.cursor.1 as int);
        let base = self.gesture_base(cx);
        let r = zoomed(base, self.zoom as int, self.middle());
        let u = spot(cx, r.x as int, r.w as int);
        let v = spot(cy, r.y as int, r.h as int);
        (
            panned(center_for(u, cx, base.x as int, base.w as int, new), new) as i64,
            panned(center_for(v, cy, base.y as int, base.h as int, new), new) as i64,
        )
    }

    /// After a pinch.
    #[verifier::opaque]
    pub open spec fn pinched(self, delta: int) -> AppState {
        let new = self.pinch_zoom(delta);
        let acts = self.pinch_acts(delta);
        AppState {
            stroke_last: None,
            zoom: if acts { new as i64 } else { self.zoom },
            center: if acts { self.pinch_center(new) } else { self.center },
            ..self
        }
    }

    /// Whether the brush is over the picture. The status line, the strip of
    /// the window buttons and the letterbox are not paint targets.
    #[verifier::opaque]
    pub open spec fn brush_visible(self) -> bool {
        let r = self.content(self.active as int);
        let (x, y) = (self.cursor.0 as int, self.cursor.1 as int);
        &&& self.mask_mode
        &&& self.cursor_inside
        &&& self.is_ready()
        &&& r.x <= x < r.x + r.w
        &&& r.y <= y < r.y + r.h
        &&& 0 <= x < self.vp.0
        &&& self.inset() <= y < self.vp.1 - STATUS_H
    }

    /// The image point under the pointer.
    #[verifier::opaque]
    pub open spec fn brush_point(self) -> (int, int) {
        let r = self.content(self.active as int);
        let m = self.masks[self.active as int]->0;
        (
            round_div((self.cursor.0 - r.x) * (m.width * PX), r.w as int),
            round_div((self.cursor.1 - r.y) * (m.height * PX), r.h as int),
        )
    }

    /// The active mask after the stroke went on to the pointer.
    pub open spec fn brushed(self) -> MaskState {
        let p = self.brush_point();
        let from = match self.stroke_last {
            Some(q) => (q.0 as int, q.1 as int),
            None => p,
        };
        (self.masks[self.active as int]->0).painted(from, p, half(self.brush_diameter as int))
    }

    /// The stroke goes on to the pointer, where that is over the picture.
    #[verifier::opaque]
    pub open spec fn painted(self) -> AppState {
        let on = self.brush_visible();
        let p = self.brush_point();
        AppState {
            masks: if on {
                self.masks.update(self.active as int, Some(self.brushed()))
            } else {
                self.masks
            },
            stroke_last: if on { Some((p.0 as i64, p.1 as i64)) } else { None },
            mask_status: if on { Seq::empty() } else { self.mask_status },
            ..self
        }
    }

    /// Bottom transport strip geometry, shared by the draw and the hit test
    /// so they can't drift.
    pub open spec fn transport(self) -> RectPx {
        rect(0, self.vp.1 - TRANSPORT_H, self.vp.0 as int, TRANSPORT_H as int)
    }

    pub open spec fn prev_button(self) -> RectPx {
        rect(2_200_000, self.transport().y + 1_300_000, 2_600_000, 3_200_000)
    }

    pub open spec fn play_button(self) -> RectPx {
        rect(5_600_000, self.transport().y + 1_300_000, 3_200_000, 3_200_000)
    }

    pub open spec fn next_button(self) -> RectPx {
        rect(9_600_000, self.transport().y + 1_300_000, 2_600_000, 3_200_000)
    }

    /// The seek bar's drawn track (the clickable band is taller).
    pub open spec fn seek_track(self) -> RectPx {
        let x1 = most(self.vp.0 - 2_200_000 - STATUS_RESERVE, 17_500_000);
        rect(13_500_000, self.transport().y + 2_650_000, x1 - 13_500_000, 500_000)
    }

    /// How far the transport is revealed: pointer motion brings it up, then
    /// it fades out after a spell of stillness. Scrubbing pins it open.
    #[verifier::opaque]
    pub open spec fn revealed(self) -> int {
        let over = self.since_pointer - TRANSPORT_HOLD;
        if self.scrubbing || over <= 0 {
            ONE as int
        } else {
            held(ONE - round_div(over * ONE, TRANSPORT_FADE as int), 0, ONE as int)
        }
    }

    /// Every stream follows the pointer on the seek bar.
    #[verifier::opaque]
    pub open spec fn scrubbed(self, x: int) -> AppState {
        match self.wrap {
            None => self,
            Some(w) => {
                let s = self.seek_track();
                self.sought(
                    scaled(most(w - WRAP_MARGIN, 0), spot(x, s.x as int, s.w as int)),
                )
            },
        }
    }

    /// The pointer over the picture being painted.
    #[verifier::opaque]
    pub open spec fn hovering(self, x: i32, y: i32) -> AppState {
        AppState { cursor_inside: true, cursor: (x, y), ..self }
    }

    /// The pointer moved over the comparison: a drag pans, and any motion
    /// brings the transport up.
    #[verifier::opaque]
    pub open spec fn dragged(self, x: i32, y: i32) -> AppState {
        let pans = self.drag is Some && self.zoom > ZOOM_MIN;
        let (lx, ly) = self.drag->0;
        AppState {
            cursor_inside: true,
            since_pointer: 0,
            center: if pans { self.pan_center(x - lx, y - ly, x as int) } else { self.center },
            drag: if pans { Some((x, y)) } else { self.drag },
            cursor: (x, y),
            ..self
        }
    }

    /// The pointer moved.
    #[verifier::opaque]
    pub open spec fn moved(self, x: i32, y: i32) -> AppState {
        if self.mask_mode {
            if self.painting { self.hovering(x, y).painted() } else { self.hovering(x, y) }
        } else if self.scrubbing {
            (AppState {
                cursor_inside: true,
                since_pointer: 0,
                cursor: (x, y),
                ..self
            }).scrubbed(x as int)
        } else {
            self.dragged(x, y)
        }
    }

    /// Whether a press lands on the seek band.
    pub open spec fn on_seek_band(self, x: int, y: int) -> bool {
        let s = self.seek_track();
        s.y - SEEK_GRAB <= y <= s.y + s.h + SEEK_GRAB && s.x - 600_000 <= x <= s.x + s.w + 600_000
    }

    /// What a press lands on.
    #[verifier::opaque]
    pub open spec fn target(self, x: int, y: int) -> Target {
        let live = self.show_ui && self.is_ready() && self.revealed() > MIDDLE;
        if live && hits(self.prev_button(), x, y) {
            Target::Prev
        } else if live && hits(self.play_button(), x, y) {
            Target::Play
        } else if live && hits(self.next_button(), x, y) {
            Target::Next
        } else if live && self.on_seek_band(x, y) {
            Target::Seek
        } else {
            Target::Frame
        }
    }

    /// A press while painting: the stroke starts where the brush is over the
    /// picture.
    #[verifier::opaque]
    pub open spec fn brush_down(self, x: i32, y: i32) -> AppState {
        let s = self.hovering(x, y);
        let on = s.brush_visible();
        let t = AppState { painting: on, stroke_last: None, ..s };
        if on { t.painted() } else { t }
    }

    /// The button went down. While the transport is up, its controls take
    /// the press: the buttons act, the seek band scrubs. Anything else pans.
    #[verifier::opaque]
    pub open spec fn pressed(self, x: i32, y: i32) -> AppState {
        let s = AppState { since_pointer: 0, ..self };
        if self.mask_mode {
            self.brush_down(x, y)
        } else {
            match s.target(x as int, y as int) {
                Target::Prev => s.stepped(false),
                Target::Play => AppState { playing: !s.playing, ..s },
                Target::Next => s.stepped(true),
                Target::Seek => AppState { scrubbing: true, ..s }.scrubbed(x as int),
                Target::Frame => AppState { drag: Some((x, y)), ..s },
            }
        }
    }

    /// A scroll pans, where there is something to pan.
    #[verifier::opaque]
    pub open spec fn scrolled(self, dx: int, dy: int) -> AppState {
        AppState {
            stroke_last: None,
            center: if self.zoom > ZOOM_MIN {
                self.pan_center(dx, dy, self.cursor.0 as int)
            } else {
                self.center
            },
            ..self
        }
    }

    /// The clips after new ones joined (or replaced) them: the old ones first,
    /// rewound.
    #[verifier::opaque]
    pub open spec fn joined_clips(self, videos: Seq<VideoState>, replace: bool) -> Seq<VideoState> {
        if replace {
            videos
        } else {
            Seq::new(self.videos.len(), |i: int| self.videos[i].rewound()) + videos
        }
    }

    /// Their masks: the new clips have none.
    #[verifier::opaque]
    pub open spec fn joined_masks(self, n: nat, replace: bool) -> Seq<Option<MaskState>> {
        if replace {
            Seq::new(n, |i: int| None::<MaskState>)
        } else {
            self.masks + Seq::new(n, |i: int| None::<MaskState>)
        }
    }

    /// A presented frame's buffer is back with clip `i`, if there is one.
    pub open spec fn recycled(self, i: int, buf: Seq<u8>) -> AppState {
        if 0 <= i < self.videos.len() {
            let v = self.videos[i];
            AppState {
                videos: self.videos.update(
                    i,
                    VideoState {
                        player: PlayerState {
                            pool: crate::player::refilled(v.player.pool, seq![buf]),
                            ..v.player
                        },
                        ..v
                    },
                ),
                ..self
            }
        } else {
            self
        }
    }

    /// Newly loaded clips join (or replace) the others, and every stream
    /// rewinds to 0.
    #[verifier::opaque]
    pub open spec fn joined(self, videos: Seq<VideoState>, replace: bool) -> AppState {
        if videos.len() == 0 {
            self
        } else {
            let all = self.joined_clips(videos, replace);
            AppState {
                videos: all,
                masks: self.joined_masks(videos.len(), replace),
                mask_mode: false,
                painting: false,
                stroke_last: None,
                mask_status: Seq::empty(),
                fps: fps_of(all) as i64,
                wrap: loop_point(all),
                t: 0,
                started: false,
                playing: true,
                active: 0,
                speed: ONE,
                zoom: ONE,
                center: (MIDDLE, MIDDLE),
                since_pointer: 0,
                drag: None,
                scrubbing: false,
                drag_hover: false,
                ..self
            }
        }
    }

    /// A fresh comparison.
    pub open spec fn fresh(videos: Seq<VideoState>, mode: Mode) -> AppState {
        AppState {
            videos,
            active: 0,
            masks: Seq::new(videos.len(), |i: int| None::<MaskState>),
            next_mask_id: 1,
            mask_mode: false,
            brush_diameter: 6_400_000,
            painting: false,
            stroke_last: None,
            cursor_inside: false,
            mask_status: Seq::empty(),
            saving: false,
            save_job: None,
            t: 0,
            playing: true,
            started: false,
            mode,
            zoom: ONE,
            center: (MIDDLE, MIDDLE),
            speed: ONE,
            show_ui: true,
            gain: 4_000_000_000,
            blend: MIDDLE,
            checker_px: 4_800_000,
            badge_flash: 0,
            fullscreen: false,
            cursor: (0, 0),
            drag: None,
            since_pointer: 0,
            scrubbing: false,
            vp: (128_000_000, 80_000_000),
            fps: fps_of(videos) as i64,
            wrap: loop_point(videos),
            drag_hover: false,
            logo_aspect: 3_000_000_000,
            cmds: Seq::empty(),
        }
    }
}

/// The clip after clip `i` of `n`, the first after the last.
pub open spec fn following(i: int, n: int) -> int {
    if i + 1 < n { i + 1 } else { 0 }
}

/// Whether a point lies in a rectangle, edges included.
pub open spec fn hits(r: RectPx, x: int, y: int) -> bool {
    r.x <= x <= r.x + r.w && r.y <= y <= r.y + r.h
}

/// Half as much again, or that undone.
pub open spec fn half_more(v: int, up: bool) -> int {
    if up { round_div(3 * v, 2) } else { round_div(2 * v, 3) }
}

/// A quarter as much again, or that undone.
pub open spec fn quarter_more(v: int, up: bool) -> int {
    if up { round_div(5 * v, 4) } else { round_div(4 * v, 5) }
}

} // verus!
