use abner::app::{App, Cmd, Key, Mode, Video};
use abner::decode::{pts_time, Action, Event, Reader, Timebase};
use abner::items::{FrameDesc, Item, RectPx, VideoMode};
use abner::paths::output_path;
use abner::player::{Admit, Frame, Player, Pushed, QUEUE_DEPTH};
use abner::pngfile::{decode, encode, Plane};
use abner::probe::VideoInfo;
use abner::tick::SaveReply;

const SECOND: i64 = 1_000_000_000;
const TICK: u32 = 10_000_000;
const VP: (u32, u32) = (128_000_000, 80_000_000);
const HALF: i64 = 500_000_000;

fn px(v: i32) -> i32 {
    v * 100_000
}

/// Four seconds of 320x180 at 30 frames a second, a keyframe every second.
fn clip_info(path: &str) -> VideoInfo {
    VideoInfo {
        path: path.to_string(),
        width: 320,
        height: 180,
        fps: 30 * SECOND,
        duration: 4 * SECOND,
        codec: "h264".to_string(),
        pix_fmt: "yuv420p".to_string(),
        bit_rate: Some(1_000_000),
        file_size: 500_000,
        rotation: None,
    }
}

fn mk_video(id: u64) -> Video {
    Video::load(clip_info("/clips/step.mp4"), id).unwrap()
}

fn mk_app(n: u64) -> App {
    App::new((0..n).map(mk_video).collect(), Mode::Overlay)
}

/// A decoder of such a clip: every packet is one frame.
struct Feed {
    id: u64,
    reader: Reader,
    action: Action,
    at: i64,
    loaded: Option<i64>,
}

const FRAMES: i64 = 120;
const TB: Timebase = Timebase { num: 1, den: 30 };

impl Feed {
    fn new(id: u64) -> Feed {
        Feed { id, reader: Reader::new(TB, None), action: Action::Poll, at: 0, loaded: None }
    }

    /// Runs until the player has no room, or the file is over.
    fn run(&mut self, p: &mut Player) {
        loop {
            let event = match self.action {
                Action::Poll => Event::Polled { closed: p.closed, cmd: p.take_cmd() },
                Action::Seek { ticks } => {
                    self.at = (ticks.clamp(0, FRAMES - 1) / 30) * 30;
                    self.loaded = None;
                    Event::Sought { ok: true }
                }
                Action::Read => {
                    if self.at >= FRAMES {
                        Event::ReadEnd
                    } else {
                        Event::ReadPacket
                    }
                }
                Action::Send => {
                    self.loaded = Some(self.at);
                    self.at += 1;
                    Event::Sent
                }
                Action::Flush => Event::Sent,
                Action::Receive => match self.loaded {
                    Some(k) => {
                        let time = pts_time(k, TB, self.reader.start);
                        Event::Frame { time: Some(time) }
                    }
                    None => Event::Dry,
                },
                Action::Deliver => match p.admission() {
                    Admit::Full => return,
                    Admit::Stop => Event::Delivered { stop: true },
                    Admit::Stale => {
                        self.loaded = None;
                        Event::Delivered { stop: false }
                    }
                    Admit::Room => {
                        let k = self.loaded.take().unwrap();
                        let mut buf = p.take_buf(320 * 180 * 4);
                        buf[0] = k as u8;
                        let pts = pts_time(k, TB, self.reader.start);
                        let pushed = p.push(Frame { pts, buf });
                        Event::Delivered { stop: pushed == Pushed::Stop }
                    }
                },
                Action::Park => {
                    if !p.closed && p.cmd.is_none() {
                        return;
                    }
                    Event::Parked { closed: p.closed, waiting: p.cmd.is_some() }
                }
                Action::Stop | Action::Fail(_) => return,
            };
            let skipping = matches!(event, Event::Frame { .. });
            self.action = self.reader.next(event);
            if skipping && self.action == Action::Receive {
                self.loaded = None;
            }
        }
    }
}

/// A comparison with the decoders that feed it.
struct Rig {
    app: App,
    feeds: Vec<Feed>,
}

impl Rig {
    fn new(n: u64) -> Rig {
        Rig { app: mk_app(n), feeds: (0..n).map(Feed::new).collect() }
    }

    fn add(&mut self, ids: &[u64], replace: bool) {
        if replace {
            self.feeds.clear();
        }
        self.app.add_videos(ids.iter().map(|id| mk_video(*id)).collect(), replace);
        self.feeds.extend(ids.iter().map(|id| Feed::new(*id)));
    }

    fn feed(&mut self) {
        for f in &mut self.feeds {
            for v in &mut self.app.videos {
                if v.player.id == f.id {
                    f.run(&mut v.player);
                }
            }
        }
    }

    fn tick(&mut self) -> FrameDesc {
        self.feed();
        let mut desc = self.app.tick(TICK, VP, SaveReply::Empty);
        for u in desc.uploads.drain(..) {
            self.app.recycle(u.idx, u.buf);
        }
        desc
    }

    fn tick_until(&mut self, cond: impl Fn(&App) -> bool) -> bool {
        for _ in 0..1_000 {
            self.tick();
            if cond(&self.app) {
                return true;
            }
        }
        false
    }

    fn settled(&mut self) -> bool {
        self.tick_until(|a| !a.videos.iter().any(|v| v.pending))
    }

    fn playing_past(&mut self, t: i64) -> bool {
        self.tick_until(|a| a.started && a.t > t)
    }
}

fn middle(r: RectPx) -> (i32, i32) {
    ((r.x + r.w / 2) as i32, (r.y + r.h / 2) as i32)
}

#[test]
fn number_keys_pick_clips_and_v_cycles_views() {
    let mut app = mk_app(2);
    app.key(Key::Char('2'));
    assert_eq!(app.active, 1);
    app.key(Key::Char('3')); // no third clip: ignored
    assert_eq!(app.active, 1);
    app.key(Key::Char('1'));
    assert_eq!(app.active, 0);
    assert_eq!(app.mode, Mode::Overlay, "number keys no longer pick views");
    app.key(Key::Char('v'));
    assert_eq!(app.mode, Mode::SideBySide);
    app.key(Key::Char('V'));
    app.key(Key::Char('V'));
    assert_eq!(app.mode, Mode::Blend, "Shift-V wraps backwards");
}

#[test]
fn mask_painting_tracks_zoom_focus_and_export() {
    let mut app = mk_app(2);
    app.mode = Mode::SideBySide;
    app.key(Key::Char('m'));
    assert!(!app.playing);
    assert!(app.mask_mode);
    app.brush_diameter = 800_000;
    app.mouse_down(px(640), px(790)); // bottom letterbox
    app.mouse_up();
    assert_eq!(app.masks[0].as_ref().unwrap().revision, 0);
    // In a 1280x800 viewport the 320x180 video is 1280x720 at y=40.
    app.mouse_down(px(640), px(400));
    app.cursor_moved(px(800), px(400));
    app.mouse_up();
    let mask = app.masks[0].as_ref().unwrap();
    assert_eq!(mask.pixels[90 * 320 + 160], 255);
    assert_eq!(mask.pixels[90 * 320 + 180], 255);
    assert_eq!(mask.pixels[90 * 320 + 200], 255);
    assert_eq!(mask.pixels[70 * 320 + 180], 0);
    // Pinch in mask mode must use the full-window fit, not the SBS cell.
    app.cursor_moved(px(640), px(400));
    app.pinch(SECOND);
    assert_eq!(app.center, (HALF, HALF));
    app.mouse_down(px(640), px(560));
    app.mouse_up();
    assert_eq!(app.masks[0].as_ref().unwrap().pixels[110 * 320 + 160], 255);
    // The status line is not a paint target (zoomed, video covers it).
    let revision = app.masks[0].as_ref().unwrap().revision;
    app.mouse_down(px(300), px(790));
    app.mouse_up();
    assert_eq!(app.masks[0].as_ref().unwrap().revision, revision);
    app.key(Key::Char('+'));
    assert!(app.brush_diameter > 800_000);
    app.key(Key::Char('-'));
    assert!((app.brush_diameter - 800_000).abs() < 1_000);
    app.key(Key::Enter);
    assert!(app.masks[1].as_ref().unwrap().pixels.iter().all(|p| *p == 0));
    app.mouse_down(px(640), px(400));
    app.cursor_left();
    assert!(!app.painting);
    assert!(!app.brush_cursor_visible());
    let output_video = "/tmp/abner-focused-17.mp4".to_string();
    app.videos[1].info.path = output_video.clone();
    app.key(Key::Char('s'));
    assert!(app.saving);
    let job = app.take_save_job().expect("a save to run");
    assert_eq!(job.path, output_path(&output_video));
    let file = encode(job.width, job.height, Plane::Gray, &job.pixels).unwrap();
    let back = decode(&file).unwrap();
    assert_eq!((back.width, back.height), (320, 180));
    assert_eq!(back.pixels, app.masks[1].as_ref().unwrap().pixels);
    app.tick(TICK, VP, SaveReply::Saved(job.path));
    assert!(!app.saving);
    assert!(app.mask_status.starts_with("Saved"), "{}", app.mask_status);
    app.key(Key::Char('m'));
    assert_eq!(app.mode, Mode::SideBySide);
    app.key(Key::Char('m'));
    app.key(Key::Enter);
    assert_eq!(app.masks[0].as_ref().unwrap().revision, revision);
    app.add_videos(vec![mk_video(2)], false);
    assert!(app.masks[0].is_some());
    assert!(!app.mask_mode);
    app.add_videos(vec![mk_video(3), mk_video(4)], true);
    assert!(app.masks.iter().all(Option::is_none));
}

#[test]
fn dropped_clips_fill_slots_in_order_and_stay_synced() {
    let mut rig = Rig::new(0);
    assert!(!rig.app.ready(), "no clips is the launch window");

    // The launch window draws with nothing loaded (no uploads).
    assert!(rig.app.tick(16_000_000, VP, SaveReply::Empty).uploads.is_empty());

    // One clip: slot A holds it and it plays, in any view mode, since a
    // lone clip has nothing to be compared against.
    rig.add(&[0], false);
    assert_eq!(rig.app.videos.len(), 1);
    assert!(rig.app.ready(), "one clip is enough to play");
    rig.app.mode = Mode::Delta;
    assert!(rig.playing_past(300_000_000), "a lone clip never started playing");
    rig.app.mode = Mode::Overlay;

    // A second clip makes the pair, and the clock rewinds for it.
    rig.add(&[1], false);
    assert_eq!(rig.app.videos.len(), 2);
    assert_eq!(rig.app.t, 0);
    assert!(rig.playing_past(300_000_000), "playback never started after the pair completed");

    // A third dropped onto the running pair appends, and the clock goes
    // back to 0 so the newcomer is locked to the other two.
    rig.add(&[2], false);
    assert_eq!(rig.app.videos.len(), 3);
    assert_eq!(rig.app.t, 0, "an added stream must rewind everyone");
    assert!(!rig.app.started);
    assert!(rig.playing_past(300_000_000), "playback never resumed after the append");
    let pts: Vec<i64> = rig.app.videos.iter().map(|v| v.shown_pts).collect();
    let spread = pts.iter().max().unwrap() - pts.iter().min().unwrap();
    let limit = 1.5 / (rig.app.fps as f64 / 1e9);
    assert!((spread as f64 / 1e9) < limit, "streams drifted after an append: {pts:?}");

    // A replacing drop starts over instead of adding.
    rig.add(&[3, 4], true);
    assert_eq!(rig.app.videos.len(), 2, "replace starts a fresh comparison");
    assert_eq!(rig.app.t, 0);
}

#[test]
fn transport_buttons_and_seek_bar_are_live() {
    let mut rig = Rig::new(2);
    assert!(rig.playing_past(200_000_000), "playback never started");
    let vp = rig.app.vp;

    // Play/pause disc toggles.
    let (x, y) = middle(rig.app.btn_play());
    assert!(rig.app.playing);
    rig.app.mouse_down(x, y);
    rig.app.mouse_up();
    assert!(!rig.app.playing, "clicking the disc should pause");

    // Next steps one frame forward and stays paused.
    let before = rig.app.t;
    let (x, y) = middle(rig.app.btn_next());
    rig.app.mouse_down(x, y);
    rig.app.mouse_up();
    assert!(rig.settled(), "step frame never arrived");
    assert!(rig.app.t > before, "next should advance: {before} -> {}", rig.app.t);
    assert!(!rig.app.playing);

    // A press on the seek track scrubs to that fraction, and never starts a
    // pan drag.
    let s = rig.app.seek_rect();
    rig.app.mouse_down((s.x + s.w * 3 / 4) as i32, (s.y + s.h / 2) as i32);
    assert!(rig.app.scrubbing);
    assert!(rig.app.drag.is_none(), "a seek press must not also pan");
    let want = 0.75 * (rig.app.wrap.unwrap() as f64 / 1e9 - 0.05);
    assert!(
        (rig.app.t as f64 / 1e9 - want).abs() < 0.2,
        "seek should land at ~75%: wanted {want:.3}, got {}",
        rig.app.t
    );
    rig.app.mouse_up();
    assert!(!rig.app.scrubbing);

    // A press on open frame still pans.
    rig.app.mouse_down((vp.0 / 2) as i32, (vp.1 / 2) as i32);
    assert!(rig.app.drag.is_some());
}

#[test]
fn pinch_zooms_around_the_pointer_and_z_resets() {
    let mut app = mk_app(2);
    app.tick(0, VP, SaveReply::Empty);
    app.cursor_moved(px(900), px(300));
    let at = |r: RectPx| {
        (
            (90_000_000.0 - r.x as f64) / r.w as f64,
            (30_000_000.0 - r.y as f64) / r.h as f64,
        )
    };
    let u0 = at(app.content_rect(0));
    app.pinch(HALF);
    app.pinch(HALF);
    assert!(app.zoom > 1_500_000_000, "zoom {}", app.zoom);
    let u1 = at(app.content_rect(0));
    assert!(
        (u0.0 - u1.0).abs() < 0.01 && (u0.1 - u1.1).abs() < 0.01,
        "content moved under the pointer: {u0:?} -> {u1:?}"
    );
    // Same-dims videos land on identical rects: position stays synced.
    let (ra, rb) = (app.content_rect(0), app.content_rect(1));
    assert_eq!(ra, rb);
    app.key(Key::Char('z'));
    assert_eq!(app.zoom, SECOND);
    assert_eq!(app.center, (HALF, HALF));
}

#[test]
fn speed_scales_the_master_clock() {
    let mut rig = Rig::new(2);
    assert!(rig.playing_past(200_000_000), "playback never started");
    rig.app.key(Key::Char(']'));
    rig.app.key(Key::Char(']'));
    assert_eq!(rig.app.speed, 1_562_500_000);
    let t0 = rig.app.t;
    for _ in 0..10 {
        rig.tick();
    }
    let advanced = (rig.app.t - t0) as f64 / 1e9;
    assert!(
        (advanced - 0.10 * 1.5625).abs() < 1e-6,
        "clock should run at 1.5625x: advanced {advanced:.5}"
    );
    rig.app.key(Key::Backspace);
    assert_eq!(rig.app.speed, SECOND);
}

#[test]
fn framestep_moves_one_frame_and_adopts_true_pts() {
    let mut rig = Rig::new(2);
    assert!(rig.playing_past(200_000_000), "playback never started");
    rig.app.key(Key::Space); // pause
    assert!(!rig.app.playing);
    assert!(rig.settled(), "streams never settled after pause");
    let t0 = rig.app.t as f64 / 1e9;
    let d = 1.0 / 30.0;
    for _ in 0..2 {
        rig.app.key(Key::Char('.'));
        assert!(rig.settled(), "step frame never arrived");
    }
    let t = rig.app.t as f64 / 1e9;
    assert!(
        (t - (t0 + 2.0 * d)).abs() < d * 0.6,
        "two steps should advance ~2 frames: t0 {t0:.4} -> {t:.4}"
    );
    rig.app.key(Key::Char(','));
    assert!(rig.settled(), "back-step frame never arrived");
    let t = rig.app.t as f64 / 1e9;
    assert!(
        (t - (t0 + d)).abs() < d * 0.6,
        "back-step should return to ~1 frame past t0: t0 {t0:.4} -> {t:.4}"
    );
    // Both streams show the same frame after stepping.
    let (a, b) = (rig.app.videos[0].shown_pts, rig.app.videos[1].shown_pts);
    assert!(((a - b).abs() as f64 / 1e9) < d * 0.5, "steps desynced the streams: {a} vs {b}");
}

#[test]
fn every_stream_shows_the_same_frame() {
    let mut rig = Rig::new(3);
    assert!(rig.playing_past(SECOND));
    for _ in 0..50 {
        rig.tick();
        let first = rig.app.videos[0].shown_pts;
        assert!(rig.app.videos.iter().all(|v| v.shown_pts == first));
        assert!(rig.app.videos.iter().all(|v| v.player.buffered() <= QUEUE_DEPTH));
    }
}

#[test]
fn the_clock_waits_for_every_stream() {
    let mut rig = Rig::new(2);
    let feed = rig.feeds.pop().unwrap();
    for _ in 0..20 {
        rig.tick();
    }
    assert!(!rig.app.started);
    assert_eq!(rig.app.t, 0);
    rig.feeds.push(feed);
    rig.tick();
    rig.tick();
    assert!(rig.app.started);
}

#[test]
fn playback_loops_at_the_shortest_clip() {
    let mut rig = Rig::new(2);
    assert_eq!(rig.app.wrap, Some(4 * SECOND));
    assert!(rig.playing_past(3 * SECOND + 800_000_000));
    assert!(rig.tick_until(|a| a.t < SECOND), "the clock never wrapped");
    assert!(rig.playing_past(200_000_000));
    assert!(rig.app.playing);
}

#[test]
fn flipping_keeps_the_time() {
    let mut rig = Rig::new(3);
    assert!(rig.playing_past(200_000_000));
    let t = rig.app.t;
    for want in [1, 2, 0] {
        rig.app.key(Key::Enter);
        assert_eq!(rig.app.active, want);
        assert_eq!(rig.app.t, t);
    }
}

#[test]
fn arrows_seek_by_a_second() {
    let mut rig = Rig::new(2);
    assert!(rig.playing_past(SECOND));
    rig.app.key(Key::Space);
    assert!(rig.settled());
    let t = rig.app.t;
    rig.app.key(Key::Right);
    assert!(rig.settled());
    assert!((rig.app.t - t - SECOND).abs() < 34_000_000, "{} after {t}", rig.app.t);
    rig.app.key(Key::Left);
    rig.app.key(Key::Left);
    rig.app.key(Key::Left);
    assert!(rig.settled());
    assert_eq!(rig.app.t, 0, "a seek stops at the start");
}

#[test]
fn escape_leaves_fullscreen_first() {
    let mut app = mk_app(2);
    app.key(Key::Char('f'));
    assert!(app.fullscreen);
    assert_eq!(app.take_cmds(), vec![Cmd::ToggleFullscreen]);
    assert_eq!(app.top_inset(), 0);
    app.key(Key::Escape);
    assert!(!app.fullscreen);
    assert_eq!(app.take_cmds(), vec![Cmd::ToggleFullscreen]);
    assert_eq!(app.top_inset(), 2_800_000);
    app.key(Key::Escape);
    assert_eq!(app.take_cmds(), vec![Cmd::Quit]);
    assert!(app.take_cmds().is_empty());
    app.key(Key::Char('q'));
    assert_eq!(app.take_cmds(), vec![Cmd::Quit]);
}

#[test]
fn a_pair_is_compared_by_the_view_that_is_on() {
    let mut rig = Rig::new(2);
    assert!(rig.playing_past(100_000_000));
    for (mode, want) in [
        (Mode::Delta, VideoMode::Delta),
        (Mode::Split, VideoMode::Split),
        (Mode::Checker, VideoMode::Checker),
        (Mode::Blend, VideoMode::Blend),
        (Mode::Overlay, VideoMode::Tex),
    ] {
        rig.app.mode = mode;
        let desc = rig.tick();
        let found = desc.items.iter().find_map(|i| match i {
            Item::Video { mode, .. } => Some(*mode),
            _ => None,
        });
        assert_eq!(found, Some(want));
    }
    rig.app.mode = Mode::SideBySide;
    let desc = rig.tick();
    let shown: Vec<usize> = desc
        .items
        .iter()
        .filter_map(|i| match i {
            Item::Video { a, .. } => Some(*a),
            _ => None,
        })
        .collect();
    assert_eq!(shown, vec![0, 1]);
}

#[test]
fn a_lone_clip_shows_plain_in_any_view() {
    let mut rig = Rig::new(1);
    assert!(rig.playing_past(100_000_000));
    for mode in [Mode::Delta, Mode::Split, Mode::Checker, Mode::Blend, Mode::SideBySide] {
        rig.app.mode = mode;
        let desc = rig.tick();
        assert!(desc.items.iter().all(|i| match i {
            Item::Video { mode, .. } => *mode == VideoMode::Tex,
            _ => true,
        }));
        assert_eq!(rig.app.shown_mode(), Mode::Overlay);
    }
}

#[test]
fn a_paused_comparison_idles() {
    let mut rig = Rig::new(2);
    assert!(rig.playing_past(100_000_000));
    assert!(rig.tick().animating);
    rig.app.key(Key::Space);
    assert!(rig.settled());
    let mut desc = rig.tick();
    for _ in 0..400 {
        desc = rig.tick();
    }
    assert!(!desc.animating);
    assert!(desc.redraw_after.is_some());
    let t = rig.app.t;
    rig.tick();
    assert_eq!(rig.app.t, t);
}

#[test]
fn the_transport_fades_with_stillness() {
    let mut rig = Rig::new(2);
    assert!(rig.playing_past(100_000_000));
    rig.app.cursor_moved(px(100), px(100));
    assert_eq!(rig.app.transport_alpha(), SECOND);
    for _ in 0..310 {
        rig.tick();
    }
    assert_eq!(rig.app.transport_alpha(), 0);
    rig.app.cursor_moved(px(101), px(100));
    assert_eq!(rig.app.transport_alpha(), SECOND);
}

#[test]
fn parameters_step_and_hold() {
    let mut app = mk_app(2);
    app.mode = Mode::Blend;
    assert_eq!(app.blend, HALF);
    app.key(Key::Char('='));
    assert_eq!(app.blend, 600_000_000);
    for _ in 0..40 {
        app.key(Key::Char('='));
    }
    assert_eq!(app.blend, SECOND);
    for _ in 0..40 {
        app.key(Key::Char('-'));
    }
    assert_eq!(app.blend, 0);
    for _ in 0..40 {
        app.key(Key::Char(']'));
    }
    assert_eq!(app.speed, 4 * SECOND);
    for _ in 0..40 {
        app.key(Key::Char('['));
    }
    assert_eq!(app.speed, SECOND / 4);
}

#[test]
fn a_failed_save_is_told() {
    let mut app = mk_app(1);
    app.key(Key::Char('m'));
    app.key(Key::Char('s'));
    assert!(app.saving);
    let first = app.take_save_job();
    assert!(first.is_some());
    // A second save waits for the first.
    app.key(Key::Char('s'));
    assert!(app.take_save_job().is_none());
    app.tick(TICK, VP, SaveReply::Empty);
    assert!(app.saving);
    app.tick(TICK, VP, SaveReply::Failed("disk full".to_string()));
    assert!(!app.saving);
    assert!(app.mask_status.contains("disk full"), "{}", app.mask_status);
    app.key(Key::Char('s'));
    app.take_save_job();
    app.tick(TICK, VP, SaveReply::Disconnected);
    assert!(!app.saving);
}

#[test]
fn tab_hides_the_overlay() {
    let mut rig = Rig::new(2);
    assert!(rig.playing_past(100_000_000));
    let texts = |d: &FrameDesc| d.items.iter().filter(|i| matches!(i, Item::Text(_))).count();
    let shown = texts(&rig.tick());
    rig.app.key(Key::Tab);
    let hidden = texts(&rig.tick());
    assert!(hidden < shown);
    assert_eq!(hidden, 0);
    rig.app.key(Key::Tab);
    assert!(texts(&rig.tick()) > 0);
}

#[test]
fn the_launch_window_shows_the_mark() {
    let mut app = mk_app(0);
    app.set_logo_aspect(4 * SECOND);
    let desc = app.tick(TICK, VP, SaveReply::Empty);
    let mark = desc.items.iter().find_map(|i| match i {
        Item::Logo { r, alpha } => Some((*r, *alpha)),
        _ => None,
    });
    let (r, alpha) = mark.expect("a wordmark");
    assert_eq!(alpha, SECOND);
    // A third of the window, give or take, and in its middle.
    assert_eq!(r.w, 43_520_000);
    assert_eq!(r.h, 10_880_000);
    assert_eq!(r.x, (128_000_000 - 43_520_000) / 2);
    app.set_drag_hover(true);
    let desc = app.tick(TICK, VP, SaveReply::Empty);
    assert!(desc.items.iter().any(|i| matches!(i, Item::Text(t) if t.text == "release to open")));
}

#[test]
fn the_view_cycle_closes() {
    let mut app = mk_app(2);
    let mut seen = vec![];
    for _ in 0..6 {
        seen.push(app.mode);
        app.key(Key::Char('v'));
    }
    assert_eq!(app.mode, Mode::Overlay);
    assert_eq!(
        seen,
        vec![Mode::Overlay, Mode::SideBySide, Mode::Delta, Mode::Split, Mode::Checker, Mode::Blend]
    );
    app.key(Key::Char('v'));
    app.key(Key::Char('V'));
    assert_eq!(app.mode, Mode::Overlay);
    assert_eq!(seen.iter().map(|m| m.name()).collect::<Vec<_>>()[1], "side-by-side");
    for (i, m) in seen.iter().enumerate() {
        assert_eq!([m.cycle(0), m.cycle(6), m.cycle(-6), m.cycle(2_147_483_646)], [*m; 4]);
        assert_eq!(m.cycle(i32::MIN), m.cycle(-2));
        for a in -7..8 {
            assert_eq!(m.cycle(a), seen[(i as i32 + a).rem_euclid(6) as usize]);
            for b in -7..8 {
                assert_eq!(m.cycle(a).cycle(b), m.cycle(a + b));
            }
        }
    }
}

#[test]
fn no_two_masks_share_an_id() {
    let mut app = mk_app(3);
    app.key(Key::Char('m'));
    app.key(Key::Char('3'));
    app.key(Key::Char('2'));
    app.key(Key::Char('3'));
    let ids: Vec<u64> = app.masks.iter().map(|m| m.as_ref().unwrap().id).collect();
    assert_eq!(ids, vec![1, 3, 2]);
    assert_eq!(app.mask_ids.next, 4);
    // Clips that go take their ids with them.
    app.add_videos((0..3).map(mk_video).collect(), true);
    assert!(app.masks.iter().all(Option::is_none));
    app.key(Key::Char('m'));
    assert_eq!(app.masks[0].as_ref().unwrap().id, 4);
}

#[test]
fn a_pinch_at_the_edge_holds_the_pointer() {
    let mut app = mk_app(2);
    app.tick(0, VP, SaveReply::Empty);
    // The picture's top left corner, then its right edge.
    for (x, y) in [(0, 4_000_000), (128_000_000, 30_000_000)] {
        app.cursor_moved(x, y);
        let before = app.content_rect(0);
        let u = (x as i64 - before.x) as f64 / before.w as f64;
        let v = (y as i64 - before.y) as f64 / before.h as f64;
        app.pinch(HALF);
        let r = app.content_rect(0);
        assert!(r.w > before.w);
        assert!((r.x as f64 + u * r.w as f64 - x as f64).abs() <= 10.0);
        assert!((r.y as f64 + v * r.h as f64 - y as f64).abs() <= 10.0);
    }
}

#[test]
fn a_pinch_holds_the_pointer_on_the_thinnest_picture() {
    let mut info = clip_info("/clips/thin.mp4");
    (info.width, info.height) = (16_384, 1);
    let mut app = App::new(vec![Video::load(info, 0).unwrap()], Mode::Overlay);
    app.tick(0, (64_000_000, 40_000_000), SaveReply::Empty);
    app.cursor_moved(20_000_000, 20_000_500);
    let at = |r: RectPx| {
        (
            (20_000_000 - r.x) as f64 / r.w as f64,
            (20_000_500 - r.y) as f64 / r.h as f64,
        )
    };
    let u0 = at(app.content_rect(0));
    assert!((0.0..=1.0).contains(&u0.1), "{u0:?}");
    for _ in 0..8 {
        app.pinch(HALF);
        let u1 = at(app.content_rect(0));
        assert!((u0.0 - u1.0).abs() < 0.01 && (u0.1 - u1.1).abs() < 0.01, "{u0:?} -> {u1:?}");
    }
}

#[test]
fn the_shortest_known_duration_is_the_loop_point() {
    let clip = |id: u64, seconds_tenths: i64| {
        let mut info = clip_info("/clips/x.mp4");
        info.duration = seconds_tenths * SECOND / 10;
        info.fps = 0;
        Video::load(info, id).unwrap()
    };
    let app = App::new(vec![clip(0, 0), clip(1, 70), clip(2, 35), clip(3, 1)], Mode::Overlay);
    assert_eq!(app.wrap, Some(3_500_000_000));
    // A rate that cannot be believed is taken for thirty.
    assert_eq!(app.fps, 30 * SECOND);
    let app = App::new(vec![clip(0, 0), clip(1, 1)], Mode::Overlay);
    assert_eq!(app.wrap, None);
    // Nor is a duration without end a loop point.
    let mut info = clip_info("/clips/x.mp4");
    info.duration = 1 << 60;
    let endless = Video::load(info, 9).unwrap();
    let mut app = App::new(vec![endless], Mode::Overlay);
    assert_eq!(app.wrap, None);
    let desc = app.tick(TICK, VP, SaveReply::Empty);
    assert!(desc.items.iter().any(|i| matches!(i, Item::Text(t) if t.text == "/ ?")));
}

#[test]
fn a_flip_flashes_the_letter_with_the_interface_hidden() {
    let mut rig = Rig::new(2);
    assert!(rig.playing_past(100_000_000));
    rig.app.key(Key::Tab);
    rig.app.key(Key::Enter);
    let desc = rig.tick();
    assert!(desc.items.iter().any(|i| matches!(i, Item::Text(t) if t.text == "B")));
    for _ in 0..130 {
        rig.tick();
    }
    let desc = rig.tick();
    assert!(!desc.items.iter().any(|i| matches!(i, Item::Text(_))));
}

#[test]
fn the_info_block_describes_every_clip() {
    let mut rig = Rig::new(2);
    assert!(rig.playing_past(100_000_000));
    rig.app.videos[1].player.fail();
    let desc = rig.tick();
    let texts: Vec<&str> = desc
        .items
        .iter()
        .filter_map(|i| match i {
            Item::Text(t) => Some(t.text.as_str()),
            _ => None,
        })
        .collect();
    for want in [
        "step.mp4",
        "● SHOWN",
        "320×180  30.000 fps  h264 yuv420p",
        "1.00 Mb/s  0.5 MiB  00:04.000",
        "/clips",
        "DECODE FAILED",
    ] {
        assert!(texts.contains(&want), "{want:?} is not among {texts:?}");
    }
}

#[test]
fn a_failed_stream_does_not_hold_the_others() {
    let mut rig = Rig::new(2);
    rig.feeds.pop();
    rig.app.videos[1].player.fail();
    assert!(rig.playing_past(200_000_000));
}

#[test]
fn a_drag_pans_only_where_there_is_something_to_pan() {
    let mut app = mk_app(2);
    app.tick(0, VP, SaveReply::Empty);
    app.mouse_down(px(640), px(300));
    app.cursor_moved(px(700), px(300));
    assert_eq!(app.center, (HALF, HALF));
    app.mouse_up();
    app.pinch(SECOND);
    let before = app.center;
    app.mouse_down(px(640), px(300));
    app.cursor_moved(px(704), px(300));
    // A sixty-four pixel drag on a picture 2560 wide.
    assert_eq!(app.center.0, before.0 - 25_000_000);
    assert_eq!(app.center.1, before.1);
    app.mouse_up();
    app.scroll(px(-64), 0);
    assert_eq!(app.center.0, before.0);
    app.scroll(px(-10_000), 0);
    assert_eq!(app.center.0, 750_000_000);
}
