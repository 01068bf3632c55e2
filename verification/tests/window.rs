use abner::app::{Mode, Video};
use abner::open::{drain, install, on_open};
use abner::pace::Pace;
use abner::probe::VideoInfo;
use abner::runner::{find_player, parse_args, title_for, Args, USAGE};
use abner::schedule::{next_frame, NextFrame, IDLE, MIN_FRAME};

fn words(s: &str) -> Vec<String> {
    s.split_whitespace().map(|w| w.to_string()).collect()
}

fn run(s: &str) -> (Mode, bool, Vec<String>) {
    match parse_args(&words(s)) {
        Args::Run { mode, mask, paths } => (mode, mask, paths),
        _ => panic!("{s:?} does not run"),
    }
}

#[test]
fn the_command_line() {
    assert_eq!(run(""), (Mode::Overlay, false, vec![]));
    assert_eq!(run("a.mp4 b.mp4"), (Mode::Overlay, false, words("a.mp4 b.mp4")));
    assert_eq!(run("--view delta a b"), (Mode::Delta, false, words("a b")));
    assert_eq!(run("a --view sbs b"), (Mode::SideBySide, false, words("a b")));
    assert_eq!(run("--view split --view blend a"), (Mode::Blend, false, words("a")));
    assert_eq!(run("--mask a b --other"), (Mode::Overlay, true, words("a b")));
    assert!(matches!(parse_args(&words("a -h")), Args::Help));
    assert!(matches!(parse_args(&words("--view --help")), Args::Help));
    assert!(matches!(parse_args(&words("--view")), Args::BadView));
    assert!(matches!(parse_args(&words("--view sideways a")), Args::BadView));
    assert!(USAGE.starts_with("abner"));
    for name in ["overlay", "sbs", "delta", "split", "checker", "blend"] {
        assert!(Mode::parse(name).is_some());
        assert!(USAGE.contains(name));
    }
    assert_eq!(Mode::parse("Overlay"), None);
}

fn clip(path: &str, id: u64) -> Video {
    let info = VideoInfo {
        path: path.to_string(),
        width: 2,
        height: 2,
        fps: 30_000_000_000,
        duration: 0,
        codec: "h264".to_string(),
        pix_fmt: "yuv420p".to_string(),
        bit_rate: None,
        file_size: 0,
        rotation: None,
    };
    Video::load(info, id).unwrap()
}

#[test]
fn the_title_names_the_clips() {
    assert_eq!(title_for(&vec![]), "abner");
    assert_eq!(title_for(&vec![clip("/a/one.mp4", 0)]), "abner — one.mp4");
    assert_eq!(
        title_for(&vec![clip("/a/one.mp4", 0), clip("two.mov", 1), clip("/c/..", 2)]),
        "abner — one.mp4 vs two.mov vs "
    );
}

#[test]
fn readers_find_their_player() {
    let videos = vec![clip("a", 4), clip("b", 9)];
    assert_eq!(find_player(&videos, 9), Some(1));
    assert_eq!(find_player(&videos, 4), Some(0));
    assert_eq!(find_player(&videos, 5), None);
}

#[test]
fn a_picture_no_machine_holds_is_refused() {
    let mut v = clip("a", 0);
    v.info.width = u32::MAX;
    v.info.height = u32::MAX;
    assert!(Video::load(v.info, 1).is_none());
    let mut v = clip("a", 0);
    v.info.width = 0;
    assert!(Video::load(v.info, 1).is_none());
    let mut v = clip("a", 0);
    v.info.width = 70_000;
    let v = Video::load(v.info, 1).unwrap();
    assert_eq!(v.player.w, 70_000);
}

#[test]
fn frames_keep_a_floor() {
    let t = 10_000_000_000;
    assert_eq!(next_frame(true, false, None, t, t + 1), NextFrame::At(t + MIN_FRAME));
    assert_eq!(next_frame(true, false, None, t, t + MIN_FRAME), NextFrame::Now { poll: true });
}

#[test]
fn an_idle_window_sleeps_to_its_deadline() {
    let t = 10_000_000_000;
    assert_eq!(next_frame(false, false, None, t, t), NextFrame::At(t + IDLE));
    assert_eq!(next_frame(false, false, Some(t + 5), t, t), NextFrame::At(t + 5));
    assert_eq!(next_frame(false, false, Some(t + 5), t, t + 5), NextFrame::Now { poll: false });
    assert_eq!(next_frame(false, false, Some(t + 2 * IDLE), t, t), NextFrame::At(t + IDLE));
}

#[test]
fn a_hidden_window_only_ticks_over() {
    let t = 10_000_000_000;
    assert_eq!(next_frame(true, true, Some(t), t, t + MIN_FRAME), NextFrame::At(t + IDLE));
    assert_eq!(next_frame(true, true, None, t, t + IDLE), NextFrame::Now { poll: false });
}

#[test]
fn two_files_dropped_together_are_one_gesture() {
    let mut pace = Pace::new(0);
    pace.end_frame(false, None);
    pace.file_dropped("a".to_string());
    pace.file_dropped("b".to_string());
    assert!(pace.animating);
    let g = pace.take_gestures(true, vec![]);
    assert_eq!(g.len(), 1);
    assert_eq!(g[0].paths, words("a b"));
    assert!(g[0].replace);
    assert!(pace.take_gestures(true, vec![]).is_empty());
}

#[test]
fn an_open_never_replaces() {
    let mut inbox = install();
    assert!(!on_open(&mut inbox, None));
    assert!(on_open(&mut inbox, Some("c".to_string())));
    assert!(on_open(&mut inbox, Some("d".to_string())));
    let opened = drain(&mut inbox);
    assert_eq!(opened, words("c d"));
    assert!(drain(&mut inbox).is_empty());
    let mut pace = Pace::new(0);
    pace.file_dropped("a".to_string());
    let g = pace.take_gestures(true, opened);
    assert_eq!(g.len(), 2);
    assert!(g[0].replace);
    assert!(!g[1].replace);
    assert_eq!(g[1].paths, words("c d"));
}

#[test]
fn a_long_pause_is_a_short_step() {
    let mut pace = Pace::new(1_000);
    assert_eq!(pace.begin_frame(17_001_000), 17_000_000);
    assert_eq!(pace.begin_frame(9_000_000_000), 50_000_000);
    assert_eq!(pace.begin_frame(9_000_000_000), 0);
    pace.end_frame(false, Some(100));
    assert_eq!(pace.redraw_at, Some(9_000_000_100));
    assert_eq!(pace.next(9_000_000_050), NextFrame::At(9_000_000_100));
    pace.rouse();
    assert_eq!(pace.next(9_000_000_050), NextFrame::At(9_000_000_000 + MIN_FRAME));
    pace.occlude(true);
    assert!(!pace.wakes());
    assert_eq!(pace.next(9_010_000_000), NextFrame::At(9_000_000_000 + IDLE));
    pace.end_frame(false, None);
    pace.occlude(false);
    assert!(pace.wakes());
    assert!(pace.animating);
}
