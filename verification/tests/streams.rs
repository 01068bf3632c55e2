use abner::decode::{
    filter_chain, frame_matches, pack_rows, pick_format, pts_time, seek_ticks, start_offset, Action,
    Event, Reader, ReaderError, Timebase,
};
use abner::deliver::{deliver, Delivery, Picture};
use abner::player::{Admit, Frame, Player, Pushed, POOL_CAP, QUEUE_DEPTH};

const SECOND: i64 = 1_000_000_000;
const FRAMES: i64 = 120;
const TB: Timebase = Timebase { num: 1, den: 30 };

/// A decoder of four seconds at 30 frames a second, a keyframe every second.
struct Feed {
    reader: Reader,
    action: Action,
    at: i64,
    loaded: Option<i64>,
}

impl Feed {
    fn new() -> Feed {
        Feed { reader: Reader::new(TB, None), action: Action::Poll, at: 0, loaded: None }
    }

    fn run(&mut self, p: &mut Player) {
        loop {
            let event = match self.action {
                Action::Poll => Event::Polled { closed: p.closed, cmd: p.take_cmd() },
                Action::Seek { ticks } => {
                    self.at = (ticks.clamp(0, FRAMES - 1) / 30) * 30;
                    self.loaded = None;
                    Event::Sought { ok: true }
                }
                Action::Read => {
                    if self.at >= FRAMES {
                        Event::ReadEnd
                    } else {
                        Event::ReadPacket
                    }
                }
                Action::Send => {
                    self.loaded = Some(self.at);
                    self.at += 1;
                    Event::Sent
                }
                Action::Flush => Event::Sent,
                Action::Receive => match self.loaded {
                    Some(k) => Event::Frame { time: Some(pts_time(k, TB, self.reader.start)) },
                    None => Event::Dry,
                },
                Action::Deliver => match p.admission() {
                    Admit::Full => return,
                    Admit::Stop => Event::Delivered { stop: true },
                    Admit::Stale => {
                        self.loaded = None;
                        Event::Delivered { stop: false }
                    }
                    Admit::Room => {
                        let k = self.loaded.take().unwrap();
                        let buf = p.take_buf(320 * 180 * 4);
                        let pts = pts_time(k, TB, self.reader.start);
                        let pushed = p.push(Frame { pts, buf });
                        Event::Delivered { stop: pushed == Pushed::Stop }
                    }
                },
                Action::Park => {
                    if !p.closed && p.cmd.is_none() {
                        return;
                    }
                    Event::Parked { closed: p.closed, waiting: p.cmd.is_some() }
                }
                Action::Stop | Action::Fail(_) => return,
            };
            let decoded = matches!(event, Event::Frame { .. });
            self.action = self.reader.next(event);
            if decoded && self.action == Action::Receive {
                self.loaded = None;
            }
        }
    }
}

#[test]
fn master_clock_take_upto_pops_in_pts_order() {
    let mut p = Player::spawn(0, 320, 180);
    let mut feed = Feed::new();
    feed.run(&mut p);
    assert!(p.buffered() >= 1, "no frames");
    // Clock before the first frame: nothing pops.
    assert!(p.take_upto(-SECOND).is_none());
    // Clock way ahead: everything queued pops, newest wins.
    let f = p.take_upto(100 * SECOND).expect("frame");
    assert!(f.pts >= 0);
    assert_eq!(f.pts, 100_000_000);
    assert_eq!(f.buf.len(), 320 * 180 * 4);
    p.recycle(f.buf);
    // The queue stays bounded while unwatched (backpressure).
    feed.run(&mut p);
    assert_eq!(p.buffered(), QUEUE_DEPTH);
    feed.run(&mut p);
    assert!(p.buffered() <= QUEUE_DEPTH);
    assert!(!p.failed());
}

#[test]
fn exact_seek_lands_and_take_next_adopts() {
    let mut p = Player::spawn(0, 320, 180);
    let mut feed = Feed::new();
    feed.run(&mut p);
    assert!(p.buffered() >= 1, "no frames");
    p.seek(2 * SECOND, true);
    assert_eq!(p.position(), 2 * SECOND);
    feed.run(&mut p);
    let f = p.take_next().expect("frame after exact seek");
    let pts = f.pts as f64 / 1e9;
    assert!((1.9..=2.2).contains(&pts), "exact seek should land ~2.0, got {pts}");
    assert_eq!(f.pts, 2 * SECOND);
    assert_eq!(p.position(), f.pts);
    assert!(!p.failed());
}

#[test]
fn two_players_stay_in_sync_on_the_master_clock() {
    let (mut pa, mut pb) = (Player::spawn(0, 320, 180), Player::spawn(1, 320, 180));
    let (mut fa, mut fb) = (Feed::new(), Feed::new());
    fa.run(&mut pa);
    fb.run(&mut pb);
    assert!(pa.buffered() >= 1);
    assert!(pb.buffered() >= 1);
    let (mut sa, mut sb) = (f64::NAN, f64::NAN);
    let mut t: i64 = 0;
    let mut worst: f64 = 0.0;
    while t < 3 * SECOND {
        t += 10_000_000;
        if let Some(f) = pa.take_upto(t) {
            sa = f.pts as f64 / 1e9;
            pa.recycle(f.buf);
        }
        if let Some(f) = pb.take_upto(t) {
            sb = f.pts as f64 / 1e9;
            pb.recycle(f.buf);
        }
        if t > SECOND / 2 && sa.is_finite() && sb.is_finite() {
            worst = worst.max((sa - sb).abs());
        }
        fa.run(&mut pa);
        fb.run(&mut pb);
    }
    assert!(worst < 1.0 / 30.0 + 1e-6, "streams drifted: worst pts gap {worst:.4}s");
}

#[test]
fn dropped_player_releases_its_reader() {
    let mut p = Player::spawn(0, 320, 180);
    let mut feed = Feed::new();
    feed.run(&mut p);
    assert_eq!(p.buffered(), QUEUE_DEPTH, "queue never filled");
    p.close();
    feed.run(&mut p);
    assert_eq!(feed.action, Action::Stop, "reader thread leaked after drop");
}

#[test]
fn a_parked_reader_leaves_too() {
    let mut p = Player::spawn(0, 320, 180);
    let mut feed = Feed::new();
    while feed.action != Action::Park {
        feed.run(&mut p);
        if let Some(f) = p.take_upto(100 * SECOND) {
            p.recycle(f.buf);
        }
    }
    p.close();
    feed.run(&mut p);
    assert_eq!(feed.action, Action::Stop);
}

#[test]
fn the_end_waits_for_a_seek() {
    let mut p = Player::spawn(0, 320, 180);
    let mut feed = Feed::new();
    let mut shown = 0;
    while feed.action != Action::Park {
        feed.run(&mut p);
        while let Some(f) = p.take_next() {
            shown += 1;
            p.recycle(f.buf);
        }
    }
    assert_eq!(shown, FRAMES);
    p.seek(0, true);
    feed.run(&mut p);
    assert_eq!(p.take_next().unwrap().pts, 0);
}

#[test]
fn the_newest_seek_wins() {
    let mut p = Player::spawn(0, 320, 180);
    let mut feed = Feed::new();
    feed.run(&mut p);
    p.seek(SECOND, true);
    p.seek(3 * SECOND, true);
    assert_eq!(p.buffered(), 0);
    feed.run(&mut p);
    assert_eq!(p.take_next().unwrap().pts, 3 * SECOND);
}

#[test]
fn a_frame_of_an_old_place_is_refused() {
    let mut p = Player::spawn(0, 320, 180);
    assert_eq!(p.admission(), Admit::Room);
    p.seek(SECOND, true);
    assert_eq!(p.admission(), Admit::Stale);
    assert_eq!(p.push(Frame { pts: 0, buf: vec![] }), Pushed::Stale);
    assert_eq!(p.buffered(), 0);
}

#[test]
fn a_frame_into_an_empty_queue_wakes() {
    let mut p = Player::spawn(0, 320, 180);
    assert_eq!(p.push(Frame { pts: 0, buf: vec![] }), Pushed::Queued { wake: false });
    p.take_next();
    p.set_notify();
    assert_eq!(p.push(Frame { pts: 1, buf: vec![] }), Pushed::Queued { wake: true });
    assert_eq!(p.push(Frame { pts: 2, buf: vec![] }), Pushed::Queued { wake: false });
}

#[test]
fn buffers_come_back_in_the_right_size() {
    let mut p = Player::spawn(0, 320, 180);
    for _ in 0..POOL_CAP + 3 {
        p.recycle(vec![7; 10]);
    }
    assert_eq!(p.pool.len(), POOL_CAP);
    let buf = p.take_buf(12);
    assert_eq!(buf.len(), 12);
    assert_eq!(p.pool.len(), POOL_CAP - 1);
}

#[test]
fn timestamps_and_times() {
    let tb = Timebase { num: 1, den: 90_000 };
    assert_eq!(start_offset(Some(90_000), tb), SECOND);
    assert_eq!(start_offset(None, tb), 0);
    assert_eq!(pts_time(180_000, tb, SECOND), SECOND);
    assert_eq!(seek_ticks(SECOND, SECOND, tb), 180_000);
    assert_eq!(pts_time(1, Timebase { num: 1, den: 3 }, 0), 333_333_333);
}

#[test]
fn a_broken_stream_says_why() {
    let mut r = Reader::new(TB, None);
    assert_eq!(
        r.next(Event::ReadFailed { code: -5 }),
        Action::Fail(ReaderError::Read(-5))
    );
    assert_eq!(ReaderError::Read(-5).message(), "read error -5");
    assert_eq!(r.next(Event::Broken), Action::Fail(ReaderError::Decode));
    assert_eq!(ReaderError::Decode.message(), "decode error");
    assert_eq!(r.next(Event::Sought { ok: false }), Action::Fail(ReaderError::Seek));
    assert_eq!(ReaderError::Seek.message(), "seek failed");
    assert_eq!(ReaderError::Open.message(), "open failed");
    assert_eq!(ReaderError::StreamInfo.message(), "no stream info");
    assert_eq!(ReaderError::NoVideoStream.message(), "no video stream");
    assert_eq!(ReaderError::CodecParams.message(), "codec params failed");
    assert_eq!(ReaderError::DecoderOpen.message(), "decoder open failed");
    // A corrupt packet is no reason to give up.
    assert_eq!(r.next(Event::Refused), Action::Poll);
    assert_eq!(r.next(Event::ReadOther), Action::Poll);
    let mut p = Player::spawn(0, 2, 2);
    p.fail();
    assert!(p.failed());
}

#[test]
fn the_filter_chain_turns_the_picture() {
    let plain = "scale=320:180:flags=bilinear,format=rgba";
    assert_eq!(filter_chain(None, 320, 180), plain);
    assert_eq!(filter_chain(Some(0), 320, 180), plain);
    assert_eq!(filter_chain(Some(90 * SECOND), 320, 180), format!("transpose=2,{plain}"));
    assert_eq!(filter_chain(Some(-90 * SECOND), 320, 180), format!("transpose=1,{plain}"));
    assert_eq!(filter_chain(Some(180 * SECOND), 320, 180), format!("hflip,vflip,{plain}"));
    assert_eq!(filter_chain(Some(45 * SECOND), 320, 180), plain);
}

#[test]
fn formats_and_rows() {
    assert_eq!(pick_format(&[3, 9, -1], 9), 9);
    assert_eq!(pick_format(&[3, 4, -1], 9), 3);
    assert!(frame_matches(true, 320, 180, 320, 180));
    assert!(!frame_matches(false, 320, 180, 320, 180));
    assert!(!frame_matches(true, 180, 320, 320, 180));
    let src = [1, 2, 3, 4, 9, 5, 6, 7, 8, 9];
    assert_eq!(pack_rows(&src, 5, 4, 2, vec![0; 8]), vec![1, 2, 3, 4, 5, 6, 7, 8]);
}

#[test]
fn draining_twice_is_draining_once() {
    let mut p = Player::spawn(0, 320, 180);
    let mut feed = Feed::new();
    feed.run(&mut p);
    assert_eq!(p.take_upto(70_000_000).unwrap().pts, 66_666_667);
    assert!(p.take_upto(70_000_000).is_none());
    assert_eq!(p.buffered(), 1);
    assert_eq!(p.take_next().unwrap().pts, 100_000_000);
}

#[test]
fn a_seek_to_a_frame_does_not_pass_it() {
    let tb = Timebase { num: 1_001, den: 30_000 };
    for k in 0..500 {
        let t = pts_time(k, tb, 0);
        assert!(seek_ticks(t, 0, tb) <= k, "frame {k}");
    }
}

/// Two by two pixels in rows of twelve bytes.
const ROWS: [u8; 20] = [1, 2, 3, 4, 5, 6, 7, 8, 0, 0, 0, 0, 9, 10, 11, 12, 13, 14, 15, 16];

fn picture(pts: i64) -> Picture<'static> {
    Picture { rgba: true, width: 2, height: 2, stride: 12, pts, src: &ROWS }
}

#[test]
fn a_picture_is_copied_and_queued() {
    let mut p = Player::spawn(0, 2, 2);
    p.set_notify();
    for k in 0..QUEUE_DEPTH as i64 {
        let pic = picture(k);
        assert!(pic.fits(2, 2));
        let Delivery::Copy(buf) = deliver(&mut p, &pic, None) else { panic!("no copy") };
        assert_eq!(buf.len(), 16);
        assert_eq!(p.buffered(), k as usize);
        let copy = pic.pack(buf);
        assert_eq!(copy, (1..=16).collect::<Vec<u8>>());
        match deliver(&mut p, &pic, Some(copy)) {
            Delivery::Queued { wake } => assert_eq!(wake, k == 0),
            _ => panic!("not queued"),
        }
        assert_eq!(p.frames[k as usize].pts, k);
        assert_eq!(p.frames[k as usize].buf[8], 9);
    }
    // Full: both before the copy and after it the reader waits.
    assert!(matches!(deliver(&mut p, &picture(9), None), Delivery::Wait(None)));
    match deliver(&mut p, &picture(9), Some(vec![7; 16])) {
        Delivery::Wait(Some(buf)) => assert_eq!(buf, vec![7; 16]),
        _ => panic!("did not wait"),
    }
    assert_eq!(p.buffered(), QUEUE_DEPTH);
    // Nobody asked for a wake: a frame into an empty queue gives none.
    let mut quiet = Player::spawn(0, 2, 2);
    assert!(matches!(
        deliver(&mut quiet, &picture(0), Some(vec![7; 16])),
        Delivery::Queued { wake: false }
    ));
}

#[test]
fn a_picture_of_no_use_is_skipped() {
    let mut p = Player::spawn(0, 2, 2);
    let good = picture(0);
    for bad in [
        Picture { rgba: false, ..good },
        Picture { width: 3, ..good },
        Picture { height: 1, ..good },
        Picture { stride: 7, ..good },
        Picture { stride: -12, ..good },
        Picture { src: &ROWS[..19], ..good },
    ] {
        assert!(!bad.fits(2, 2));
        assert!(matches!(deliver(&mut p, &bad, None), Delivery::Skip));
        assert!(matches!(deliver(&mut p, &bad, Some(vec![0; 16])), Delivery::Skip));
    }
    // A seek that landed during the copy, or a player that is gone.
    p.seek(5, true);
    assert!(matches!(deliver(&mut p, &good, None), Delivery::Skip));
    assert!(matches!(deliver(&mut p, &good, Some(vec![0; 16])), Delivery::Skip));
    p.close();
    assert!(matches!(deliver(&mut p, &good, Some(vec![0; 16])), Delivery::Stop));
    assert_eq!(p.buffered(), 0);
}
