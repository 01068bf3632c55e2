//! The decoder's side of a player: timestamps, the filter chain, and the
//! decisions of the reader loop.
//!
//! A reader drives the demuxer and the decoder; what it does next follows
//! from what came back. `Reader::next` makes that decision. The library calls
//! themselves, and the waiting, are left to whoever runs the loop.

use crate::probe::{quarter_turns, quarters, QUARTER};
use crate::readout::{digits, push_number, push_signed, signed_digits};
use crate::units::{
    div_round, held, round_div, round_div_bounds, round_div_is_nearest, time_ok, ONE, TIME_LIMIT,
};
use vstd::prelude::*;
use vstd::string::StringExecFns;

verus! {

/// Seconds per timestamp unit, as a fraction.
#[derive(Debug, Clone, Copy, PartialEq, Eq, Structural)]
pub struct Timebase {
    pub num: i32,
    pub den: i32,
}

impl Timebase {
    pub open spec fn wf(self) -> bool {
        self.num > 0 && self.den > 0
    }

    /// A timestamp as a time, rounded to the nearest unit.
    pub open spec fn time(self, pts: int) -> int {
        round_div(pts * self.num * ONE, self.den as int)
    }
}

/// A frame may lie this little before an exact seek's target.
pub const SEEK_SLACK: i64 = 1_000_000;

/// A time held to the range the player handles.
pub open spec fn in_range(t: int) -> int {
    held(t, -TIME_LIMIT as int, TIME_LIMIT as int)
}

fn tick_time(pts: i64, tb: Timebase) -> (r: i128)
    requires
        tb.wf(),
    ensures
        r == tb.time(pts as int),
        -0x1000_0000_0000_0000_0000_0000_0000_0000 <= r
            <= 0x1000_0000_0000_0000_0000_0000_0000_0000,
{
    proof {
        assert(-0x4000_0000_0000_0000_0000_0000 <= pts * tb.num <= 0x4000_0000_0000_0000_0000_0000)
            by (nonlinear_arith)
            requires
                -0x8000_0000_0000_0000 <= pts <= 0x7fff_ffff_ffff_ffff,
                0 < tb.num <= 0x7fff_ffff,
        ;
        let m = 0x1000_0000_0000_0000_0000_0000_0000_0000int;
        let d = tb.den as int;
        let v = pts * tb.num * ONE;
        assert(-m * d <= v && v <= m * d) by (nonlinear_arith)
            requires
                -m <= v <= m,
                d >= 1,
                m > 0,
        ;
        round_div_bounds(v, d, -m, m);
    }
    let n: i128 = pts as i128 * tb.num as i128;
    div_round(n * ONE as i128, tb.den as i128)
}

fn hold_time(t: i128) -> (r: i64)
    ensures
        r == in_range(t as int),
        time_ok(r as int),
{
    if t < -(TIME_LIMIT as i128) {
        -TIME_LIMIT
    } else if t > TIME_LIMIT as i128 {
        TIME_LIMIT
    } else {
        t as i64
    }
}

/// Where a stream's content begins; 0 where it doesn't say.
pub open spec fn start_of(start: Option<i64>, tb: Timebase) -> int {
    match start {
        Some(pts) => in_range(tb.time(pts as int)),
        None => 0,
    }
}

/// Absolute stream start time (the edit-list offset). Applied on seek and
/// subtracted from every frame's timestamp, so the whole player speaks
/// content-relative time: files with a non-zero start otherwise land A and B
/// on different frames.
pub fn start_offset(start: Option<i64>, tb: Timebase) -> (r: i64)
    requires
        tb.wf(),
    ensures
        r == start_of(start, tb),
        time_ok(r as int),
{
    match start {
        Some(pts) => hold_time(tick_time(pts, tb)),
        None => 0,
    }
}

/// A timestamp in content-relative time.
pub open spec fn content_time(pts: int, tb: Timebase, start: int) -> int {
    in_range(tb.time(pts) - start)
}

pub fn pts_time(pts: i64, tb: Timebase, start: i64) -> (r: i64)
    requires
        tb.wf(),
        time_ok(start as int),
    ensures
        r == content_time(pts as int, tb, start as int),
        time_ok(r as int),
{
    hold_time(tick_time(pts, tb) - start as i128)
}

/// The timestamp to seek to for a content-relative time: the last at or
/// before it (of a negative time, the first at or after).
pub open spec fn ticks_for(target: int, start: int, tb: Timebase) -> int {
    let n = (target + start) * tb.den;
    let d = tb.num * ONE;
    if n >= 0 { n / d } else { -((-n) / d) }
}

pub fn seek_ticks(target: i64, start: i64, tb: Timebase) -> (r: i64)
    requires
        tb.wf(),
        time_ok(target as int),
        time_ok(start as int),
    ensures
        r == ticks_for(target as int, start as int, tb),
{
    let t: i128 = target as i128 + start as i128;
    proof {
        assert(-0x2000_0000_0000_0000 * 0x8000_0000 <= t * tb.den <= 0x2000_0000_0000_0000
            * 0x8000_0000) by (nonlinear_arith)
            requires
                -0x2000_0000_0000_0000 <= t <= 0x2000_0000_0000_0000,
                0 < tb.den <= 0x7fff_ffff,
        ;
    }
    let n: i128 = t * tb.den as i128;
    assert(0 < tb.num * ONE <= 0x8000_0000 * 0x4000_0000);
    let d: i128 = tb.num as i128 * ONE as i128;
    proof {
        lemma_ticks_fit(n as int, d as int);
        lemma_ticks_fit(-n, d as int);
    }
    if n >= 0 {
        (n / d) as i64
    } else {
        -(((-n) / d) as i64)
    }
}

proof fn lemma_ticks_fit(n: int, d: int)
    requires
        d >= ONE,
        n <= 0x2000_0000_0000_0000 * 0x8000_0000,
    ensures
        n >= 0 ==> 0 <= n / d <= 0x7000_0000_0000_0000,
{
    if n >= 0 {
        assert(0 <= n / d && n / d <= 0x7000_0000_0000_0000) by (nonlinear_arith)
            requires
                0 <= n <= 0x2000_0000_0000_0000 * 0x8000_0000,
                d >= 1_000_000_000,
        ;
    }
}

/// Seeking to a frame's own time aims at that frame, or at the tick just
/// before it where the time was rounded down: never past it.
pub proof fn a_seek_to_a_frame_does_not_pass_it(pts: int, tb: Timebase, start: int)
    requires
        tb.wf(),
        tb.den <= ONE,
        pts >= 0,
        start >= 0,
        tb.time(pts) >= start,
        tb.time(pts) - start <= TIME_LIMIT,
    ensures
        pts - 1 <= ticks_for(content_time(pts, tb, start), start, tb) <= pts,
{
    let (num, den) = (tb.num as int, tb.den as int);
    let one = ONE as int;
    let v = pts * num * one;
    let t = tb.time(pts);
    round_div_is_nearest(v, den);
    assert(content_time(pts, tb, start) + start == t);
    let n = t * den;
    let d = num * one;
    assert(v == pts * d) by (nonlinear_arith)
        requires
            v == pts * num * one,
            d == num * one,
    ;
    assert(v >= 0) by (nonlinear_arith)
        requires
            v == pts * d,
            pts >= 0,
            d > 0,
    ;
    crate::units::round_div_sign(v, den);
    assert(n >= 0) by (nonlinear_arith)
        requires
            n == t * den,
            t >= 0,
            den > 0,
    ;
    // n lies within half of den of v, and den is less than twice d.
    assert(2 * n <= 2 * v + den && 2 * v < 2 * n + den) by (nonlinear_arith)
        requires
            n == t * den,
            2 * den * t <= 2 * v + den,
            2 * v + den < 2 * den * t + 2 * den,
    ;
    assert(d >= one) by (nonlinear_arith)
        requires
            d == num * one,
            num >= 1,
            one > 0,
    ;
    vstd::arithmetic::div_mod::lemma_fundamental_div_mod(n, d);
    vstd::arithmetic::div_mod::lemma_mod_bound(n, d);
    let k = n / d;
    assert(k <= pts) by (nonlinear_arith)
        requires
            d * k <= n,
            2 * n <= 2 * (pts * d) + den,
            den <= d,
            d > 0,
    ;
    assert(pts - 1 <= k) by (nonlinear_arith)
        requires
            n < d * k + d,
            2 * (pts * d) < 2 * n + den,
            den <= d,
            d > 0,
    ;
}

/// Why a reader gave up.
#[derive(Debug, Clone, Copy, PartialEq, Eq, Structural)]
pub enum ReaderError {
    Open,
    StreamInfo,
    NoVideoStream,
    CodecParams,
    DecoderOpen,
    Read(i32),
    Decode,
    /// A failed seek fails the player rather than letting it drift.
    Seek,
}

impl ReaderError {
    pub open spec fn text(self) -> Seq<char> {
        match self {
            ReaderError::Open => "open failed"@,
            ReaderError::StreamInfo => "no stream info"@,
            ReaderError::NoVideoStream => "no video stream"@,
            ReaderError::CodecParams => "codec params failed"@,
            ReaderError::DecoderOpen => "decoder open failed"@,
            ReaderError::Read(code) => "read error "@ + signed_digits(code as int),
            ReaderError::Decode => "decode error"@,
            ReaderError::Seek => "seek failed"@,
        }
    }

    pub fn message(self) -> (r: String)
        ensures
            r@ == self.text(),
    {
        match self {
            ReaderError::Open => "open failed".to_owned(),
            ReaderError::StreamInfo => "no stream info".to_owned(),
            ReaderError::NoVideoStream => "no video stream".to_owned(),
            ReaderError::CodecParams => "codec params failed".to_owned(),
            ReaderError::DecoderOpen => "decoder open failed".to_owned(),
            ReaderError::Read(code) => {
                let mut s = "read error ".to_owned();
                push_signed(&mut s, code as i64);
                s
            },
            ReaderError::Decode => "decode error".to_owned(),
            ReaderError::Seek => "seek failed".to_owned(),
        }
    }
}

/// What came back from the last thing the reader did.
#[derive(Debug, Clone, Copy)]
pub enum Event {
    /// The player was looked at: whether it is closed, and its seek request,
    /// now taken.
    Polled { closed: bool, cmd: Option<(i64, bool)> },
    /// The demuxer was sent elsewhere.
    Sought { ok: bool },
    /// The file has no more packets.
    ReadEnd,
    ReadFailed { code: i32 },
    /// A packet of another stream.
    ReadOther,
    /// A packet of the video stream.
    ReadPacket,
    /// The decoder took what it was sent, or asked to be emptied first.
    Sent,
    /// It refused the packet.
    Refused,
    /// A frame came out, with its time where it has one.
    Frame { time: Option<i64> },
    /// No frame, for want of packets or at the end.
    Dry,
    /// Decoding failed.
    Broken,
    /// The frame was handed to the player, which may have closed meanwhile.
    Delivered { stop: bool },
    /// The reader looked up from waiting.
    Parked { closed: bool, waiting: bool },
}

/// What the reader does next.
#[derive(Debug, Clone, Copy, PartialEq, Eq, Structural)]
pub enum Action {
    /// Look at the player.
    Poll,
    /// Send the demuxer to a timestamp and flush the decoder.
    Seek { ticks: i64 },
    Read,
    /// Hand the packet to the decoder.
    Send,
    /// Tell the decoder that there is no more.
    Flush,
    /// Ask the decoder for a frame.
    Receive,
    /// Hand the frame to the player.
    Deliver,
    /// Wait for a seek: the clock will send one when it wraps.
    Park,
    Stop,
    Fail(ReaderError),
}

#[derive(Debug, Clone, Copy, PartialEq, Eq, Structural)]
pub struct Reader {
    pub tb: Timebase,
    pub start: i64,
    /// The file ended; the decoder's tail is being drained.
    pub draining: bool,
    /// Exact-seek refinement: drop decoded frames until this time.
    pub skip_until: Option<i64>,
}

impl Reader {
    pub open spec fn wf(self) -> bool {
        &&& self.tb.wf()
        &&& time_ok(self.start as int)
        &&& self.skip_until matches Some(t) ==> time_ok(t as int)
    }

    /// Whether a decoded frame lies before the target of an exact seek.
    pub open spec fn skips(self, time: Option<i64>) -> bool {
        self.skip_until matches Some(t) && (time matches Some(p) && p < t - SEEK_SLACK)
    }

    /// The reader's state after an event.
    pub open spec fn after(self, event: Event) -> Reader {
        match event {
            Event::Polled { closed: false, cmd: Some((target, exact)) } => Reader {
                draining: false,
                skip_until: if exact { Some(target) } else { None },
                ..self
            },
            Event::ReadEnd => Reader { draining: true, ..self },
            Event::Frame { time } => if self.skips(time) {
                self
            } else {
                Reader { skip_until: None, ..self }
            },
            Event::Parked { closed: false, waiting: true } => Reader { draining: false, ..self },
            _ => self,
        }
    }

    /// What it does about it.
    pub open spec fn answer(self, event: Event) -> Action {
        match event {
            Event::Polled { closed: true, .. } => Action::Stop,
            Event::Polled { cmd: Some((target, _)), .. } => Action::Seek {
                ticks: ticks_for(target as int, self.start as int, self.tb) as i64,
            },
            Event::Polled { .. } => Action::Read,
            Event::Sought { ok } => if ok { Action::Poll } else { Action::Fail(ReaderError::Seek) },
            Event::ReadEnd => Action::Flush,
            Event::ReadFailed { code } => Action::Fail(ReaderError::Read(code)),
            Event::ReadOther => Action::Poll,
            Event::ReadPacket => Action::Send,
            Event::Sent => Action::Receive,
            Event::Refused => if self.draining { Action::Receive } else { Action::Poll },
            Event::Frame { time } => if self.skips(time) {
                Action::Receive
            } else {
                Action::Deliver
            },
            Event::Dry => if self.draining { Action::Park } else { Action::Poll },
            Event::Broken => if self.draining {
                Action::Park
            } else {
                Action::Fail(ReaderError::Decode)
            },
            Event::Delivered { stop } => if stop { Action::Stop } else { Action::Receive },
            Event::Parked { closed, waiting } => if closed {
                Action::Stop
            } else if waiting {
                Action::Poll
            } else {
                Action::Park
            },
        }
    }

    /// A reader at the start of its stream.
    pub fn new(tb: Timebase, start: Option<i64>) -> (r: Reader)
        requires
            tb.wf(),
        ensures
            r == (Reader {
                tb,
                start: start_of(start, tb) as i64,
                draining: false,
                skip_until: None,
            }),
            r.wf(),
    {
        Reader { tb, start: start_offset(start, tb), draining: false, skip_until: None }
    }

    /// Decides what to do about an event.
    pub fn next(&mut self, event: Event) -> (r: Action)
        requires
            old(self).wf(),
            event matches Event::Polled { cmd: Some(c), .. } ==> time_ok(c.0 as int),
        ensures
            *final(self) == old(self).after(event),
            r == old(self).answer(event),
            final(self).wf(),
    {
        match event {
            Event::Polled { closed, cmd } => {
                if closed {
                    return Action::Stop;
                }
                match cmd {
                    Some((target, exact)) => {
                        let ticks: i64 = seek_ticks(target, self.start, self.tb);
                        self.draining = false;
                        self.skip_until = if exact {
                            Some(target)
                        } else {
                            None
                        };
                        Action::Seek { ticks }
                    },
                    None => Action::Read,
                }
            },
            Event::Sought { ok } => if ok {
                Action::Poll
            } else {
                Action::Fail(ReaderError::Seek)
            },
            Event::ReadEnd => {
                self.draining = true;
                Action::Flush
            },
            Event::ReadFailed { code } => Action::Fail(ReaderError::Read(code)),
            Event::ReadOther => Action::Poll,
            Event::ReadPacket => Action::Send,
            Event::Sent => Action::Receive,
            Event::Refused => if self.draining {
                Action::Receive
            } else {
                Action::Poll
            },
            Event::Frame { time } => {
                let skip = match (self.skip_until, time) {
                    (Some(t), Some(p)) => p < t - SEEK_SLACK,
                    _ => false,
                };
                if skip {
                    Action::Receive
                } else {
                    self.skip_until = None;
                    Action::Deliver
                }
            },
            Event::Dry => if self.draining {
                Action::Park
            } else {
                Action::Poll
            },
            Event::Broken => if self.draining {
                Action::Park
            } else {
                Action::Fail(ReaderError::Decode)
            },
            Event::Delivered { stop } => if stop {
                Action::Stop
            } else {
                Action::Receive
            },
            Event::Parked { closed, waiting } => if closed {
                Action::Stop
            } else if waiting {
                self.draining = false;
                Action::Poll
            } else {
                Action::Park
            },
        }
    }
}

/// The reader's state after a run of events.
pub open spec fn after_all(r: Reader, events: Seq<Event>) -> Reader
    decreases events.len(),
{
    if events.len() == 0 {
        r
    } else {
        after_all(r, events.drop_last()).after(events.last())
    }
}

/// No frame of the run reaches the player: neither delivered nor a new seek.
pub open spec fn nothing_shown(r: Reader, events: Seq<Event>) -> bool {
    forall|i: int|
        0 <= i < events.len() ==> {
            &&& after_all(r, events.take(i)).answer(#[trigger] events[i]) != Action::Deliver
            &&& !(events[i] matches Event::Polled { cmd: Some(_), .. })
        }
}

/// An exact seek lands: whatever the demuxer and the decoder do in between,
/// the first frame delivered after it does not lie before the target (but for
/// a millisecond), and the frames after that are delivered as they come.
pub proof fn an_exact_seek_lands(r: Reader, target: i64, events: Seq<Event>, time: Option<i64>)
    requires
        nothing_shown(
            r.after(Event::Polled { closed: false, cmd: Some((target, true)) }),
            events,
        ),
    ensures
        ({
            let s = after_all(
                r.after(Event::Polled { closed: false, cmd: Some((target, true)) }),
                events,
            );
            let f = Event::Frame { time };
            &&& s.skip_until == Some(target)
            &&& s.answer(f) == Action::Deliver && time is Some ==> time->0 >= target - SEEK_SLACK
            &&& s.answer(f) == Action::Deliver ==> s.after(f).skip_until is None
        }),
    decreases events.len(),
{
    let a = r.after(Event::Polled { closed: false, cmd: Some((target, true)) });
    if events.len() > 0 {
        let front = events.drop_last();
        assert forall|i: int| 0 <= i < front.len() implies {
            &&& after_all(a, front.take(i)).answer(#[trigger] front[i]) != Action::Deliver
            &&& !(front[i] matches Event::Polled { cmd: Some(_), .. })
        } by {
            assert(front.take(i) =~= events.take(i));
            assert(front[i] == events[i]);
        }
        an_exact_seek_lands(r, target, front, time);
        let last = events.len() - 1;
        assert(events.take(last) =~= front);
        assert(after_all(a, events.take(last)).answer(events[last]) != Action::Deliver);
    }
}

/// A corrupt packet is skipped: it never stops or fails the reader.
pub proof fn a_corrupt_packet_keeps_the_stream_alive(r: Reader)
    ensures
        r.answer(Event::Refused) == Action::Poll || r.answer(Event::Refused) == Action::Receive,
        r.after(Event::Refused) == r,
{
}

/// At the end of the file the reader drains the decoder and then waits, until
/// a seek or the player's end: it neither stops nor fails on its own.
pub proof fn the_end_of_the_file_parks_the_reader(r: Reader)
    ensures
        r.answer(Event::ReadEnd) == Action::Flush,
        ({
            let d = r.after(Event::ReadEnd);
            &&& d.answer(Event::Dry) == Action::Park
            &&& d.answer(Event::Broken) == Action::Park
            &&& d.answer(Event::Parked { closed: false, waiting: false }) == Action::Park
            &&& d.answer(Event::Parked { closed: false, waiting: true }) == Action::Poll
            &&& d.answer(Event::Parked { closed: true, waiting: false }) == Action::Stop
        }),
{
}

/// A reader whose player is gone stops at its next look, whatever it was
/// doing.
pub proof fn a_closed_player_stops_its_reader(r: Reader, cmd: Option<(i64, bool)>, waiting: bool)
    ensures
        r.answer(Event::Polled { closed: true, cmd }) == Action::Stop,
        r.answer(Event::Parked { closed: true, waiting }) == Action::Stop,
        r.answer(Event::Delivered { stop: true }) == Action::Stop,
{
}

/// The part of the filter chain that turns the picture upright: a rotation
/// within one degree of a quarter turn is undone, any other is left.
pub open spec fn turn_filter(rotation: Option<i64>) -> Seq<char> {
    match rotation {
        Some(r) => {
            let q = quarters(r as int);
            let off = r - q * QUARTER;
            if off > ONE || off < -ONE {
                ""@
            } else if q % 4 == 1 {
                "transpose=2,"@
            } else if q % 4 == 3 {
                "transpose=1,"@
            } else if q % 4 == 2 {
                "hflip,vflip,"@
            } else {
                ""@
            }
        },
        None => ""@,
    }
}

/// The filter chain from decoded frames to upright RGBA pictures of exactly
/// the display dimensions.
pub open spec fn chain_text(rotation: Option<i64>, w: u32, h: u32) -> Seq<char> {
    turn_filter(rotation) + "scale="@ + digits(w as nat) + ":"@ + digits(h as nat)
        + ":flags=bilinear,format=rgba"@
}

fn turn_of(rotation: Option<i64>) -> (r: String)
    ensures
        r@ == turn_filter(rotation),
{
    match rotation {
        Some(r) => {
            let q: i64 = quarter_turns(r);
            let off: i128 = r as i128 - q as i128 * QUARTER as i128;
            if off > ONE as i128 || off < -(ONE as i128) {
                return "".to_owned();
            }
            let m: i64 = q % 4;
            proof {
                lemma_turn(q as int, m as int);
            }
            if m == 1 || m == -3 {
                "transpose=2,".to_owned()
            } else if m == 3 || m == -1 {
                "transpose=1,".to_owned()
            } else if m == 2 || m == -2 {
                "hflip,vflip,".to_owned()
            } else {
                "".to_owned()
            }
        },
        None => "".to_owned(),
    }
}

/// A truncating remainder names its quarter turn.
proof fn lemma_turn(q: int, m: int)
    requires
        q >= 0 ==> m == q % 4,
        q < 0 ==> m == -((-q) % 4),
    ensures
        (q % 4 == 1) == (m == 1 || m == -3),
        (q % 4 == 2) == (m == 2 || m == -2),
        (q % 4 == 3) == (m == 3 || m == -1),
{
}

/// The filter chain for a clip. Rotation is explicit: the filter library does
/// not turn pictures by itself. The scale is normally the identity but pins
/// the output dimensions so decoder cropping can't break the upload.
pub fn filter_chain(rotation: Option<i64>, w: u32, h: u32) -> (r: String)
    ensures
        r@ == chain_text(rotation, w, h),
{
    let mut s = turn_of(rotation);
    s.append("scale=");
    push_number(&mut s, w as u64);
    s.append(":");
    push_number(&mut s, h as u64);
    s.append(":flags=bilinear,format=rgba");
    assert(s@ =~= chain_text(rotation, w, h));
    s
}

/// Whether a filtered frame is what the upload expects; anything else is
/// dropped.
pub fn frame_matches(rgba: bool, fw: i32, fh: i32, w: u32, h: u32) -> (r: bool)
    ensures
        r == (rgba && fw == w && fh == h),
{
    rgba && fw as i64 == w as i64 && fh as i64 == h as i64
}

/// The pixel format to decode to: the hardware's where it is offered, else
/// the first.
pub open spec fn chosen(formats: Seq<i32>, hardware: i32) -> i32 {
    if formats.contains(hardware) { hardware } else { formats[0] }
}

pub fn pick_format(formats: &[i32], hardware: i32) -> (r: i32)
    requires
        formats@.len() > 0,
    ensures
        r == chosen(formats@, hardware),
{
    let mut i: usize = 0;
    while i < formats.len()
        invariant
            i <= formats@.len(),
            forall|k: int| 0 <= k < i ==> formats@[k] != hardware,
        decreases formats@.len() - i,
    {
        if formats[i] == hardware {
            assert(formats@.contains(hardware));
            return hardware;
        }
        i = i + 1;
    }
    formats[0]
}

/// `out` holds the `h` rows of `row` bytes that lie `stride` apart in `src`.
pub open spec fn packed(src: Seq<u8>, stride: int, row: int, h: int, out: Seq<u8>) -> bool {
    &&& out.len() == row * h
    &&& forall|y: int, x: int|
        0 <= y < h && 0 <= x < row ==> #[trigger] out[y * row + x] == src[y * stride + x]
}

/// Copies a picture's rows out of the decoder's frame, leaving its padding
/// behind.
pub fn pack_rows(src: &[u8], stride: usize, row: usize, h: usize, buf: Vec<u8>) -> (r: Vec<u8>)
    requires
        row <= stride,
        h > 0 ==> stride * (h - 1) + row <= src@.len(),
        buf@.len() == row * h,
    ensures
        packed(src@, stride as int, row as int, h as int, r@),
{
    let mut out = buf;
    let size: usize = out.len();
    let room: usize = src.len();
    let mut y: usize = 0;
    while y < h
        invariant
            y <= h,
            row <= stride,
            h > 0 ==> stride * (h - 1) + row <= room,
            room == src@.len(),
            size == row * h,
            out@.len() == size,
            forall|b: int, x: int|
                0 <= b < y && 0 <= x < row ==> #[trigger] out@[b * row + x] == src@[b * stride + x],
        decreases h - y,
    {
        let mut x: usize = 0;
        proof {
            lemma_row(y as int, 0, row as int, stride as int, h as int);
        }
        let from: usize = y * stride;
        let to: usize = y * row;
        while x < row
            invariant
                x <= row,
                y < h,
                row <= stride,
                stride * (h - 1) + row <= room,
                room == src@.len(),
                size == row * h,
                out@.len() == size,
                from == y * stride,
                to == y * row,
                forall|b: int, c: int|
                    0 <= b < y && 0 <= c < row ==> #[trigger] out@[b * row + c] == src@[b * stride
                        + c],
                forall|c: int| 0 <= c < x ==> #[trigger] out@[y * row + c] == src@[y * stride + c],
            decreases row - x,
        {
            proof {
                lemma_row(y as int, x as int, row as int, stride as int, h as int);
            }
            let ghost prev = out@;
            out.set(to + x, src[from + x]);
            assert forall|b: int, c: int| 0 <= b < y && 0 <= c < row implies #[trigger] out@[b * row
                + c] == src@[b * stride + c] by {
                lemma_earlier_row(b, c, y as int, row as int);
                assert(prev[b * row + c] == src@[b * stride + c]);
            }
            x = x + 1;
        }
        y = y + 1;
        assert forall|b: int, c: int| 0 <= b < y && 0 <= c < row implies #[trigger] out@[b * row + c]
            == src@[b * stride + c] by {
            if b == y - 1 {
                assert(out@[(y - 1) * row + c] == src@[(y - 1) * stride + c]);
            }
        }
    }
    out
}

proof fn lemma_row(y: int, x: int, row: int, stride: int, h: int)
    requires
        0 <= y < h,
        0 <= x <= row <= stride,
    ensures
        0 <= y * row + x <= row * h,
        x < row ==> y * row + x < row * h,
        0 <= y * stride + x <= stride * (h - 1) + row,
        x < row ==> y * stride + x < stride * (h - 1) + row,
        0 <= y * row,
        0 <= y * stride,
{
    assert(0 <= y * row && y * row + row <= row * h && 0 <= y * stride && y * stride <= stride * (h
        - 1)) by (nonlinear_arith)
        requires
            0 <= y < h,
            0 <= row <= stride,
    ;
}

proof fn lemma_earlier_row(b: int, c: int, y: int, row: int)
    requires
        0 <= b < y,
        0 <= c < row,
    ensures
        0 <= b * row + c < y * row,
{
    assert(0 <= b * row && b * row + row <= y * row) by (nonlinear_arith)
        requires
            0 <= b < y,
            row > 0,
    ;
}

} // verus!
