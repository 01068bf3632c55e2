//! A stream's own clock, seen from outside: what time a frame has, where a seek
//! goes, and how a reader gets from one frame to the next.

use crate::decode::{
    chain_text, chosen, content_time, start_of, ticks_for, turn_filter, Action, Event, Reader,
    ReaderError, Timebase,
};
use crate::probe::quarters;
use crate::units::{round_div_is_nearest, ONE, TIME_LIMIT};
use vstd::prelude::*;

verus! {

/// Whether `t` is the time of timestamp `pts`: that many units of the time base,
/// to the nearest billionth of a second.
pub open spec fn is_time(t: int, pts: int, tb: Timebase) -> bool {
    let n = pts * tb.num * 1_000_000_000;
    &&& 2 * (tb.den * t) <= 2 * n + tb.den
    &&& 2 * n < 2 * (tb.den * t) + tb.den
}

proof fn lemma_is_time(pts: int, tb: Timebase)
    requires
        tb.wf(),
    ensures
        is_time(tb.time(pts), pts, tb),
{
    let d = tb.den as int;
    let t = tb.time(pts);
    round_div_is_nearest(pts * tb.num * ONE, d);
    assert(2 * d * t == 2 * (d * t)) by (nonlinear_arith);
}

/// A frame's time is its timestamp in seconds, counted from where the stream
/// begins; so the first frame of every stream is at 0, whatever its file starts
/// at.
pub proof fn every_stream_begins_at_zero(pts: int, first: i64, tb: Timebase)
    requires
        tb.wf(),
        -TIME_LIMIT <= tb.time(first as int) <= TIME_LIMIT,
        -TIME_LIMIT <= tb.time(pts) - tb.time(first as int) <= TIME_LIMIT,
    ensures
        ({
            let start = start_of(Some(first), tb);
            &&& is_time(start, first as int, tb)
            &&& is_time(content_time(pts, tb, start) + start, pts, tb)
            &&& content_time(first as int, tb, start) == 0
            &&& start_of(None, tb) == 0
        }),
{
    lemma_is_time(pts, tb);
    lemma_is_time(first as int, tb);
}

/// A later frame has no earlier time.
pub proof fn times_keep_the_order(pts: int, later: int, tb: Timebase, start: int)
    requires
        tb.wf(),
        pts <= later,
    ensures
        content_time(pts, tb, start) <= content_time(later, tb, start),
{
    lemma_is_time(pts, tb);
    lemma_is_time(later, tb);
    let (a, b) = (tb.time(pts), tb.time(later));
    let d = tb.den as int;
    let (m, n) = (pts * tb.num * 1_000_000_000, later * tb.num * 1_000_000_000);
    assert(m <= n) by (nonlinear_arith)
        requires
            m == pts * tb.num * 1_000_000_000,
            n == later * tb.num * 1_000_000_000,
            pts <= later,
            tb.num > 0,
    ;
    assert(a <= b) by (nonlinear_arith)
        requires
            2 * (d * a) <= 2 * m + d,
            2 * n < 2 * (d * b) + d,
            m <= n,
            d > 0,
    ;
}

/// A seek goes to the last timestamp at or before its target, counted from where
/// the stream begins.
pub proof fn a_seek_goes_to_the_last_tick_before_its_target(target: int, start: int, tb: Timebase)
    requires
        tb.wf(),
        target + start >= 0,
    ensures
        ({
            let k = ticks_for(target, start, tb);
            let unit = tb.num * 1_000_000_000;
            &&& k >= 0
            &&& k * unit <= (target + start) * tb.den
            &&& (target + start) * tb.den < (k + 1) * unit
        }),
{
    let n = (target + start) * tb.den;
    let d = tb.num * ONE;
    assert(n >= 0) by (nonlinear_arith)
        requires
            n == (target + start) * tb.den,
            target + start >= 0,
            tb.den > 0,
    ;
    vstd::arithmetic::div_mod::lemma_fundamental_div_mod(n, d);
    vstd::arithmetic::div_mod::lemma_mod_bound(n, d);
    vstd::arithmetic::div_mod::lemma_div_pos_is_pos(n, d);
    let k = n / d;
    assert(k * d == d * k && (k + 1) * d == d * k + d) by (nonlinear_arith);
}

/// A reader that is asked to seek goes there, in its stream's own units, and
/// then reads on; it forgets that the file had ended. An exact seek drops frames
/// that lie more than a millisecond before the target, and keeps all others; a
/// quick one drops none.
pub proof fn a_reader_seeks_where_it_is_told(r: Reader, target: i64, exact: bool, time: Option<i64>)
    requires
        r.wf(),
    ensures
        ({
            let e = Event::Polled { closed: false, cmd: Some((target, exact)) };
            let a = r.after(e);
            let f = Event::Frame { time };
            let early = exact && (time matches Some(t) && t < target - 1_000_000);
            &&& r.answer(e) == Action::Seek {
                ticks: ticks_for(target as int, r.start as int, r.tb) as i64,
            }
            &&& !a.draining && a.tb == r.tb && a.start == r.start
            &&& a.answer(Event::Sought { ok: true }) == Action::Poll
            &&& a.answer(Event::Sought { ok: false }) == Action::Fail(ReaderError::Seek)
            &&& early ==> a.answer(f) == Action::Receive && a.after(f) == a
            &&& !early ==> a.answer(f) == Action::Deliver && a.after(f) == (Reader {
                skip_until: None,
                ..a
            })
        }),
{
}

/// A reader with nothing to skip goes round: it looks at its player, reads a
/// packet, sends it, asks for frames, delivers each, and looks again when there
/// are no more. Packets of other streams are passed over. What breaks the file
/// or the decoder stops it, with the reason.
pub proof fn a_reader_goes_round(r: Reader, time: Option<i64>, code: i32)
    requires
        r.skip_until is None,
        !r.draining,
    ensures
        r.answer(Event::Polled { closed: false, cmd: None }) == Action::Read,
        r.after(Event::Polled { closed: false, cmd: None }) == r,
        r.answer(Event::ReadOther) == Action::Poll && r.after(Event::ReadOther) == r,
        r.answer(Event::ReadPacket) == Action::Send && r.after(Event::ReadPacket) == r,
        r.answer(Event::Sent) == Action::Receive && r.after(Event::Sent) == r,
        r.answer(Event::Frame { time }) == Action::Deliver && r.after(Event::Frame { time }) == r,
        r.answer(Event::Delivered { stop: false }) == Action::Receive,
        r.after(Event::Delivered { stop: false }) == r,
        r.answer(Event::Dry) == Action::Poll && r.after(Event::Dry) == r,
        r.answer(Event::Refused) == Action::Poll,
        r.answer(Event::ReadFailed { code }) == Action::Fail(ReaderError::Read(code)),
        r.answer(Event::Broken) == Action::Fail(ReaderError::Decode),
{
}

/// At the end of the file the decoder's tail is still delivered, frame by frame,
/// and a seek brings the reader back.
pub proof fn the_tail_of_a_file_is_delivered(r: Reader, time: Option<i64>, target: i64)
    requires
        r.skip_until is None,
    ensures
        ({
            let d = r.after(Event::ReadEnd);
            &&& d == (Reader { draining: true, ..r })
            &&& d.answer(Event::Sent) == Action::Receive
            &&& d.answer(Event::Refused) == Action::Receive
            &&& d.answer(Event::Frame { time }) == Action::Deliver
            &&& d.after(Event::Frame { time }) == d
            &&& d.after(Event::Parked { closed: false, waiting: true }) == (Reader {
                draining: false,
                ..r
            })
            &&& !d.after(Event::Polled { closed: false, cmd: Some((target, true)) }).draining
        }),
{
}

/// A rotation is a whole number of quarter turns, the nearest, halves away from
/// 0.
pub proof fn quarters_are_nearest(r: int)
    ensures
        ({
            let off = r - quarters(r) * 90_000_000_000;
            -45_000_000_000 <= off <= 45_000_000_000
        }),
{
    let d = 90_000_000_000int;
    if r >= 0 {
        round_div_is_nearest(r, d);
    } else {
        round_div_is_nearest(-r, d);
    }
}

/// A picture that lies `k` quarter turns off, to within a degree, is turned
/// upright: one turn by `transpose=2`, three by `transpose=1`, two by both
/// flips. One that lies right is left, and so is any that lies askew.
pub proof fn pictures_are_turned_upright(r: i64, k: int, w: u32, h: u32)
    requires
        -1_000_000_000 <= r - k * 90_000_000_000 <= 1_000_000_000,
    ensures
        turn_filter(Some(r)) == if k % 4 == 0 {
            ""@
        } else if k % 4 == 1 {
            "transpose=2,"@
        } else if k % 4 == 2 {
            "hflip,vflip,"@
        } else {
            "transpose=1,"@
        },
        turn_filter(None) == ""@,
        chain_text(Some(r), w, h) == turn_filter(Some(r)) + chain_text(None, w, h),
{
    quarters_are_nearest(r as int);
    assert(quarters(r as int) == k);
    reveal_strlit("");
    assert(chain_text(Some(r), w, h) =~= turn_filter(Some(r)) + chain_text(None, w, h));
}

/// A picture that lies more than a degree off every quarter turn is left askew.
pub proof fn askew_pictures_are_left(r: i64)
    requires
        forall|k: int|
            #![trigger k * 90_000_000_000]
            !(-1_000_000_000 <= r - k * 90_000_000_000 <= 1_000_000_000),
    ensures
        turn_filter(Some(r)) == ""@,
{
    let q = quarters(r as int);
    assert(!(-1_000_000_000 <= r - q * 90_000_000_000 <= 1_000_000_000));
}

/// The hardware's pixel format is taken wherever it is offered, else the first.
pub proof fn the_hardware_format_is_preferred(formats: Seq<i32>, hardware: i32, i: int)
    requires
        0 <= i < formats.len(),
    ensures
        formats[i] == hardware ==> chosen(formats, hardware) == hardware,
        (forall|k: int| 0 <= k < formats.len() ==> formats[k] != hardware) ==> chosen(
            formats,
            hardware,
        ) == formats[0],
{
}

} // verus!
