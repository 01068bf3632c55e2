//! A stream's queue, seen from outside: what goes in comes out in order, and how
//! a reader is held to its pace.

use crate::deliver::{DeliveryState, PictureState};
use crate::player::{buffers, refilled, resized, Admit, FrameState, PlayerState, Pushed};
use crate::textures::{fits_texture, sizes_for};
use crate::items::UploadState;
use vstd::prelude::*;

verus! {

/// A reader is stopped by a closed player, told to drop its frame where a seek
/// waits, held while four frames are queued, and let in otherwise.
pub proof fn a_reader_is_held_to_the_queue(p: PlayerState)
    ensures
        p.closed ==> p.admittance() == Admit::Stop,
        !p.closed && p.cmd is Some ==> p.admittance() == Admit::Stale,
        !p.closed && p.cmd is None && p.frames.len() >= 4 ==> p.admittance() == Admit::Full,
        !p.closed && p.cmd is None && p.frames.len() < 4 ==> p.admittance() == Admit::Room,
{
}

/// Frames come out in the order they went in: what is pushed joins the end, the
/// next to come out is the first. A closed player, or one with a seek waiting,
/// takes none.
pub proof fn frames_come_out_in_order(p: PlayerState, f: FrameState)
    ensures
        !p.closed && p.cmd is None ==> {
            &&& p.queued(f) == (PlayerState { frames: p.frames.push(f), ..p })
            &&& p.outcome_of_push() == (Pushed::Queued { wake: p.frames.len() == 0 && p.notify })
        },
        p.closed ==> p.queued(f) == p && p.outcome_of_push() == Pushed::Stop,
        !p.closed && p.cmd is Some ==> p.queued(f) == p && p.outcome_of_push() == Pushed::Stale,
        p.frames.len() > 0 ==> p.next() == Some(p.frames[0]) && p.advanced().frames
            == p.frames.skip(1) && p.advanced().position == p.frames[0].pts,
        p.frames.len() == 0 ==> p.next() is None && p.advanced() == p,
        p.frames.len() == 0 && !p.closed && p.cmd is None ==> p.queued(f).next() == Some(f),
{
}

/// A seek leaves nothing queued and waits for the reader, at the start where it
/// would go before it; the newest request is the one that counts, and a failed
/// stream stays failed.
pub proof fn a_seek_empties_the_queue(p: PlayerState, target: int, later: int, exact: bool)
    requires
        target <= i64::MAX,
        later <= i64::MAX,
    ensures
        ({
            let t = if target < 0 { 0 } else { target };
            let l = if later < 0 { 0 } else { later };
            let a = p.sought(target, exact);
            &&& a.frames.len() == 0
            &&& a.cmd == Some((t as i64, exact))
            &&& a.position == t
            &&& a.admittance() != Admit::Room
            &&& a.w == p.w && a.h == p.h && a.id == p.id && a.failed == p.failed
            &&& a.closed == p.closed && a.notify == p.notify
            &&& a.sought(later, exact).cmd == Some((l as i64, exact))
        }),
{
}

/// Buffers are kept for reuse, up to six: what came first stays, and no buffer
/// is lost while there is room.
pub proof fn buffers_are_kept_for_reuse(pool: Seq<Seq<u8>>, bufs: Seq<Seq<u8>>, i: int)
    requires
        pool.len() <= 6,
    ensures
        ({
            let r = refilled(pool, bufs);
            &&& r.len() <= 6
            &&& pool.len() + bufs.len() <= 6 ==> r == pool + bufs
            &&& pool.len() + bufs.len() >= 6 ==> r.len() == 6
            &&& 0 <= i < pool.len() ==> r[i] == pool[i]
            &&& pool.len() <= i < r.len() ==> r[i] == bufs[i - pool.len()]
        }),
{
    if pool.len() + bufs.len() <= 6 {
        assert(refilled(pool, bufs) =~= pool + bufs);
    }
}

/// What a tick passes over goes back to the pool, but for the frame that it
/// shows.
pub proof fn passed_frames_give_their_buffers_back(p: PlayerState, t: int, k: int)
    requires
        crate::sync::is_newest(p.frames, k, t),
    ensures
        p.drained(t).frames == p.frames.skip(k + 1),
        p.drained(t).position == p.frames[k].pts,
        p.newest_due(t) == Some(p.frames[k]),
        p.drained(t).pool == refilled(
            p.pool,
            Seq::new(k as nat, |i: int| p.frames[i].buf),
        ),
        p.drained(t).cmd == p.cmd && p.drained(t).failed == p.failed,
{
    crate::player::due_frames_are_reached(p.frames, t);
    let n = crate::player::due(p.frames, t);
    if n < k + 1 {
        assert(p.frames[n as int].pts <= t);
    }
    if n > k + 1 {
        assert(p.frames[k + 1].pts <= t);
    }
    assert(buffers(p.frames.take(k)) =~= Seq::new(k as nat, |i: int| p.frames[i].buf));
}

/// A player starts with nothing: as large as its picture, but two pixels at
/// least each way, with nothing queued, asked or wrong.
pub proof fn a_player_starts_empty(id: u64, w: u32, h: u32)
    ensures
        ({
            let p = PlayerState::spawned(id, w, h);
            &&& p.id == id
            &&& p.w == if w < 2 { 2 } else { w }
            &&& p.h == if h < 2 { 2 } else { h }
            &&& p.frames.len() == 0 && p.pool.len() == 0
            &&& !p.closed && !p.failed && p.cmd is None && p.position == 0
            &&& p.admittance() == Admit::Room
        }),
{
}

/// A clip's frames fit the texture that is made for it: as large as its player's
/// pictures, whatever the clip's dimensions.
pub proof fn frames_fit_their_textures(dims: Seq<(u32, u32)>, i: int, id: u64, buf: Seq<u8>)
    requires
        0 <= i < dims.len() <= usize::MAX,
        buf.len() == PlayerState::spawned(id, dims[i].0, dims[i].1).w * PlayerState::spawned(
            id,
            dims[i].0,
            dims[i].1,
        ).h * 4,
    ensures
        ({
            let p = PlayerState::spawned(id, dims[i].0, dims[i].1);
            let up = UploadState { idx: i as usize, w: p.w, h: p.h, buf };
            &&& sizes_for(dims).len() == dims.len()
            &&& fits_texture(up, sizes_for(dims))
        }),
{
}

/// A frame of another size, or with bytes missing, is not uploaded.
pub proof fn other_frames_are_not_uploaded(up: UploadState, sizes: Seq<(u32, u32)>)
    ensures
        fits_texture(up, sizes) <==> {
            &&& up.idx < sizes.len()
            &&& up.w == sizes[up.idx as int].0 && up.h == sizes[up.idx as int].1
            &&& up.buf.len() == 4 * (up.w * up.h)
        },
{
    assert(up.w * up.h * 4 == 4 * (up.w * up.h)) by (nonlinear_arith);
}

/// A picture is queued as its pixels stand in the decoder's frame: pixel by
/// pixel, row by row, without what pads the rows.
pub proof fn a_picture_is_copied_row_by_row(p: PictureState, out: Seq<u8>, x: int, y: int)
    requires
        p.whole(),
        p.packs(out),
        0 <= x < 4 * p.width,
        0 <= y < p.height,
    ensures
        out.len() == 4 * (p.width * p.height),
        out[y * (4 * p.width) + x] == p.src[y * p.stride + x],
{
    let row = p.width * 4;
    assert(4 * p.width == row);
    assert(out[y * row + x] == p.src[y * p.stride + x]);
    assert(row * p.height == 4 * (p.width * p.height)) by (nonlinear_arith)
        requires
            row == p.width * 4,
    ;
}

/// Only a picture in the right format and of the right size, with every row
/// there, is let in; any other is passed over. One that is let in finds the way
/// that the queue has: stop, drop, wait, copy, then queue.
pub proof fn only_a_fitting_picture_is_let_in(
    player: PlayerState,
    p: PictureState,
    copied: Option<Seq<u8>>,
)
    ensures
        ({
            let fits = p.rgba && p.width == player.w && p.height == player.h && p.width > 0
                && p.height > 0 && 4 * p.width <= p.stride && p.stride * (p.height - 1) + 4
                * p.width <= p.src.len();
            let r = player.answer_to(p, copied);
            let a = player.offered(p, copied);
            &&& !fits ==> r is Skip && a == player
            &&& fits && player.closed ==> r is Stop && a == player
            &&& fits && !player.closed && player.cmd is Some ==> r is Skip && a == player
            &&& fits && !player.closed && player.cmd is None && player.frames.len() >= 4 ==> r
                == DeliveryState::Wait(copied) && a == player
            &&& fits && !player.closed && player.cmd is None && player.frames.len() < 4 ==> match copied {
                None => r is Copy && a.frames == player.frames,
                Some(buf) => r is Queued && a.frames == player.frames.push(
                    FrameState { pts: p.pts, buf },
                ),
            }
        }),
{
}

/// A buffer brought to a length keeps what it held as far as that goes, and is
/// filled up with zeros.
pub proof fn a_buffer_is_brought_to_its_length(buf: Seq<u8>, len: nat, i: int)
    requires
        0 <= i < len,
    ensures
        resized(buf, len).len() == len,
        resized(buf, len)[i] == if i < buf.len() { buf[i] } else { 0u8 },
{
}

/// A clip is loaded with nothing shown yet, and a player of its own size.
pub proof fn a_clip_is_loaded_with_nothing_shown(info: crate::probe::InfoState, id: u64)
    ensures
        ({
            let v = crate::app::VideoState::loaded(info, id);
            &&& v.info == info
            &&& v.player == PlayerState::spawned(id, info.width, info.height)
            &&& v.shown_pts == 0 && !v.delivered && !v.pending
        }),
{
}

/// Every picture with a size that the machine can hold is shown.
pub proof fn every_picture_that_can_be_held_is_shown(info: crate::probe::InfoState)
    requires
        info.width >= 2,
        info.height >= 2,
    ensures
        crate::app::showable(info) <==> info.width * info.height <= isize::MAX,
{
}

/// A presented frame's buffer goes back to its own clip, where that has room for
/// it, and to no other; nothing else changes.
pub proof fn a_buffer_goes_back_to_its_own_clip(
    s: crate::app::AppState,
    i: int,
    k: int,
    buf: Seq<u8>,
)
    requires
        s.wf(),
        0 <= k < s.videos.len(),
    ensures
        ({
            let a = s.recycled(i, buf);
            let (v, w) = (s.videos[k], a.videos[k]);
            &&& a.videos.len() == s.videos.len()
            &&& a == (crate::app::AppState { videos: a.videos, ..s })
            &&& k != i ==> w == v
            &&& k == i && v.player.pool.len() < 6 ==> w.player.pool == v.player.pool.push(buf)
            &&& k == i && v.player.pool.len() >= 6 ==> w.player.pool == v.player.pool
            &&& w.player.frames == v.player.frames && w.player.cmd == v.player.cmd
            &&& w.info == v.info && w.shown_pts == v.shown_pts && w.pending == v.pending
        }),
{
    crate::app::clip_ok(s.videos, s.masks, k);
    let pool = s.videos[k].player.pool;
    if pool.len() < 6 {
        assert(refilled(pool, seq![buf]) =~= pool.push(buf));
    } else {
        assert(refilled(pool, seq![buf]) =~= pool);
    }
}

} // verus!
