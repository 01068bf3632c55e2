//! A filtered picture's way into its player's queue: the wait for room, the
//! copy out of the decoder's frame, and the hand-over.
//!
//! The copy is made without the player at hand, so everything it was admitted
//! on is looked at once more when it is done.

use crate::decode::{frame_matches, pack_rows, packed};
use crate::player::{resized, Admit, Frame, FrameState, Player, PlayerState, Pushed, QUEUE_DEPTH};
use crate::units::time_ok;
use vstd::prelude::*;

verus! {

/// A picture as the decoder holds it: rows of `stride` bytes, of which the
/// first `width * 4` are the picture's.
#[derive(Clone, Copy)]
pub struct Picture<'a> {
    /// Whether a pixel is four bytes of red, green, blue and alpha.
    pub rgba: bool,
    pub width: i32,
    pub height: i32,
    pub stride: i32,
    pub pts: i64,
    pub src: &'a [u8],
}

/// A picture's content.
pub struct PictureState {
    pub rgba: bool,
    pub width: int,
    pub height: int,
    pub stride: int,
    pub pts: i64,
    pub src: Seq<u8>,
}

impl<'a> View for Picture<'a> {
    type V = PictureState;

    open spec fn view(&self) -> PictureState {
        PictureState {
            rgba: self.rgba,
            width: self.width as int,
            height: self.height as int,
            stride: self.stride as int,
            pts: self.pts,
            src: self.src@,
        }
    }
}

impl PictureState {
    /// Every row is there.
    pub open spec fn whole(self) -> bool {
        &&& self.width > 0
        &&& self.height > 0
        &&& self.width * 4 <= self.stride
        &&& self.stride * (self.height - 1) + self.width * 4 <= self.src.len()
    }

    /// The picture is what a player of that size shows.
    pub open spec fn fits(self, w: u32, h: u32) -> bool {
        &&& self.rgba
        &&& self.width == w
        &&& self.height == h
        &&& self.whole()
    }

    /// `out` holds the picture's rows, without their padding.
    pub open spec fn packs(self, out: Seq<u8>) -> bool {
        packed(self.src, self.stride, self.width * 4, self.height, out)
    }

    /// The bytes the picture takes without padding.
    pub open spec fn size(self) -> int {
        self.width * 4 * self.height
    }
}

/// What a reader does with its picture next.
pub enum Delivery {
    /// Nothing: the picture is of no use.
    Skip,
    /// Unwind: the player is gone.
    Stop,
    /// Wait for room, then ask again with the same copy.
    Wait(Option<Vec<u8>>),
    /// Copy the picture into the buffer, then ask again with the copy.
    Copy(Vec<u8>),
    /// The picture is in the queue; `wake` the render loop.
    Queued { wake: bool },
}

/// A delivery's content.
pub enum DeliveryState {
    Skip,
    Stop,
    Wait(Option<Seq<u8>>),
    Copy(Seq<u8>),
    Queued { wake: bool },
}

/// What a buffer that may be there holds.
pub open spec fn content(buf: Option<Vec<u8>>) -> Option<Seq<u8>> {
    match buf {
        Some(b) => Some(b@),
        None => None,
    }
}

impl View for Delivery {
    type V = DeliveryState;

    open spec fn view(&self) -> DeliveryState {
        match *self {
            Delivery::Skip => DeliveryState::Skip,
            Delivery::Stop => DeliveryState::Stop,
            Delivery::Wait(buf) => DeliveryState::Wait(content(buf)),
            Delivery::Copy(buf) => DeliveryState::Copy(buf@),
            Delivery::Queued { wake } => DeliveryState::Queued { wake },
        }
    }
}

impl PlayerState {
    /// The buffer a copy of `len` bytes is made into.
    pub open spec fn buffer(self, len: nat) -> Seq<u8> {
        resized(
            if self.pool.len() == 0 {
                Seq::empty()
            } else {
                self.pool.last()
            },
            len,
        )
    }

    /// After that buffer was lent.
    pub open spec fn lent(self) -> PlayerState {
        if self.pool.len() == 0 {
            self
        } else {
            PlayerState { pool: self.pool.drop_last(), ..self }
        }
    }

    /// The answer to a reader that offers a picture, before it copied the
    /// picture or after.
    pub open spec fn answer_to(self, picture: PictureState, copied: Option<Seq<u8>>) -> DeliveryState {
        if !picture.fits(self.w, self.h) {
            DeliveryState::Skip
        } else {
            match self.admittance() {
                Admit::Stop => DeliveryState::Stop,
                Admit::Stale => DeliveryState::Skip,
                Admit::Full => DeliveryState::Wait(copied),
                Admit::Room => match copied {
                    None => DeliveryState::Copy(self.buffer(picture.size() as nat)),
                    Some(_) => DeliveryState::Queued {
                        wake: self.frames.len() == 0 && self.notify,
                    },
                },
            }
        }
    }

    /// The player after that answer.
    pub open spec fn offered(self, picture: PictureState, copied: Option<Seq<u8>>) -> PlayerState {
        if picture.fits(self.w, self.h) && self.admittance() is Room {
            match copied {
                None => self.lent(),
                Some(buf) => PlayerState {
                    frames: self.frames.push(FrameState { pts: picture.pts, buf }),
                    ..self
                },
            }
        } else {
            self
        }
    }
}

/// A whole picture without its padding is no larger than with it.
proof fn lemma_size(width: int, height: int, stride: int)
    requires
        width > 0,
        height > 0,
        width * 4 <= stride,
    ensures
        0 <= width * 4 * height <= stride * (height - 1) + width * 4,
        0 <= stride * (height - 1),
        stride <= i32::MAX && height <= i32::MAX ==> stride * (height - 1) <= 0x4000_0000_0000_0000,
{
    assert(0 <= width * 4 * height <= stride * (height - 1) + width * 4 && 0 <= stride * (height
        - 1)) by (nonlinear_arith)
        requires
            width > 0,
            height > 0,
            width * 4 <= stride,
    ;
    if stride <= i32::MAX && height <= i32::MAX {
        assert(stride * (height - 1) <= 0x4000_0000_0000_0000) by (nonlinear_arith)
            requires
                0 < stride <= 0x7fff_ffff,
                0 < height <= 0x7fff_ffff,
        ;
    }
}

impl<'a> Picture<'a> {
    /// Whether a player of that size shows the picture.
    pub fn fits(&self, w: u32, h: u32) -> (r: bool)
        ensures
            r == self@.fits(w, h),
    {
        if !frame_matches(self.rgba, self.width, self.height, w, h) {
            return false;
        }
        let (width, height, stride) = (self.width as i64, self.height as i64, self.stride as i64);
        if width <= 0 || height <= 0 || stride < width * 4 {
            return false;
        }
        proof {
            lemma_size(width as int, height as int, stride as int);
        }
        let need: i64 = stride * (height - 1) + width * 4;
        self.src.len() as u128 >= need as u128
    }

    /// Copies the picture's rows into a buffer of their size.
    pub fn pack(&self, buf: Vec<u8>) -> (r: Vec<u8>)
        requires
            self@.whole(),
            buf@.len() == self@.size(),
        ensures
            self@.packs(r@),
    {
        proof {
            lemma_size(self.width as int, self.height as int, self.stride as int);
        }
        pack_rows(
            self.src,
            self.stride as usize,
            self.width as usize * 4,
            self.height as usize,
            buf,
        )
    }
}

/// One step of a picture's delivery. `copied` is the picture's copy, once the
/// reader has made it.
pub fn deliver(player: &mut Player, picture: &Picture<'_>, copied: Option<Vec<u8>>) -> (r: Delivery)
    requires
        old(player)@.wf(),
        time_ok(picture.pts as int),
    ensures
        r@ == old(player)@.answer_to(picture@, content(copied)),
        final(player)@ == old(player)@.offered(picture@, content(copied)),
        final(player)@.wf(),
{
    if !picture.fits(player.w, player.h) {
        return Delivery::Skip;
    }
    match player.admission() {
        Admit::Stop => Delivery::Stop,
        Admit::Stale => Delivery::Skip,
        Admit::Full => Delivery::Wait(copied),
        Admit::Room => match copied {
            None => {
                let room: usize = picture.src.len();
                proof {
                    lemma_size(picture.width as int, picture.height as int, picture.stride as int);
                    assert(picture@.size() <= room);
                }
                let len: usize = picture.width as usize * 4 * picture.height as usize;
                Delivery::Copy(player.take_buf(len))
            },
            Some(buf) => match player.push(Frame { pts: picture.pts, buf }) {
                Pushed::Stop => Delivery::Stop,
                Pushed::Stale => Delivery::Skip,
                Pushed::Queued { wake } => Delivery::Queued { wake },
            },
        },
    }
}

/// A step adds at most one frame, at the back of the queue, which never
/// outgrows its depth; a picture of the wrong kind or size adds none, nor
/// does one that meets a waiting seek or a closed player. What it adds is the
/// picture's rows without their padding, under the picture's time, and the
/// render loop is woken exactly where the queue was empty and a wake was
/// asked for.
pub proof fn a_delivery_adds_at_most_one_frame(
    player: PlayerState,
    picture: PictureState,
    copied: Option<Seq<u8>>,
)
    requires
        player.wf(),
        copied matches Some(buf) ==> picture.packs(buf),
    ensures
        ({
            let after = player.offered(picture, copied);
            let told = player.answer_to(picture, copied);
            &&& after.frames.len() <= QUEUE_DEPTH
            &&& after.frames == player.frames || (after.frames.len() == player.frames.len() + 1
                && after.frames.drop_last() == player.frames && after.frames.last().pts
                == picture.pts && picture.packs(after.frames.last().buf))
            &&& after.frames != player.frames <==> told is Queued
            &&& told is Queued ==> picture.fits(player.w, player.h) && !player.closed && player.cmd
                is None
            &&& told matches DeliveryState::Queued { wake } ==> (wake <==> player.frames.len() == 0
                && player.notify)
        }),
{
    let after = player.offered(picture, copied);
    if after.frames.len() != player.frames.len() {
        assert(after.frames.drop_last() =~= player.frames);
    }
}

/// A picture that finds room and meets no seek on its way is queued in two
/// steps, copied in between.
pub proof fn a_welcome_picture_is_queued(
    player: PlayerState,
    later: PlayerState,
    picture: PictureState,
    buf: Seq<u8>,
)
    requires
        picture.fits(player.w, player.h),
        later.w == player.w && later.h == player.h,
        player.admittance() is Room,
        later.admittance() is Room,
    ensures
        player.answer_to(picture, None) is Copy,
        player.answer_to(picture, None)->Copy_0.len() == picture.size(),
        player.offered(picture, None).frames == player.frames,
        later.answer_to(picture, Some(buf)) is Queued,
{
    lemma_size(picture.width, picture.height, picture.stride);
}

} // verus!
