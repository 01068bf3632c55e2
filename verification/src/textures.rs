//! The textures and buffers the renderer keeps: their sizes, when they are
//! replaced, and which uploads they take.

use crate::items::{Upload, UploadState};
use crate::units::least;
use vstd::arithmetic::power2::pow2;
use vstd::prelude::*;

verus! {

/// Levels of a picture's mip chain at most.
pub const MIP_LEVELS: u32 = 4;

/// Quads the instance buffer holds at first.
pub const FIRST_CAPACITY: usize = 1_024;

/// How many binary digits a number has.
pub open spec fn bit_length(n: int) -> int
    decreases n,
{
    if n <= 0 {
        0
    } else {
        1 + bit_length(n / 2)
    }
}

/// The larger side.
pub open spec fn long_side(size: (u32, u32)) -> int {
    if size.0 >= size.1 { size.0 as int } else { size.1 as int }
}

/// How many levels a texture's mip chain has.
pub open spec fn levels(size: (u32, u32)) -> int {
    least(bit_length(long_side(size)), MIP_LEVELS as int)
}

/// `levels`.
pub fn mip_levels(size: (u32, u32)) -> (r: u32)
    ensures
        r == levels(size),
{
    let m: u32 = if size.0 >= size.1 { size.0 } else { size.1 };
    proof {
        reveal_with_fuel(bit_length, 5);
        lemma_bit_length_positive(m as int / 16);
    }
    if m == 0 {
        0
    } else if m == 1 {
        1
    } else if m <= 3 {
        2
    } else if m <= 7 {
        3
    } else {
        4
    }
}

proof fn lemma_bit_length_positive(n: int)
    ensures
        bit_length(n) >= 0,
    decreases n,
{
    if n > 0 {
        lemma_bit_length_positive(n / 2);
    }
}

/// The size of the texture a clip gets.
pub open spec fn texture_size(dims: (u32, u32)) -> (u32, u32) {
    (if dims.0 < 2 { 2 } else { dims.0 }, if dims.1 < 2 { 2 } else { dims.1 })
}

/// The sizes of the textures of a set of clips. With no clip there is still
/// one tiny texture, so that a pair can be bound.
pub open spec fn sizes_for(dims: Seq<(u32, u32)>) -> Seq<(u32, u32)> {
    if dims.len() == 0 {
        seq![(2u32, 2u32)]
    } else {
        Seq::new(dims.len(), |i: int| texture_size(dims[i]))
    }
}

/// `sizes_for`.
pub fn texture_sizes(dims: &Vec<(u32, u32)>) -> (r: Vec<(u32, u32)>)
    ensures
        r@ == sizes_for(dims@),
        r@.len() >= 1,
{
    let mut out: Vec<(u32, u32)> = Vec::new();
    if dims.len() == 0 {
        out.push((2, 2));
        assert(out@ =~= sizes_for(dims@));
        return out;
    }
    let mut i: usize = 0;
    while i < dims.len()
        invariant
            i <= dims@.len(),
            out@ == Seq::new(i as nat, |k: int| texture_size(dims@[k])),
        decreases dims@.len() - i,
    {
        let d = dims[i];
        let w: u32 = if d.0 < 2 { 2 } else { d.0 };
        let h: u32 = if d.1 < 2 { 2 } else { d.1 };
        out.push((w, h));
        i = i + 1;
        assert(out@ =~= Seq::new(i as nat, |k: int| texture_size(dims@[k])));
    }
    out
}

/// Whether slot `i` keeps its texture when the sizes change.
pub open spec fn keeps(before: Seq<(u32, u32)>, after: Seq<(u32, u32)>, i: int) -> bool {
    i < before.len() && before[i] == after[i]
}

/// What a change of clips does to the textures.
pub struct TexturePlan {
    /// For each slot, whether its texture stays.
    pub keep: Vec<bool>,
    /// Whether anything that holds views into the textures goes.
    pub rebind: bool,
}

/// Compares the textures there are with the textures that are wanted.
pub fn plan_textures(before: &Vec<(u32, u32)>, after: &Vec<(u32, u32)>) -> (r: TexturePlan)
    ensures
        r.keep@.len() == after@.len(),
        forall|i: int|
            0 <= i < after@.len() ==> #[trigger] r.keep@[i] == keeps(before@, after@, i),
        r.rebind == (before@ != after@),
{
    let mut keep: Vec<bool> = Vec::new();
    let mut rebind = before.len() != after.len();
    let mut i: usize = 0;
    while i < after.len()
        invariant
            i <= after@.len(),
            keep@.len() == i,
            forall|k: int| 0 <= k < i ==> #[trigger] keep@[k] == keeps(before@, after@, k),
            rebind == (before@.len() != after@.len() || exists|k: int|
                0 <= k < i && !keeps(before@, after@, k)),
        decreases after@.len() - i,
    {
        let same = i < before.len() && before[i].0 == after[i].0 && before[i].1 == after[i].1;
        assert(same == keeps(before@, after@, i as int));
        keep.push(same);
        if !same {
            rebind = true;
        }
        i = i + 1;
    }
    proof {
        if !rebind {
            assert forall|k: int| 0 <= k < after@.len() implies before@[k] == after@[k] by {
                assert(keeps(before@, after@, k));
            }
            assert(before@ =~= after@);
        } else if before@ == after@ {
            let k = choose|k: int| 0 <= k < after@.len() && !keeps(before@, after@, k);
            assert(keeps(before@, after@, k));
        }
    }
    TexturePlan { keep, rebind }
}

/// A set that only grows keeps every texture it had: what is on screen does
/// not go blank when a clip joins.
pub proof fn an_append_keeps_every_texture(dims: Seq<(u32, u32)>, more: Seq<(u32, u32)>, i: int)
    requires
        0 <= i < dims.len(),
    ensures
        keeps(sizes_for(dims), sizes_for(dims + more), i),
{
    assert((dims + more)[i] == dims[i]);
}

/// Whether a frame fits the texture it is meant for.
pub open spec fn fits_texture(up: UploadState, sizes: Seq<(u32, u32)>) -> bool {
    &&& up.idx < sizes.len()
    &&& sizes[up.idx as int] == (up.w, up.h)
    &&& up.buf.len() == up.w * up.h * 4
}

/// `fits_texture`. A frame that does not fit is not uploaded.
pub fn takes_upload(up: &Upload, sizes: &Vec<(u32, u32)>) -> (r: bool)
    ensures
        r == fits_texture(up@, sizes@),
{
    if up.idx >= sizes.len() {
        return false;
    }
    let size = sizes[up.idx];
    if size.0 != up.w || size.1 != up.h {
        return false;
    }
    assert(up.w * up.h <= 0xffff_ffff * 0xffff_ffff) by (nonlinear_arith)
        requires
            0 <= up.w <= 0xffff_ffff,
            0 <= up.h <= 0xffff_ffff,
    ;
    up.buf.len() as u128 == up.w as u128 * up.h as u128 * 4
}

/// The mask a texture holds: whose, at which state, and its size.
#[derive(Debug, Clone, Copy, PartialEq, Eq, Structural)]
pub struct MaskStamp {
    pub id: u64,
    pub revision: u64,
    pub width: u32,
    pub height: u32,
}

/// What has to happen to the mask's texture before it is drawn.
#[derive(Debug, Clone, Copy, PartialEq, Eq, Structural)]
pub enum MaskPlan {
    /// It already shows the mask.
    Keep,
    /// Its pixels are out of date.
    Refresh,
    /// It has the wrong size, or there is none.
    Rebuild,
}

/// What has to happen to the texture that holds `held` for it to show `wanted`.
pub open spec fn plan_for(held: Option<MaskStamp>, wanted: MaskStamp) -> MaskPlan {
    match held {
        Some(h) => if h == wanted {
            MaskPlan::Keep
        } else if h.width == wanted.width && h.height == wanted.height {
            MaskPlan::Refresh
        } else {
            MaskPlan::Rebuild
        },
        None => MaskPlan::Rebuild,
    }
}

/// A mask's texture is kept only where it shows that very mask as it is: a
/// stroke, another mask or another size is sent anew, and a texture of another
/// size is not reused.
pub proof fn a_stale_mask_is_sent_again(held: Option<MaskStamp>, wanted: MaskStamp)
    ensures
        plan_for(held, wanted) == MaskPlan::Keep <==> held == Some(wanted),
        held is None ==> plan_for(held, wanted) == MaskPlan::Rebuild,
        held matches Some(h) ==> {
            &&& h.id != wanted.id || h.revision != wanted.revision ==> plan_for(held, wanted)
                != MaskPlan::Keep
            &&& h.width != wanted.width || h.height != wanted.height ==> plan_for(held, wanted)
                == MaskPlan::Rebuild
            &&& h.width == wanted.width && h.height == wanted.height ==> plan_for(held, wanted)
                != MaskPlan::Rebuild
        },
{
}

/// What to do about the texture that holds `held` when `wanted` is drawn.
pub fn plan_mask(held: Option<MaskStamp>, wanted: MaskStamp) -> (r: MaskPlan)
    ensures
        r == match held {
            Some(h) => if h.width != wanted.width || h.height != wanted.height {
                MaskPlan::Rebuild
            } else if h == wanted {
                MaskPlan::Keep
            } else {
                MaskPlan::Refresh
            },
            None => MaskPlan::Rebuild,
        },
        r == plan_for(held, wanted),
{
    match held {
        Some(h) => {
            if h.width != wanted.width || h.height != wanted.height {
                MaskPlan::Rebuild
            } else if h.id == wanted.id && h.revision == wanted.revision {
                MaskPlan::Keep
            } else {
                MaskPlan::Refresh
            }
        },
        None => MaskPlan::Rebuild,
    }
}

/// The smallest power of two that is no less than `n`.
pub open spec fn is_next_power(r: int, n: int) -> bool {
    &&& exists|k: nat| r == #[trigger] pow2(k)
    &&& n <= r
    &&& r == 1 || r < 2 * n
}

/// How many quads the instance buffer should hold to take `n`: a buffer that
/// is too small is replaced by one of the next power of two.
pub fn grown_capacity(capacity: usize, n: usize) -> (r: usize)
    requires
        n <= usize::MAX / 2 + 1,
    ensures
        n <= capacity ==> r == capacity,
        n > capacity ==> is_next_power(r as int, n as int),
        n <= r,
{
    if n <= capacity {
        return capacity;
    }
    let mut c: usize = 1;
    let ghost mut k: nat = 0;
    proof {
        vstd::arithmetic::power2::lemma2_to64();
    }
    while c < n
        invariant
            n <= usize::MAX / 2 + 1,
            c == pow2(k),
            1 <= c,
            c == 1 || c < 2 * n,
        decreases 2 * n - c,
    {
        proof {
            vstd::arithmetic::power2::lemma_pow2_unfold((k + 1) as nat);
            k = (k + 1) as nat;
        }
        c = c * 2;
    }
    c
}

/// The size to give the surface; a window without an extent has none, and
/// the surface stays as it is.
pub fn surface_size(width: u32, height: u32) -> (r: Option<(u32, u32)>)
    ensures
        r == (if width == 0 || height == 0 { None } else { Some((width, height)) }),
{
    if width == 0 || height == 0 {
        None
    } else {
        Some((width, height))
    }
}

/// How a surface composes with what lies behind the window.
#[derive(Debug, Clone, Copy, PartialEq, Eq, Structural)]
pub enum AlphaMode {
    Premultiplied,
    Postmultiplied,
    Opaque,
    Other,
}

/// How much a mode is wanted.
pub open spec fn rank(mode: AlphaMode) -> int {
    match mode {
        AlphaMode::Premultiplied => 3,
        AlphaMode::Postmultiplied => 2,
        AlphaMode::Opaque => 1,
        AlphaMode::Other => 0,
    }
}

fn rank_of(mode: AlphaMode) -> (r: u8)
    ensures
        r == rank(mode),
{
    match mode {
        AlphaMode::Premultiplied => 3,
        AlphaMode::Postmultiplied => 2,
        AlphaMode::Opaque => 1,
        AlphaMode::Other => 0,
    }
}

/// Picks the alpha mode a surface is configured with: premultiplied, else
/// post-multiplied, else opaque, else whatever comes first.
pub fn pick_alpha(modes: &Vec<AlphaMode>) -> (r: Option<usize>)
    ensures
        r is None <==> modes@.len() == 0,
        r matches Some(i) ==> {
            &&& i < modes@.len()
            &&& forall|k: int|
                0 <= k < modes@.len() ==> rank(#[trigger] modes@[k]) <= rank(modes@[i as int])
            &&& forall|k: int| 0 <= k < i ==> rank(#[trigger] modes@[k]) < rank(modes@[i as int])
        },
{
    if modes.len() == 0 {
        return None;
    }
    let mut best: usize = 0;
    let mut i: usize = 1;
    while i < modes.len()
        invariant
            best < i <= modes@.len(),
            forall|k: int|
                0 <= k < i ==> rank(#[trigger] modes@[k]) <= rank(modes@[best as int]),
            forall|k: int|
                0 <= k < best ==> rank(#[trigger] modes@[k]) < rank(modes@[best as int]),
        decreases modes@.len() - i,
    {
        if rank_of(modes[i]) > rank_of(modes[best]) {
            best = i;
        }
        i = i + 1;
    }
    Some(best)
}

/// Picks the surface's format, given which of those on offer are sRGB: the
/// first that is, else the first.
pub fn pick_surface_format(srgb: &Vec<bool>) -> (r: usize)
    ensures
        forall|k: int| 0 <= k < r && k < srgb@.len() ==> !#[trigger] srgb@[k],
        r < srgb@.len() && srgb@[r as int] || r == 0 && forall|k: int|
            0 <= k < srgb@.len() ==> !#[trigger] srgb@[k],
{
    let mut i: usize = 0;
    while i < srgb.len()
        invariant
            i <= srgb@.len(),
            forall|k: int| 0 <= k < i ==> !#[trigger] srgb@[k],
        decreases srgb@.len() - i,
    {
        if srgb[i] {
            return i;
        }
        i = i + 1;
    }
    0
}

/// How large a texture to ask for, of an adapter that can make them so
/// large.
pub fn texture_limit(adapter: u32) -> (r: u32)
    ensures
        r == crate::units::held(adapter as int, 8_192, 16_384),
{
    if adapter < 8_192 {
        8_192
    } else if adapter > 16_384 {
        16_384
    } else {
        adapter
    }
}

/// A slot keeps its texture where it had one of that very size, and nowhere
/// else; without clips there is one small texture to bind.
pub proof fn a_texture_is_kept_for_its_size(
    before: Seq<(u32, u32)>,
    after: Seq<(u32, u32)>,
    i: int,
)
    requires
        0 <= i < after.len(),
    ensures
        i < before.len() && before[i].0 == after[i].0 && before[i].1 == after[i].1 <==> keeps(
            before,
            after,
            i,
        ),
        sizes_for(Seq::<(u32, u32)>::empty()) == seq![(2u32, 2u32)],
{
}

} // verus!
