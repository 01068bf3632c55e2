//! What a frame is made of: the draw list the application hands to the
//! renderer, in logical pixels, back to front.

use crate::units::ONE;
use vstd::prelude::*;

verus! {

/// A colour with straight alpha, each channel a ratio. The channels are
/// authored in sRGB.
#[derive(Debug, Clone, Copy, PartialEq, Eq, Structural)]
pub struct Rgba {
    pub r: i64,
    pub g: i64,
    pub b: i64,
    pub a: i64,
}

impl Rgba {
    /// Nothing to see.
    #[verifier::allow_in_spec]
    pub fn clear() -> Rgba
        returns
            (Rgba { r: 0, g: 0, b: 0, a: 0 }),
    {
        Rgba { r: 0, g: 0, b: 0, a: 0 }
    }
}

/// A rectangle: its top-left corner and its size.
#[derive(Debug, Clone, Copy, PartialEq, Eq, Structural)]
pub struct RectPx {
    pub x: i64,
    pub y: i64,
    pub w: i64,
    pub h: i64,
}

/// The part of a texture to show, as ratios of its size.
#[derive(Debug, Clone, Copy, PartialEq, Eq, Structural)]
pub struct Uv {
    pub u0: i64,
    pub v0: i64,
    pub u1: i64,
    pub v1: i64,
}

impl Uv {
    /// The whole texture.
    #[verifier::allow_in_spec]
    pub fn full() -> Uv
        returns
            (Uv { u0: 0, v0: 0, u1: ONE, v1: ONE }),
    {
        Uv { u0: 0, v0: 0, u1: ONE, v1: ONE }
    }
}

/// How a pair of pictures is shown.
#[derive(Debug, Clone, Copy, PartialEq, Eq, Structural)]
pub enum VideoMode {
    Tex,
    Delta,
    Split,
    Checker,
    Blend,
}

impl VideoMode {
    /// The number the shader knows the mode by.
    pub open spec fn number(self) -> int {
        match self {
            VideoMode::Tex => 1,
            VideoMode::Delta => 2,
            VideoMode::Split => 3,
            VideoMode::Checker => 4,
            VideoMode::Blend => 5,
        }
    }

    pub fn code(self) -> (r: u8)
        ensures
            r == self.number(),
    {
        match self {
            VideoMode::Tex => 1,
            VideoMode::Delta => 2,
            VideoMode::Split => 3,
            VideoMode::Checker => 4,
            VideoMode::Blend => 5,
        }
    }
}

/// One decoded frame to upload into video texture `idx` this frame.
pub struct Upload {
    pub idx: usize,
    pub w: u32,
    pub h: u32,
    pub buf: Vec<u8>,
}

/// An upload's content.
pub struct UploadState {
    pub idx: usize,
    pub w: u32,
    pub h: u32,
    pub buf: Seq<u8>,
}

impl View for Upload {
    type V = UploadState;

    open spec fn view(&self) -> UploadState {
        UploadState { idx: self.idx, w: self.w, h: self.h, buf: self.buf@ }
    }
}

/// A filled rect: optionally rounded, optionally outlined, optionally faded
/// out toward its top edge (the transport scrim).
#[derive(Debug, Clone, Copy, PartialEq, Eq, Structural)]
pub struct RectItem {
    pub r: RectPx,
    pub color: Rgba,
    pub radius: i64,
    pub border_w: i64,
    pub border_color: Rgba,
    /// Alpha ramps to zero at the top edge: a bottom-anchored gradient.
    pub fade_up: bool,
}

/// A plain filled rect.
pub open spec fn plain(r: RectPx, color: Rgba) -> RectItem {
    RectItem { r, color, radius: 0, border_w: 0, border_color: Rgba::clear(), fade_up: false }
}

impl RectItem {
    pub fn new(r: RectPx, color: Rgba) -> (s: RectItem)
        ensures
            s == plain(r, color),
    {
        RectItem { r, color, radius: 0, border_w: 0, border_color: Rgba::clear(), fade_up: false }
    }
}

impl Default for RectItem {
    fn default() -> (s: RectItem)
        ensures
            s == plain(RectPx { x: 0, y: 0, w: 0, h: 0 }, Rgba::clear()),
    {
        RectItem::new(RectPx { x: 0, y: 0, w: 0, h: 0 }, Rgba::clear())
    }
}

/// Which edge of a run sits at its anchor.
#[derive(Debug, Clone, Copy, PartialEq, Eq, Structural)]
pub enum Align {
    Left,
    Center,
    Right,
}

#[derive(Debug, Clone, Copy, PartialEq, Eq, Structural)]
pub enum VAlign {
    /// `y` is the top of the line box.
    Top,
    /// `y` is the line box's vertical centre.
    Middle,
}

/// Chip drawn behind a text run, sized from the run's measured width.
#[derive(Debug, Clone, Copy, PartialEq, Eq, Structural)]
pub struct TextBg {
    pub color: Rgba,
    pub radius: i64,
    pub pad_x: i64,
    pub pad_y: i64,
    /// Solid offset shadow beneath the chip (keycap depth); alpha 0 is none.
    pub shadow: Rgba,
    pub shadow_dy: i64,
}

impl TextBg {
    pub fn new(color: Rgba) -> (s: TextBg)
        ensures
            s == (TextBg {
                color,
                radius: 0,
                pad_x: 600_000,
                pad_y: 300_000,
                shadow: Rgba::clear(),
                shadow_dy: 0,
            }),
    {
        TextBg { color, radius: 0, pad_x: 600_000, pad_y: 300_000, shadow: Rgba::clear(), shadow_dy: 0 }
    }
}

pub struct TextItem {
    /// Anchor point; `align` decides which edge of the run sits here.
    pub x: i64,
    pub y: i64,
    /// Logical px size.
    pub px: i64,
    pub color: Rgba,
    pub text: String,
    pub align: Align,
    pub valign: VAlign,
    /// Extra advance per glyph (letter-spacing).
    pub tracking: i64,
    pub bg: Option<TextBg>,
}

/// A text item's content.
pub struct TextState {
    pub x: int,
    pub y: int,
    pub px: int,
    pub color: Rgba,
    pub text: Seq<char>,
    pub align: Align,
    pub valign: VAlign,
    pub tracking: int,
    pub bg: Option<TextBg>,
}

/// A run hanging from its top-left corner.
pub open spec fn label(x: int, y: int, px: int, color: Rgba, text: Seq<char>) -> TextState {
    TextState {
        x,
        y,
        px,
        color,
        text,
        align: Align::Left,
        valign: VAlign::Top,
        tracking: 0,
        bg: None,
    }
}

impl View for TextItem {
    type V = TextState;

    open spec fn view(&self) -> TextState {
        TextState {
            x: self.x as int,
            y: self.y as int,
            px: self.px as int,
            color: self.color,
            text: self.text@,
            align: self.align,
            valign: self.valign,
            tracking: self.tracking as int,
            bg: self.bg,
        }
    }
}

impl TextItem {
    pub fn new(x: i64, y: i64, px: i64, color: Rgba, text: String) -> (s: TextItem)
        ensures
            s@ == label(x as int, y as int, px as int, color, text@),
    {
        TextItem {
            x,
            y,
            px,
            color,
            text,
            align: Align::Left,
            valign: VAlign::Top,
            tracking: 0,
            bg: None,
        }
    }
}

pub enum Item {
    Rect(RectItem),
    /// The pictures `a` and `b`, compared.
    Video { a: usize, b: usize, r: RectPx, uv: Uv, mode: VideoMode, p0: i64, p1: i64 },
    Text(TextItem),
    /// The mask of clip `slot`, tinted.
    Mask { r: RectPx, slot: usize, id: u64, revision: u64, width: u32, height: u32 },
    Triangle { r: RectPx, color: Rgba, left: bool, radius: i64 },
    /// The wordmark.
    Logo { r: RectPx, alpha: i64 },
}

/// An item's content.
pub enum ItemState {
    Rect(RectItem),
    Video { a: usize, b: usize, r: RectPx, uv: Uv, mode: VideoMode, p0: i64, p1: i64 },
    Text(TextState),
    Mask { r: RectPx, slot: usize, id: u64, revision: u64, width: u32, height: u32 },
    Triangle { r: RectPx, color: Rgba, left: bool, radius: i64 },
    Logo { r: RectPx, alpha: i64 },
}

impl View for Item {
    type V = ItemState;

    open spec fn view(&self) -> ItemState {
        match *self {
            Item::Rect(ri) => ItemState::Rect(ri),
            Item::Video { a, b, r, uv, mode, p0, p1 } => ItemState::Video {
                a,
                b,
                r,
                uv,
                mode,
                p0,
                p1,
            },
            Item::Text(t) => ItemState::Text(t@),
            Item::Mask { r, slot, id, revision, width, height } => ItemState::Mask {
                r,
                slot,
                id,
                revision,
                width,
                height,
            },
            Item::Triangle { r, color, left, radius } => ItemState::Triangle {
                r,
                color,
                left,
                radius,
            },
            Item::Logo { r, alpha } => ItemState::Logo { r, alpha },
        }
    }
}

/// The content of a draw list.
pub open spec fn drawn(items: Seq<Item>) -> Seq<ItemState> {
    Seq::new(items.len(), |i: int| items[i]@)
}

/// The content of a list of uploads.
pub open spec fn sent(uploads: Seq<Upload>) -> Seq<UploadState> {
    Seq::new(uploads.len(), |i: int| uploads[i]@)
}

/// Adds an item on top of what is drawn.
pub fn draw(items: &mut Vec<Item>, item: Item)
    ensures
        drawn(final(items)@) == drawn(old(items)@).push(item@),
{
    let ghost before = items@;
    items.push(item);
    assert(drawn(items@) =~= drawn(before).push(item@));
}

/// Everything the renderer needs for one frame.
pub struct FrameDesc {
    pub clear: Rgba,
    pub uploads: Vec<Upload>,
    pub items: Vec<Item>,
    pub animating: bool,
    /// How long the loop may idle before the next frame; `None` where
    /// nothing but an event calls for one.
    pub redraw_after: Option<i64>,
}

/// A frame's content.
pub struct FrameDescState {
    pub clear: Rgba,
    pub uploads: Seq<UploadState>,
    pub items: Seq<ItemState>,
    pub animating: bool,
    pub redraw_after: Option<i64>,
}

impl View for FrameDesc {
    type V = FrameDescState;

    open spec fn view(&self) -> FrameDescState {
        FrameDescState {
            clear: self.clear,
            uploads: sent(self.uploads@),
            items: drawn(self.items@),
            animating: self.animating,
            redraw_after: self.redraw_after,
        }
    }
}

} // verus!
