//! The palette.

use crate::items::Rgba;
use crate::units::{scale, scaled, SCALE_LIMIT};
use vstd::prelude::*;

verus! {

/// The colours of the interface.
#[derive(Debug, Clone, Copy, PartialEq, Eq, Structural)]
pub enum Ink {
    /// Signal accent: the one hot colour of the design.
    Accent,
    /// Hairlines and pill outlines drawn in the accent, well under full.
    AccentEdge,
    /// Frame background; the alpha is the window's, so the desktop shows faintly
    /// through the letterbox.
    FrameBg,
    /// Ink on the accent.
    FrameInk,
    Text,
    TextOff,
    Detail,
    DimPath,
    DetailBg,
    Dim,
    Label,
    Inactive,
    SegOff,
    TimeOff,
    Glyph,
    Alarm,
    PillBg,
    RowBgOn,
    RowBgOff,
    RuleOff,
    Scrim,
    Track,
    Knob,
    /// Status line, tinted by mode: dark blue while comparing, dark red while
    /// painting.
    StatusBgAb,
    StatusBgMask,
    MaskRed,
    /// The hairline over the transport.
    TransportRule,
    /// Keycaps: surface, hairline, highlight, shadow and ink.
    KeySurface,
    KeyHairline,
    KeyHighlight,
    KeyShadow,
    KeyInk,
    LaunchBg,
    /// Drop shadows.
    Black,
    White,
}

impl Ink {
    /// The ink's colour.
    pub open spec fn shade(self) -> Rgba {
        match self {
            Ink::Accent => Rgba { r: 82_000_000, g: 502_000_000, b: 871_000_000, a: 1_000_000_000 },
            Ink::AccentEdge => Rgba { r: 82_000_000, g: 502_000_000, b: 871_000_000, a: 280_000_000 },
            Ink::FrameBg => Rgba { r: 19_600_000, g: 19_600_000, b: 23_500_000, a: 920_000_000 },
            Ink::FrameInk => Rgba { r: 19_600_000, g: 19_600_000, b: 23_500_000, a: 1_000_000_000 },
            Ink::Text => Rgba { r: 941_000_000, g: 941_000_000, b: 949_000_000, a: 1_000_000_000 },
            Ink::TextOff => Rgba { r: 784_000_000, g: 784_000_000, b: 824_000_000, a: 850_000_000 },
            Ink::Detail => Rgba { r: 824_000_000, g: 824_000_000, b: 863_000_000, a: 950_000_000 },
            Ink::DimPath => Rgba { r: 588_000_000, g: 588_000_000, b: 627_000_000, a: 750_000_000 },
            Ink::DetailBg => Rgba { r: 0, g: 0, b: 0, a: 820_000_000 },
            Ink::Dim => Rgba { r: 588_000_000, g: 588_000_000, b: 627_000_000, a: 900_000_000 },
            Ink::Label => Rgba { r: 784_000_000, g: 784_000_000, b: 804_000_000, a: 850_000_000 },
            Ink::Inactive => Rgba { r: 706_000_000, g: 706_000_000, b: 745_000_000, a: 900_000_000 },
            Ink::SegOff => Rgba { r: 902_000_000, g: 902_000_000, b: 922_000_000, a: 800_000_000 },
            Ink::TimeOff => Rgba { r: 471_000_000, g: 471_000_000, b: 510_000_000, a: 850_000_000 },
            Ink::Glyph => Rgba { r: 824_000_000, g: 824_000_000, b: 843_000_000, a: 850_000_000 },
            Ink::Alarm => Rgba { r: 1_000_000_000, g: 350_000_000, b: 300_000_000, a: 1_000_000_000 },
            Ink::PillBg => Rgba { r: 16_000_000, g: 16_000_000, b: 24_000_000, a: 620_000_000 },
            Ink::RowBgOn => Rgba { r: 0, g: 0, b: 0, a: 900_000_000 },
            Ink::RowBgOff => Rgba { r: 0, g: 0, b: 0, a: 820_000_000 },
            Ink::RuleOff => Rgba { r: 1_000_000_000, g: 1_000_000_000, b: 1_000_000_000, a: 140_000_000 },
            Ink::Scrim => Rgba { r: 16_000_000, g: 16_000_000, b: 24_000_000, a: 970_000_000 },
            Ink::Track => Rgba { r: 1_000_000_000, g: 1_000_000_000, b: 1_000_000_000, a: 140_000_000 },
            Ink::Knob => Rgba { r: 1_000_000_000, g: 1_000_000_000, b: 1_000_000_000, a: 1_000_000_000 },
            Ink::StatusBgAb => Rgba { r: 43_000_000, g: 114_000_000, b: 227_000_000, a: 930_000_000 },
            Ink::StatusBgMask => Rgba { r: 227_000_000, g: 43_000_000, b: 63_000_000, a: 930_000_000 },
            Ink::MaskRed => Rgba { r: 906_000_000, g: 106_000_000, b: 141_000_000, a: 1_000_000_000 },
            Ink::TransportRule => Rgba { r: 1_000_000_000, g: 1_000_000_000, b: 1_000_000_000, a: 70_000_000 },
            Ink::KeySurface => Rgba { r: 43_000_000, g: 51_000_000, b: 67_000_000, a: 1_000_000_000 },
            Ink::KeyHairline => Rgba { r: 1_000_000_000, g: 1_000_000_000, b: 1_000_000_000, a: 380_000_000 },
            Ink::KeyHighlight => Rgba { r: 1_000_000_000, g: 1_000_000_000, b: 1_000_000_000, a: 70_000_000 },
            Ink::KeyShadow => Rgba { r: 0, g: 0, b: 0, a: 550_000_000 },
            Ink::KeyInk => Rgba { r: 957_000_000, g: 961_000_000, b: 969_000_000, a: 900_000_000 },
            Ink::LaunchBg => Rgba { r: 27_000_000, g: 27_000_000, b: 35_000_000, a: 900_000_000 },
            Ink::Black => Rgba { r: 0, g: 0, b: 0, a: 1_000_000_000 },
            Ink::White => Rgba { r: 1_000_000_000, g: 1_000_000_000, b: 1_000_000_000, a: 1_000_000_000 },
        }
    }

    #[verifier::allow_in_spec]
    pub fn color(self) -> Rgba
        returns
            self.shade(),
    {
        match self {
            Ink::Accent => Rgba { r: 82_000_000, g: 502_000_000, b: 871_000_000, a: 1_000_000_000 },
            Ink::AccentEdge => Rgba { r: 82_000_000, g: 502_000_000, b: 871_000_000, a: 280_000_000 },
            Ink::FrameBg => Rgba { r: 19_600_000, g: 19_600_000, b: 23_500_000, a: 920_000_000 },
            Ink::FrameInk => Rgba { r: 19_600_000, g: 19_600_000, b: 23_500_000, a: 1_000_000_000 },
            Ink::Text => Rgba { r: 941_000_000, g: 941_000_000, b: 949_000_000, a: 1_000_000_000 },
            Ink::TextOff => Rgba { r: 784_000_000, g: 784_000_000, b: 824_000_000, a: 850_000_000 },
            Ink::Detail => Rgba { r: 824_000_000, g: 824_000_000, b: 863_000_000, a: 950_000_000 },
            Ink::DimPath => Rgba { r: 588_000_000, g: 588_000_000, b: 627_000_000, a: 750_000_000 },
            Ink::DetailBg => Rgba { r: 0, g: 0, b: 0, a: 820_000_000 },
            Ink::Dim => Rgba { r: 588_000_000, g: 588_000_000, b: 627_000_000, a: 900_000_000 },
            Ink::Label => Rgba { r: 784_000_000, g: 784_000_000, b: 804_000_000, a: 850_000_000 },
            Ink::Inactive => Rgba { r: 706_000_000, g: 706_000_000, b: 745_000_000, a: 900_000_000 },
            Ink::SegOff => Rgba { r: 902_000_000, g: 902_000_000, b: 922_000_000, a: 800_000_000 },
            Ink::TimeOff => Rgba { r: 471_000_000, g: 471_000_000, b: 510_000_000, a: 850_000_000 },
            Ink::Glyph => Rgba { r: 824_000_000, g: 824_000_000, b: 843_000_000, a: 850_000_000 },
            Ink::Alarm => Rgba { r: 1_000_000_000, g: 350_000_000, b: 300_000_000, a: 1_000_000_000 },
            Ink::PillBg => Rgba { r: 16_000_000, g: 16_000_000, b: 24_000_000, a: 620_000_000 },
            Ink::RowBgOn => Rgba { r: 0, g: 0, b: 0, a: 900_000_000 },
            Ink::RowBgOff => Rgba { r: 0, g: 0, b: 0, a: 820_000_000 },
            Ink::RuleOff => Rgba { r: 1_000_000_000, g: 1_000_000_000, b: 1_000_000_000, a: 140_000_000 },
            Ink::Scrim => Rgba { r: 16_000_000, g: 16_000_000, b: 24_000_000, a: 970_000_000 },
            Ink::Track => Rgba { r: 1_000_000_000, g: 1_000_000_000, b: 1_000_000_000, a: 140_000_000 },
            Ink::Knob => Rgba { r: 1_000_000_000, g: 1_000_000_000, b: 1_000_000_000, a: 1_000_000_000 },
            Ink::StatusBgAb => Rgba { r: 43_000_000, g: 114_000_000, b: 227_000_000, a: 930_000_000 },
            Ink::StatusBgMask => Rgba { r: 227_000_000, g: 43_000_000, b: 63_000_000, a: 930_000_000 },
            Ink::MaskRed => Rgba { r: 906_000_000, g: 106_000_000, b: 141_000_000, a: 1_000_000_000 },
            Ink::TransportRule => Rgba { r: 1_000_000_000, g: 1_000_000_000, b: 1_000_000_000, a: 70_000_000 },
            Ink::KeySurface => Rgba { r: 43_000_000, g: 51_000_000, b: 67_000_000, a: 1_000_000_000 },
            Ink::KeyHairline => Rgba { r: 1_000_000_000, g: 1_000_000_000, b: 1_000_000_000, a: 380_000_000 },
            Ink::KeyHighlight => Rgba { r: 1_000_000_000, g: 1_000_000_000, b: 1_000_000_000, a: 70_000_000 },
            Ink::KeyShadow => Rgba { r: 0, g: 0, b: 0, a: 550_000_000 },
            Ink::KeyInk => Rgba { r: 957_000_000, g: 961_000_000, b: 969_000_000, a: 900_000_000 },
            Ink::LaunchBg => Rgba { r: 27_000_000, g: 27_000_000, b: 35_000_000, a: 900_000_000 },
            Ink::Black => Rgba { r: 0, g: 0, b: 0, a: 1_000_000_000 },
            Ink::White => Rgba { r: 1_000_000_000, g: 1_000_000_000, b: 1_000_000_000, a: 1_000_000_000 },
        }
    }

    /// The ink with its opacity scaled by a ratio.
    pub open spec fn faded(self, alpha: int) -> Rgba {
        Rgba { a: scaled(self.shade().a as int, alpha) as i64, ..self.shade() }
    }

    pub fn fade(self, alpha: i64) -> (r: Rgba)
        requires
            -SCALE_LIMIT <= alpha <= SCALE_LIMIT,
        ensures
            r == self.faded(alpha as int),
    {
        let c = self.color();
        Rgba { a: scale(c.a, alpha), ..c }
    }
}

} // verus!
