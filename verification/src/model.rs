//! The colour models whose gamut limits are tabulated.

use crate::binary32::{
    encodes_halves, lemma_encoding_of_full_turn, lemma_encoding_of_one,
    lemma_encoding_of_one_and_a_half, lemma_encoding_of_zero,
};
use vstd::prelude::*;

verus! {

/// A colour model with three channels.
#[derive(Clone, Copy, Debug, PartialEq, Eq, Structural)]
pub enum ColorModel {
    Xyz,
    Lab,
    Lch,
    Oklab,
    Oklch,
}

/// The interval of a channel's native values, each end the bit pattern of a binary32 number.
/// A normalized value `v` of the channel stands for `min * (1 - v) + max * v`.
#[derive(Clone, Copy, Debug, PartialEq, Eq, Structural)]
pub struct ChannelRange {
    pub min: u32,
    pub max: u32,
}

/// The number of colour models.
pub const MODEL_COUNT: usize = 5;

impl ColorModel {
    /// The place of the model in the order in which the tables follow one another.
    pub open spec fn ordinal(self) -> int {
        match self {
            ColorModel::Xyz => 0,
            ColorModel::Lab => 1,
            ColorModel::Lch => 2,
            ColorModel::Oklab => 3,
            ColorModel::Oklch => 4,
        }
    }

    /// The model at place `k` of that order.
    pub open spec fn nth(k: int) -> ColorModel {
        if k == 0 {
            ColorModel::Xyz
        } else if k == 1 {
            ColorModel::Lab
        } else if k == 2 {
            ColorModel::Lch
        } else if k == 3 {
            ColorModel::Oklab
        } else {
            ColorModel::Oklch
        }
    }

    /// The name under which the model is announced.
    pub open spec fn name(self) -> Seq<char> {
        match self {
            ColorModel::Xyz => "XYZ"@,
            ColorModel::Lab => "LAB"@,
            ColorModel::Lch => "LCH"@,
            ColorModel::Oklab => "OkLab"@,
            ColorModel::Oklch => "OkLch"@,
        }
    }

    /// The ends of the native interval of `channel`, in halves: `(-3, 3)` is the interval from
    /// -1.5 to 1.5. A hue runs over the 360 degrees of a full turn.
    pub open spec fn domain(self, channel: int) -> (int, int) {
        match self {
            ColorModel::Xyz => (0, 2),
            ColorModel::Lab => if channel == 0 {
                (0, 3)
            } else {
                (-3, 3)
            },
            ColorModel::Lch => if channel == 2 {
                (0, 720)
            } else {
                (0, 3)
            },
            ColorModel::Oklab => if channel == 0 {
                (0, 2)
            } else {
                (-2, 2)
            },
            ColorModel::Oklch => if channel == 2 {
                (0, 720)
            } else {
                (0, 2)
            },
        }
    }

    /// Whether the lightness of the model passes through the remapping hook before conversion.
    pub open spec fn remapped(self) -> bool {
        self == ColorModel::Oklab || self == ColorModel::Oklch
    }

    /// All models, in the order in which their tables follow one another.
    pub fn all() -> (models: [ColorModel; 5])
        ensures
            forall|k: int| 0 <= k < 5 ==> #[trigger] models[k] == Self::nth(k),
    {
        [ColorModel::Xyz, ColorModel::Lab, ColorModel::Lch, ColorModel::Oklab, ColorModel::Oklch]
    }

    /// The place of the model in the order of [`ColorModel::all`].
    pub fn position(&self) -> (k: usize)
        ensures
            k == self.ordinal(),
            k < MODEL_COUNT,
            Self::nth(k as int) == *self,
    {
        match self {
            ColorModel::Xyz => 0,
            ColorModel::Lab => 1,
            ColorModel::Lch => 2,
            ColorModel::Oklab => 3,
            ColorModel::Oklch => 4,
        }
    }

    /// The name under which the model is announced.
    pub fn label(&self) -> (name: &'static str)
        ensures
            name@ == self.name(),
    {
        match self {
            ColorModel::Xyz => "XYZ",
            ColorModel::Lab => "LAB",
            ColorModel::Lch => "LCH",
            ColorModel::Oklab => "OkLab",
            ColorModel::Oklch => "OkLch",
        }
    }

    /// The native intervals of the three channels.
    pub fn ranges(&self) -> (ranges: [ChannelRange; 3])
        ensures
            forall|channel: int|
                #![trigger ranges[channel]]
                0 <= channel < 3 ==> {
                    &&& encodes_halves(ranges[channel].min, self.domain(channel).0)
                    &&& encodes_halves(ranges[channel].max, self.domain(channel).1)
                },
    {
        proof {
            lemma_encoding_of_zero();
            lemma_encoding_of_one();
            lemma_encoding_of_one_and_a_half();
            lemma_encoding_of_full_turn();
        }
        let zero: u32 = 0x0000_0000;
        let one: u32 = 0x3F80_0000;
        let minus_one: u32 = 0xBF80_0000;
        let one_and_a_half: u32 = 0x3FC0_0000;
        let minus_one_and_a_half: u32 = 0xBFC0_0000;
        let full_turn: u32 = 0x43B4_0000;
        match self {
            ColorModel::Xyz => [
                ChannelRange { min: zero, max: one },
                ChannelRange { min: zero, max: one },
                ChannelRange { min: zero, max: one },
            ],
            ColorModel::Lab => [
                ChannelRange { min: zero, max: one_and_a_half },
                ChannelRange { min: minus_one_and_a_half, max: one_and_a_half },
                ChannelRange { min: minus_one_and_a_half, max: one_and_a_half },
            ],
            ColorModel::Lch => [
                ChannelRange { min: zero, max: one_and_a_half },
                ChannelRange { min: zero, max: one_and_a_half },
                ChannelRange { min: zero, max: full_turn },
            ],
            ColorModel::Oklab => [
                ChannelRange { min: zero, max: one },
                ChannelRange { min: minus_one, max: one },
                ChannelRange { min: minus_one, max: one },
            ],
            ColorModel::Oklch => [
                ChannelRange { min: zero, max: one },
                ChannelRange { min: zero, max: one },
                ChannelRange { min: zero, max: full_turn },
            ],
        }
    }

    /// Whether the lightness of the model passes through the remapping hook before conversion.
    pub fn uses_remap(&self) -> (hooked: bool)
        ensures
            hooked == self.remapped(),
    {
        match self {
            ColorModel::Oklab | ColorModel::Oklch => true,
            _ => false,
        }
    }
}

} // verus!
