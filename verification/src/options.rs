//! The options of one tag: the primary ratio, the gap and the arrangement.

use vstd::prelude::*;

verus! {

/// The unit of a ratio: a ratio is held in millionths, so this is 1.0.
pub const RATIO_ONE: u32 = 1_000_000;

/// Smallest primary ratio, 0.1.
pub const RATIO_MIN: u32 = 100_000;

/// Largest primary ratio, 0.9.
pub const RATIO_MAX: u32 = 900_000;

/// Largest gap, in pixels.
pub const GAP_MAX: u32 = 100;

/// The arrangements a tag can use.
#[derive(Clone, Copy, Debug, PartialEq, Eq, Structural)]
pub enum Layout {
    /// A primary column beside a column of rows.
    Tile,
    /// A primary column beside a cascade.
    Stack,
    /// A cascade over the whole width.
    MonoStack,
}

/// `value` brought into `[low, high]`.
pub open spec fn clamp(value: int, low: int, high: int) -> int {
    if value < low {
        low
    } else if value > high {
        high
    } else {
        value
    }
}

/// A ratio in millionths brought into `[RATIO_MIN, RATIO_MAX]`.
pub open spec fn clamp_ratio(millionths: int) -> int {
    clamp(millionths, RATIO_MIN as int, RATIO_MAX as int)
}

/// A gap in pixels brought into `[0, GAP_MAX]`.
pub open spec fn clamp_gap(pixels: int) -> int {
    clamp(pixels, 0, GAP_MAX as int)
}

/// The options of one tag.
///
/// `primary_ratio` is the share of the width given to the primary window, in
/// millionths; `gap` is the spacing between windows, in pixels.
#[derive(Clone, Copy, Debug, PartialEq, Eq, Structural)]
pub struct LayoutOptions {
    pub primary_ratio: u32,
    pub gap: u32,
    pub layout: Layout,
}

impl LayoutOptions {
    /// Both numbers lie within their bounds.
    pub open spec fn wf(self) -> bool {
        &&& RATIO_MIN <= self.primary_ratio <= RATIO_MAX
        &&& self.gap <= GAP_MAX
    }

    /// Options with the given values, each number brought into its bounds.
    pub fn new(primary_ratio: u32, gap: u32, layout: Layout) -> (options: LayoutOptions)
        ensures
            options.primary_ratio == clamp_ratio(primary_ratio as int),
            options.gap == clamp_gap(gap as int),
            options.layout == layout,
            options.wf(),
    {
        let ratio: u32 = if primary_ratio < RATIO_MIN {
            RATIO_MIN
        } else if primary_ratio > RATIO_MAX {
            RATIO_MAX
        } else {
            primary_ratio
        };
        let gap: u32 = if gap > GAP_MAX {
            GAP_MAX
        } else {
            gap
        };
        LayoutOptions { primary_ratio: ratio, gap, layout }
    }
}

impl Default for LayoutOptions {
    /// A primary ratio of 0.6, a gap of 4 pixels, tiled.
    fn default() -> (options: LayoutOptions)
        ensures
            options == (LayoutOptions { primary_ratio: 600_000, gap: 4, layout: Layout::Tile }),
            options.wf(),
    {
        LayoutOptions { primary_ratio: 600_000, gap: 4, layout: Layout::Tile }
    }
}

} // verus!
