//! How much alarm a used share calls for.

use crate::grid::{grid, lemma_grid_compose, lemma_grid_monotone};
use crate::number::Single;
use vstd::arithmetic::power2::{
    lemma2_to64, lemma_pow2_adds, lemma_pow2_pos, lemma_pow2_unfold, pow2,
};
use vstd::prelude::*;

verus! {

/// The colors of a theme that a used share is shown in, from calm to alarm.
#[derive(Clone, Copy, PartialEq, Eq, Structural, Debug)]
pub enum StatusColor {
    Success,
    Warning,
    Modified,
    Error,
}

impl StatusColor {
    /// The place of the color in the order from calm to alarm.
    pub open spec fn severity(self) -> int {
        match self {
            StatusColor::Success => 0,
            StatusColor::Warning => 1,
            StatusColor::Modified => 2,
            StatusColor::Error => 3,
        }
    }
}

/// A quarter, as a multiple of the smallest single precision number.
pub open spec fn quarter() -> int {
    pow2(147) as int
}

/// The color by the quarter that the share lies in. Below zero counts as zero, above one as
/// one, and a share that is not a number is shown in the color of alarm.
pub open spec fn spec_usage_color(used_ratio: Single) -> StatusColor {
    if used_ratio.is_nan() {
        StatusColor::Error
    } else if used_ratio.value() < quarter() {
        StatusColor::Success
    } else if used_ratio.value() < 2 * quarter() {
        StatusColor::Warning
    } else if used_ratio.value() < 3 * quarter() {
        StatusColor::Modified
    } else {
        StatusColor::Error
    }
}

/// The three inner quarters of the way from 0 to 1, and 1 itself.
proof fn lemma_quarters()
    ensures
        (Single { bits: 0x3E80_0000 }).value() == quarter(),
        (Single { bits: 0x3F00_0000 }).value() == 2 * quarter(),
        (Single { bits: 0x3F40_0000 }).value() == 3 * quarter(),
        !(Single { bits: 0x3E80_0000 }).is_nan(),
        !(Single { bits: 0x3F00_0000 }).is_nan(),
        !(Single { bits: 0x3F40_0000 }).is_nan(),
{
    lemma2_to64();
    lemma_grid_compose(23, 124, 0x80_0000);
    lemma_grid_compose(23, 125, 0x80_0000);
    lemma_grid_compose(23, 125, 0xC0_0000);
    lemma_pow2_adds(23, 124);
    lemma_pow2_adds(23, 125);
    lemma_pow2_unfold(125);
    assert(125 * pow2(23) + 0xC0_0000 == 0x3F40_0000);
    let p = pow2(124);
    assert(pow2(147) == 0x80_0000 * p);
    assert(pow2(125) == 2 * p);
    assert(0xC0_0000 * pow2(125) == 3 * (0x80_0000 * p));
}

/// The color that a used share is shown in.
pub fn usage_color(used_ratio: Single) -> (color: StatusColor)
    ensures
        color == spec_usage_color(used_ratio),
{
    proof {
        lemma_quarters();
    }
    if used_ratio.less(Single { bits: 0x3E80_0000 }) {
        StatusColor::Success
    } else if used_ratio.less(Single { bits: 0x3F00_0000 }) {
        StatusColor::Warning
    } else if used_ratio.less(Single { bits: 0x3F40_0000 }) {
        StatusColor::Modified
    } else {
        StatusColor::Error
    }
}

/// The color never grows calmer as the share grows.
pub proof fn usage_color_escalates(a: Single, b: Single)
    requires
        !a.is_nan(),
        !b.is_nan(),
        a.value() <= b.value(),
    ensures
        spec_usage_color(a).severity() <= spec_usage_color(b).severity(),
{
    lemma_pow2_pos(147);
}

/// Of two shares that are shown, the larger one is never shown in a calmer color.
pub proof fn shown_colors_escalate(a: Single, b: Single, color_a: StatusColor, color_b: StatusColor)
    requires
        !a.is_nan(),
        !b.is_nan(),
        a.value() <= b.value(),
        call_ensures(usage_color, (a,), color_a),
        call_ensures(usage_color, (b,), color_b),
    ensures
        color_a.severity() <= color_b.severity(),
{
    usage_color_escalates(a, b);
}

/// What is not a number is shown in the color of alarm.
pub proof fn unknown_shares_alarm(used_ratio: Single)
    requires
        used_ratio.is_nan(),
    ensures
        spec_usage_color(used_ratio) == StatusColor::Error,
{
}

/// The color read off the bit pattern: a share with a sign is calm, and the pattern of a
/// share without one grows with the share.
pub proof fn usage_color_by_pattern(used_ratio: Single)
    requires
        !used_ratio.is_nan(),
    ensures
        spec_usage_color(used_ratio) == (if used_ratio.bits >= 0x8000_0000 || used_ratio.bits
            < 0x3E80_0000 {
            StatusColor::Success
        } else if used_ratio.bits < 0x3F00_0000 {
            StatusColor::Warning
        } else if used_ratio.bits < 0x3F40_0000 {
            StatusColor::Modified
        } else {
            StatusColor::Error
        }),
{
    lemma_quarters();
    lemma_pow2_pos(147);
    let mag = used_ratio.float().mag as nat;
    lemma_order_from_pattern(mag, 0x3E80_0000);
    lemma_order_from_pattern(mag, 0x3F00_0000);
    lemma_order_from_pattern(mag, 0x3F40_0000);
}

proof fn lemma_order_from_pattern(a: nat, b: nat)
    ensures
        grid(23, a) < grid(23, b) <==> a < b,
{
    if a <= b {
        lemma_grid_monotone(23, a, b);
    } else {
        lemma_grid_monotone(23, b, a);
    }
}

} // verus!
