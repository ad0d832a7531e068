//! Levels as the meter carries them: whole hundredths of a decibel relative
//! to full scale, and their place on a bar of fixed range.

use vstd::prelude::*;

verus! {

/// The level that stands for silence: below every level that a block with
/// any energy can have.
pub const SILENCE: i32 = -2147483648;

/// The level at and below which a bar is empty: sixty decibels under full scale.
pub const FLOOR: i32 = -6000;

/// The value of a full bar.
pub const BAR_MAX: u64 = 100;

/// The bar value of a level: empty at `FLOOR` and below, full at full scale
/// and above, and linear in the level between the two, rounded down.
pub open spec fn bar_of(level: i32) -> u64 {
    if level <= FLOOR {
        0
    } else if level >= 0 {
        BAR_MAX
    } else {
        ((level - FLOOR) * BAR_MAX / (0 - FLOOR)) as u64
    }
}

/// Scales a level into the range of a bar, `0..=BAR_MAX`.
pub fn bar_value(level: i32) -> (bar: u64)
    ensures
        bar == bar_of(level),
        bar <= BAR_MAX,
{
    if level <= FLOOR {
        0
    } else if level >= 0 {
        BAR_MAX
    } else {
        let above: u64 = (level - FLOOR) as u64;
        above * BAR_MAX / 6000
    }
}

/// The scaling never leaves the bar's range, is empty for silence and full
/// at full scale.
pub proof fn lemma_bar_saturates(level: i32)
    ensures
        bar_of(level) <= BAR_MAX,
        level <= FLOOR ==> bar_of(level) == 0,
        level >= 0 ==> bar_of(level) == BAR_MAX,
        bar_of(SILENCE) == 0,
{
}

/// A louder level never gets a shorter bar.
pub proof fn lemma_bar_monotonic(quieter: i32, louder: i32)
    requires
        quieter <= louder,
    ensures
        bar_of(quieter) <= bar_of(louder),
{
}

} // verus!
