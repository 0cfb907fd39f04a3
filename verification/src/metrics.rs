use vstd::prelude::*;
use crate::types::{HueGroup, Orientation};

verus! {

/// The hue band of a hue given in whole degrees (the hue rounded down,
/// taken in [0, 360]): warm below 70 and from 330 on, cool from 150 to
/// below 330, neutral from 70 to below 150.
pub open spec fn hue_group_of(degrees: int) -> HueGroup {
    if degrees < 70 || degrees >= 330 {
        HueGroup::Warm
    } else if degrees >= 150 {
        HueGroup::Cool
    } else {
        HueGroup::Neutral
    }
}

/// Classifies a hue, in whole degrees, into its band. The bounds of the
/// bands are whole degrees, so the whole part of a hue decides its band.
pub fn classify_hue_group(degrees: u32) -> (g: HueGroup)
    ensures
        g == hue_group_of(degrees as int),
        degrees <= 360 ==> (g == HueGroup::Cool <==> 150 <= degrees < 330),
        degrees <= 360 ==> (g == HueGroup::Neutral <==> 70 <= degrees < 150),
        degrees <= 360 ==> (g == HueGroup::Warm <==> degrees < 70 || 330 <= degrees),
{
    if !(70 <= degrees && degrees < 330) {
        HueGroup::Warm
    } else if 150 <= degrees && degrees < 330 {
        HueGroup::Cool
    } else {
        HueGroup::Neutral
    }
}

/// The orientation of an image of the given size.
pub open spec fn orientation_of(width: int, height: int) -> Orientation {
    if width > height {
        Orientation::Landscape
    } else if width < height {
        Orientation::Portrait
    } else {
        Orientation::Square
    }
}

/// Landscape when wider than tall, portrait when taller than wide, square
/// otherwise.
pub fn classify_orientation(width: u32, height: u32) -> (o: Orientation)
    ensures
        o == orientation_of(width as int, height as int),
        o == Orientation::Landscape <==> width > height,
        o == Orientation::Portrait <==> width < height,
        o == Orientation::Square <==> width == height,
{
    if width > height {
        Orientation::Landscape
    } else if width < height {
        Orientation::Portrait
    } else {
        Orientation::Square
    }
}

/// The hue bands are the three intervals of the table, over every whole
/// degree from 0 to 360: cool from 150 up to 330, neutral from 70 up to
/// 150, warm below 70 and from 330 on.
pub proof fn law_hue_bands_are_intervals(degrees: int)
    requires
        0 <= degrees <= 360,
    ensures
        hue_group_of(degrees) == HueGroup::Cool <==> 150 <= degrees < 330,
        hue_group_of(degrees) == HueGroup::Neutral <==> 70 <= degrees < 150,
        hue_group_of(degrees) == HueGroup::Warm <==> degrees < 70 || 330 <= degrees,
{
}

/// A band holds every hue between two of its hues, except that the warm
/// band wraps around 360: no hue inside the cool or neutral interval is
/// given to another band.
pub proof fn law_hue_bands_have_no_holes(low: int, mid: int, high: int)
    requires
        0 <= low <= mid <= high <= 360,
        hue_group_of(low) == hue_group_of(high),
        hue_group_of(low) != HueGroup::Warm,
    ensures
        hue_group_of(mid) == hue_group_of(low),
{
}

/// The orientation compares the sides as numbers, over the whole range:
/// landscape exactly when the width is larger, portrait exactly when the
/// height is larger, square exactly when they are equal.
pub proof fn law_orientation_compares_sides(width: u32, height: u32)
    ensures
        orientation_of(width as int, height as int) == Orientation::Landscape <==> width > height,
        orientation_of(width as int, height as int) == Orientation::Portrait <==> width < height,
        orientation_of(width as int, height as int) == Orientation::Square <==> width == height,
{
}

/// Swapping the sides swaps landscape and portrait and keeps square.
pub proof fn law_orientation_swaps_with_sides(width: u32, height: u32)
    ensures
        orientation_of(width as int, height as int) == Orientation::Landscape
            <==> orientation_of(height as int, width as int) == Orientation::Portrait,
        orientation_of(width as int, height as int) == Orientation::Square
            <==> orientation_of(height as int, width as int) == Orientation::Square,
{
}

} // verus!
