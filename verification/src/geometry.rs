//! Units and traits of screen geometry.

use vstd::prelude::*;

use crate::au::max_au;
use crate::offset_parent::AuRect;

verus! {

/// The relationship between DevicePixel and DeviceIndependentPixel is defined
/// by the OS. On most low-dpi screens, one DeviceIndependentPixel is equal to
/// one DevicePixel. But on high-density screens it can be some larger number.
/// For example, by default on Apple "retina" displays, one
/// DeviceIndependentPixel equals two DevicePixels. On Android "MDPI" displays,
/// one DeviceIndependentPixel equals 1.5 device pixels.
///
/// The type serves as a unit tag of lengths, points and rectangles; its
/// private field keeps other crates from making values of it.
#[derive(Clone, Copy, Debug)]
pub struct DeviceIndependentPixel(());

/// Types that have a largest rectangle, covering every representable point.
pub trait MaxRect: Sized {
    fn max_rect() -> Self;
}

impl MaxRect for AuRect {
    /// The rectangle of app units from half the least app unit value, as
    /// wide and as tall as the largest app unit value.
    fn max_rect() -> (r: Self)
        ensures
            r.x == -(max_au() / 2) && r.y == r.x,
            r.width == max_au() && r.height == max_au(),
    {
        AuRect { x: -536870911, y: -536870911, width: 1073741823, height: 1073741823 }
    }
}

} // verus!
