//! App units (`app_units::Au`, 1/60 px) held as their `i32` value, and the
//! arithmetic of `app_units` on them.
use app_units::Au;
use vstd::prelude::*;

verus! {

/// The greatest app-unit value, `app_units::MAX_AU`; `MIN_AU` is its
/// negation.
pub open spec fn max_au() -> int {
    1073741823
}

/// Whether `v` is a valid app-unit value: between `MIN_AU` and `MAX_AU`.
pub open spec fn is_app_units(v: int) -> bool {
    -max_au() <= v <= max_au()
}

/// `v` clamped to the valid app-unit values.
pub open spec fn clamp_app_units(v: int) -> int {
    if v > max_au() {
        max_au()
    } else if v < -max_au() {
        -max_au()
    } else {
        v
    }
}

/// `Au + Au` of `app_units`: adds the two values and clamps the sum between
/// `MIN_AU` and `MAX_AU`. Both values are valid, so the `i32` sum does not
/// overflow.
#[verifier::external_body]
pub(crate) fn au_add(a: i32, b: i32) -> (r: i32)
    requires
        is_app_units(a as int),
        is_app_units(b as int),
    ensures
        r == clamp_app_units(a + b),
{
    (Au(a) + Au(b)).0
}

/// `Au - Au` of `app_units`: subtracts and clamps the difference between
/// `MIN_AU` and `MAX_AU`. Both values are valid, so the `i32` difference
/// does not overflow.
#[verifier::external_body]
pub(crate) fn au_sub(a: i32, b: i32) -> (r: i32)
    requires
        is_app_units(a as int),
        is_app_units(b as int),
    ensures
        r == clamp_app_units(a - b),
{
    (Au(a) - Au(b)).0
}

/// `-Au` of `app_units`: the negated value, which is valid where the value
/// is.
#[verifier::external_body]
pub(crate) fn au_neg(a: i32) -> (r: i32)
    requires
        is_app_units(a as int),
    ensures
        r == -a,
{
    (-Au(a)).0
}

} // verus!
