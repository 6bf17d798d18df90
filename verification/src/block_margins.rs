//! Collapsed block margins: the positive and negative margins that meet at
//! one block edge, and the single margin they collapse to.
//!
//! Lengths are app units (`app_units::Au`, 1/60 px), held as their `i32`
//! value and kept between `MIN_AU` and `MAX_AU`.
use vstd::prelude::*;

use crate::au::{au_add, clamp_app_units, is_app_units, max_au};

verus! {

/// The larger of two integers.
pub open spec fn max_int(a: int, b: int) -> int {
    if a >= b {
        a
    } else {
        b
    }
}

/// The smaller of two integers.
pub open spec fn min_int(a: int, b: int) -> int {
    if a <= b {
        a
    } else {
        b
    }
}

/// A collapsed margin as (largest positive margin, most negative margin).
pub open spec fn margin_of(margin: int) -> (int, int) {
    (max_int(margin, 0), min_int(margin, 0))
}

/// Two collapsed margins that meet: the largest positive and the most
/// negative margin of both.
pub open spec fn adjoined(a: (int, int), b: (int, int)) -> (int, int) {
    (max_int(a.0, b.0), min_int(a.1, b.1))
}

/// What a collapsed margin resolves to: its largest positive margin plus
/// its most negative one.
pub open spec fn solved(m: (int, int)) -> int {
    clamp_app_units(m.0 + m.1)
}

/// The collapsed margins that a margin can stand for.
pub open spec fn valid_margin(m: (int, int)) -> bool {
    &&& 0 <= m.0 <= max_au()
    &&& -max_au() <= m.1 <= 0
}

/// The margins that collapse at one block edge.
#[derive(Clone, Copy, Debug)]
pub struct CollapsedMargin {
    max_positive: i32,
    min_negative: i32,
}

impl View for CollapsedMargin {
    type V = (int, int);

    closed spec fn view(&self) -> (int, int) {
        (self.max_positive as int, self.min_negative as int)
    }
}

impl CollapsedMargin {
    #[verifier::type_invariant]
    spec fn inv(self) -> bool {
        valid_margin(self@)
    }

    /// No margin.
    pub fn zero() -> (r: Self)
        ensures
            r@ == (0int, 0int),
            valid_margin(r@),
    {
        CollapsedMargin { max_positive: 0, min_negative: 0 }
    }

    /// The collapsed form of one margin: its positive part and its negative
    /// part.
    pub fn new(margin: i32) -> (r: Self)
        requires
            is_app_units(margin as int),
        ensures
            r@ == margin_of(margin as int),
            valid_margin(r@),
    {
        let max_positive = if margin >= 0 {
            margin
        } else {
            0
        };
        let min_negative = if margin <= 0 {
            margin
        } else {
            0
        };
        CollapsedMargin { max_positive, min_negative }
    }

    /// This margin collapsed with `other`.
    pub fn adjoin(&self, other: &Self) -> (r: Self)
        ensures
            r@ == adjoined(self@, other@),
            valid_margin(r@),
    {
        proof {
            use_type_invariant(self);
            use_type_invariant(other);
        }
        let max_positive = if self.max_positive >= other.max_positive {
            self.max_positive
        } else {
            other.max_positive
        };
        let min_negative = if self.min_negative <= other.min_negative {
            self.min_negative
        } else {
            other.min_negative
        };
        CollapsedMargin { max_positive, min_negative }
    }

    /// Collapses `other` into this margin.
    pub fn adjoin_assign(&mut self, other: &Self)
        ensures
            final(self)@ == adjoined(old(self)@, other@),
            valid_margin(final(self)@),
    {
        *self = self.adjoin(other);
    }

    /// The margin this collapses to.
    pub fn solve(&self) -> (r: i32)
        ensures
            r == solved(self@),
            r == self@.0 + self@.1,
    {
        proof {
            use_type_invariant(self);
        }
        au_add(self.max_positive, self.min_negative)
    }
}

/// The collapsed margins at the start and end of a block.
#[derive(Clone, Debug)]
pub struct CollapsedBlockMargins {
    pub collapsed_through: bool,
    pub start: CollapsedMargin,
    pub end: CollapsedMargin,
}

impl CollapsedBlockMargins {
    /// The collapsed margins of a block with the given block-start and
    /// block-end margins; nothing collapses through it.
    pub fn from_margin(block_start: i32, block_end: i32) -> (r: Self)
        requires
            is_app_units(block_start as int),
            is_app_units(block_end as int),
        ensures
            !r.collapsed_through,
            r.start@ == margin_of(block_start as int),
            r.end@ == margin_of(block_end as int),
    {
        CollapsedBlockMargins {
            collapsed_through: false,
            start: CollapsedMargin::new(block_start),
            end: CollapsedMargin::new(block_end),
        }
    }

    /// No margins.
    pub fn zero() -> (r: Self)
        ensures
            !r.collapsed_through,
            r.start@ == (0int, 0int),
            r.end@ == (0int, 0int),
    {
        CollapsedBlockMargins { collapsed_through: false, start: CollapsedMargin::zero(), end: CollapsedMargin::zero() }
    }
}

/// A single margin collapses back to itself.
pub proof fn lemma_solve_single_margin(margin: int)
    requires
        is_app_units(margin),
    ensures
        solved(margin_of(margin)) == margin,
{
}

/// The order in which margins meet does not matter.
pub proof fn lemma_adjoin_commutative(a: (int, int), b: (int, int))
    ensures
        adjoined(a, b) == adjoined(b, a),
{
}

/// Collapsing is associative.
pub proof fn lemma_adjoin_associative(a: (int, int), b: (int, int), c: (int, int))
    ensures
        adjoined(adjoined(a, b), c) == adjoined(a, adjoined(b, c)),
{
}

/// Collapsing a margin with itself changes nothing.
pub proof fn lemma_adjoin_idempotent(a: (int, int))
    ensures
        adjoined(a, a) == a,
{
}

/// No margin is the identity of collapsing.
pub proof fn lemma_adjoin_zero(a: (int, int))
    requires
        valid_margin(a),
    ensures
        adjoined(a, (0int, 0int)) == a,
        adjoined((0int, 0int), a) == a,
{
}

/// Collapsing keeps margins valid.
pub proof fn lemma_adjoin_valid(a: (int, int), b: (int, int))
    requires
        valid_margin(a),
        valid_margin(b),
    ensures
        valid_margin(adjoined(a, b)),
{
}

/// Two margins collapse to the larger where both are positive, to the
/// more negative where both are negative, and to their sum otherwise.
pub proof fn lemma_two_margins_collapse(a: int, b: int)
    requires
        is_app_units(a),
        is_app_units(b),
    ensures
        solved(adjoined(margin_of(a), margin_of(b))) == if a >= 0 && b >= 0 {
            max_int(a, b)
        } else if a <= 0 && b <= 0 {
            min_int(a, b)
        } else {
            a + b
        },
{
}

} // verus!
