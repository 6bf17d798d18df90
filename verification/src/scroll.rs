//! Scroll sensitivity of scroll containers: which kinds of action may scroll
//! a box along each axis, derived from the box's `overflow` value.

use vstd::prelude::*;

verus! {

/// The bit of scrolls that input events (wheel, touch, keys) originate.
pub open spec fn input_events_bit() -> u8 {
    1
}

/// The bit of scrolls that script originates.
pub open spec fn script_bit() -> u8 {
    2
}

/// A scroll type, describing what kind of action originated a scroll request:
/// a set of flags, `input_events` and `script`.
#[derive(Clone, Copy, Debug, PartialEq, Eq)]
pub struct ScrollType(pub u8);

impl View for ScrollType {
    type V = u8;

    open spec fn view(&self) -> u8 {
        self.0
    }
}

impl ScrollType {
    /// No flag set.
    pub fn empty() -> (r: Self)
        ensures
            r@ == 0,
    {
        ScrollType(0)
    }

    /// Scrolls that input events originate.
    pub fn input_events() -> (r: Self)
        ensures
            r@ == input_events_bit(),
    {
        ScrollType(1)
    }

    /// Scrolls that script originates.
    pub fn script() -> (r: Self)
        ensures
            r@ == script_bit(),
    {
        ScrollType(2)
    }

    /// The raw bits of the flags.
    pub fn bits(&self) -> (r: u8)
        ensures
            r == self@,
    {
        self.0
    }

    /// Whether no flag is set.
    pub fn is_empty(&self) -> (r: bool)
        ensures
            r == (self@ == 0),
    {
        self.0 == 0
    }

    /// Whether every flag of `other` is set in `self`.
    pub fn contains(&self, other: ScrollType) -> (r: bool)
        ensures
            r == (self@ & other@ == other@),
    {
        self.0 & other.0 == other.0
    }

    /// The flags set in `self` or in `other`.
    pub fn union(self, other: ScrollType) -> (r: ScrollType)
        ensures
            r@ == self@ | other@,
    {
        ScrollType(self.0 | other.0)
    }
}

/// The `overflow` value of a box along one axis.
#[derive(Clone, Copy, Debug, PartialEq, Eq, Structural)]
pub enum Overflow {
    Visible,
    Hidden,
    Scroll,
    Auto,
    Clip,
}

/// The scroll types that a box with the given `overflow` accepts: script
/// may scroll a `hidden` box, script and input events may scroll a `scroll`
/// or `auto` box, and nothing scrolls a `visible` or `clip` box.
pub open spec fn overflow_scroll_bits(overflow: Overflow) -> u8 {
    match overflow {
        Overflow::Hidden => script_bit(),
        Overflow::Scroll | Overflow::Auto => 3,
        Overflow::Visible | Overflow::Clip => 0,
    }
}

impl From<Overflow> for ScrollType {
    fn from(overflow: Overflow) -> (r: Self) {
        match overflow {
            Overflow::Hidden => ScrollType::script(),
            Overflow::Scroll | Overflow::Auto => {
                let r = ScrollType::script().union(ScrollType::input_events());
                assert(2u8 | 1u8 == 3u8) by (bit_vector);
                r
            },
            Overflow::Visible | Overflow::Clip => ScrollType::empty(),
        }
    }
}

impl vstd::std_specs::convert::FromSpecImpl<Overflow> for ScrollType {
    open spec fn obeys_from_spec() -> bool {
        true
    }

    open spec fn from_spec(v: Overflow) -> Self {
        ScrollType(overflow_scroll_bits(v))
    }
}

/// The scroll types accepted along each axis.
#[derive(Clone, Copy, Debug, PartialEq, Eq)]
pub struct AxesScrollSensitivity {
    pub x: ScrollType,
    pub y: ScrollType,
}

/// The union of two flag sets holds each of them.
pub proof fn lemma_union_contains(a: ScrollType, b: ScrollType)
    ensures
        (a@ | b@) & a@ == a@,
        (a@ | b@) & b@ == b@,
{
    let x = a@;
    let y = b@;
    assert((x | y) & x == x) by (bit_vector);
    assert((x | y) & y == y) by (bit_vector);
}

/// A box that input events may scroll may also be scrolled by script.
pub proof fn lemma_input_scroll_implies_script(overflow: Overflow)
    ensures
        overflow_scroll_bits(overflow) & input_events_bit() == input_events_bit() ==> overflow_scroll_bits(
            overflow,
        ) & script_bit() == script_bit(),
{
    assert(3u8 & 1u8 == 1u8 && 3u8 & 2u8 == 2u8) by (bit_vector);
    assert(2u8 & 1u8 == 0u8 && 0u8 & 1u8 == 0u8) by (bit_vector);
}

} // verus!
