//! The scroll container of an element, for `scrollParent` and
//! `scrollIntoView`: the nearest containing block that is a scroll
//! container, or the viewport; over what the query reads of the element's
//! box and of each of its ancestors' boxes.
use vstd::prelude::*;

use crate::offset_parent::PositionKind;
use crate::scroll::Overflow;

verus! {

/// The effective overflow of a box along each axis.
#[derive(Clone, Copy, Debug, PartialEq, Eq, Structural)]
pub struct AxesOverflow {
    pub x: Overflow,
    pub y: Overflow,
}

/// What the query is for: `scrollParent`, which has none for the root and
/// the body; and whether the element itself may be the answer.
#[derive(Clone, Copy, Debug, PartialEq, Eq, Structural)]
pub struct ScrollContainerQueryFlags {
    pub for_scroll_parent: bool,
    pub inclusive: bool,
}

/// What the query reads of the element's box.
#[derive(Clone, Copy, Debug, PartialEq, Eq, Structural)]
pub struct ScrollElementBox {
    /// The box is the root element's or the body element's.
    pub is_root_or_body: bool,
    pub establishes_scroll_container: bool,
    pub effective_overflow: AxesOverflow,
    pub position: PositionKind,
}

/// What the query reads of an ancestor's box.
#[derive(Clone, Copy, Debug, PartialEq, Eq, Structural)]
pub struct ScrollAncestorBox {
    pub is_inline_box: bool,
    /// It contains absolutely positioned descendants.
    pub contains_absolute: bool,
    /// It contains fixed positioned descendants too.
    pub contains_all: bool,
    pub establishes_scroll_container: bool,
    pub effective_overflow: AxesOverflow,
    pub position: PositionKind,
}

/// The element that the query is about.
#[derive(Clone, Copy, Debug, PartialEq, Eq, Structural)]
pub enum ScrollQueryNode {
    /// There is no element: the viewport scrolls.
    Absent,
    /// A node that is not an element or has no box.
    Unboxed,
    Boxed(ScrollElementBox),
}

/// The answer: the viewport, the element itself, or the ancestor at a
/// position (nearest first), with its effective overflow.
#[derive(Clone, Copy, Debug, PartialEq, Eq, Structural)]
pub enum ScrollContainerResponse {
    Viewport(AxesOverflow),
    Element(AxesOverflow),
    Ancestor(usize, AxesOverflow),
}

/// Whether `a` is the containing block of a box positioned `position`:
/// any non-inline box for in-flow boxes, and the boxes that contain them
/// for absolute and fixed ones.
pub open spec fn is_containing_block(position: PositionKind, a: ScrollAncestorBox) -> bool {
    match position {
        PositionKind::Absolute => a.contains_absolute,
        PositionKind::Fixed => a.contains_all,
        _ => !a.is_inline_box,
    }
}

/// The walk up the containing blocks from the ancestor at `i`, for a box
/// positioned `position`: the first containing block that is a scroll
/// container, else the viewport, unless the last box was fixed.
pub open spec fn scroll_walk(
    ancestors: Seq<Option<ScrollAncestorBox>>,
    i: int,
    position: PositionKind,
    viewport_overflow: AxesOverflow,
) -> Option<ScrollContainerResponse>
    decreases ancestors.len() - i,
{
    if i < 0 || i >= ancestors.len() {
        if position is Fixed {
            None
        } else {
            Some(ScrollContainerResponse::Viewport(viewport_overflow))
        }
    } else {
        match ancestors[i] {
            None => scroll_walk(ancestors, i + 1, position, viewport_overflow),
            Some(a) => if !is_containing_block(position, a) {
                scroll_walk(ancestors, i + 1, position, viewport_overflow)
            } else if a.establishes_scroll_container {
                Some(ScrollContainerResponse::Ancestor(i as usize, a.effective_overflow))
            } else {
                scroll_walk(ancestors, i + 1, a.position, viewport_overflow)
            },
        }
    }
}

/// The scroll container of `node`: the viewport without an element; none
/// for an element without a box, or, for `scrollParent`, for the root and
/// the body; the element itself where the query is inclusive and it is a
/// scroll container; else the walk up its containing blocks.
pub open spec fn scroll_container_of(
    node: ScrollQueryNode,
    ancestors: Seq<Option<ScrollAncestorBox>>,
    flags: ScrollContainerQueryFlags,
    viewport_overflow: AxesOverflow,
) -> Option<ScrollContainerResponse> {
    match node {
        ScrollQueryNode::Absent => Some(ScrollContainerResponse::Viewport(viewport_overflow)),
        ScrollQueryNode::Unboxed => None,
        ScrollQueryNode::Boxed(e) => if flags.for_scroll_parent && e.is_root_or_body {
            None
        } else if flags.inclusive && e.establishes_scroll_container {
            Some(ScrollContainerResponse::Element(e.effective_overflow))
        } else {
            scroll_walk(ancestors, 0, e.position, viewport_overflow)
        },
    }
}

/// The scroll container of `node` (see `scroll_container_of`).
pub fn process_scroll_container_query(
    node: ScrollQueryNode,
    ancestors: &Vec<Option<ScrollAncestorBox>>,
    flags: ScrollContainerQueryFlags,
    viewport_overflow: AxesOverflow,
) -> (r: Option<ScrollContainerResponse>)
    ensures
        r == scroll_container_of(node, ancestors@, flags, viewport_overflow),
{
    let e = match node {
        ScrollQueryNode::Absent => {
            return Some(ScrollContainerResponse::Viewport(viewport_overflow));
        },
        ScrollQueryNode::Unboxed => {
            return None;
        },
        ScrollQueryNode::Boxed(e) => e,
    };
    if flags.for_scroll_parent && e.is_root_or_body {
        return None;
    }
    if flags.inclusive && e.establishes_scroll_container {
        return Some(ScrollContainerResponse::Element(e.effective_overflow));
    }
    let mut position = e.position;
    let mut i: usize = 0;
    while i < ancestors.len()
        invariant
            i <= ancestors.len(),
            node == ScrollQueryNode::Boxed(e),
            !(flags.for_scroll_parent && e.is_root_or_body),
            !(flags.inclusive && e.establishes_scroll_container),
            scroll_walk(ancestors@, 0, e.position, viewport_overflow) == scroll_walk(
                ancestors@,
                i as int,
                position,
                viewport_overflow,
            ),
        decreases ancestors.len() - i,
    {
        if let Some(a) = ancestors[i] {
            let contains = match position {
                PositionKind::Absolute => a.contains_absolute,
                PositionKind::Fixed => a.contains_all,
                _ => !a.is_inline_box,
            };
            if contains {
                if a.establishes_scroll_container {
                    return Some(ScrollContainerResponse::Ancestor(i, a.effective_overflow));
                }
                position = a.position;
            }
        }
        i = i + 1;
    }
    match position {
        PositionKind::Fixed => None,
        _ => Some(ScrollContainerResponse::Viewport(viewport_overflow)),
    }
}

} // verus!
