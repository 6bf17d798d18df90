//! The `offsetParent` of an element and its offset from it
//! (`offsetTop`, `offsetLeft`), over what the query reads of the first
//! layout box of the element and of each of its ancestors.
use vstd::prelude::*;

use crate::au::{au_add, au_neg, clamp_app_units, is_app_units};

verus! {

/// The kinds of fragment that the query tells apart.
#[derive(Clone, Copy, Debug, PartialEq, Eq, Structural)]
pub enum OffsetFragmentKind {
    Box,
    Float,
    Other,
}

/// The values of `position`.
#[derive(Clone, Copy, Debug, PartialEq, Eq, Structural)]
pub enum PositionKind {
    Static,
    Relative,
    Absolute,
    Fixed,
    Sticky,
}

/// What the query reads of a first layout box.
#[derive(Clone, Copy, Debug, PartialEq, Eq, Structural)]
pub struct OffsetBox {
    pub kind: OffsetFragmentKind,
    pub position: PositionKind,
    /// The box is the root element's.
    pub is_root: bool,
    /// The box is the `body` element's, under an `html` root.
    pub is_body: bool,
    /// The box is a `td`, `th` or `table` element's.
    pub is_table_cell_or_table: bool,
}

/// A rectangle in app units.
#[derive(Clone, Copy, Debug, PartialEq, Eq, Structural)]
pub struct AuRect {
    pub x: i32,
    pub y: i32,
    pub width: i32,
    pub height: i32,
}

/// An ancestor as the query reads it: its first layout box, with the
/// origins of its padding and border boxes relative to the initial
/// containing block, where it has one.
#[derive(Clone, Copy, Debug, PartialEq, Eq, Structural)]
pub struct OffsetAncestor {
    pub layout_box: OffsetBox,
    pub padding_x: i32,
    pub padding_y: i32,
    pub border_x: i32,
    pub border_y: i32,
}

/// The offset parent of an element, as a position among its ancestors
/// (nearest first), with the position of the ancestor above it where that
/// one has a layout box.
#[derive(Clone, Copy, Debug, PartialEq, Eq, Structural)]
pub struct OffsetParentFragments {
    pub parent: usize,
    pub grandparent: Option<usize>,
}

/// The answer of the query: the offset parent, if any, and the element's
/// border box relative to it.
#[derive(Clone, Copy, Debug, PartialEq, Eq, Structural)]
pub struct OffsetParentResponse {
    pub parent: Option<usize>,
    pub rect: AuRect,
}

/// A box or a float.
pub open spec fn is_box_or_float(b: OffsetBox) -> bool {
    b.kind is Box || b.kind is Float
}

/// An element without an offset parent: the root, the body, and a fixed
/// box.
pub open spec fn has_no_offset_parent(e: OffsetBox) -> bool {
    e.is_root || e.is_body || (e.kind is Box && e.position is Fixed)
}

/// An ancestor that is an offset parent: a box or float that is
/// positioned, is the body, or is a table cell or table.
pub open spec fn is_offset_parent(a: Option<OffsetAncestor>) -> bool {
    a matches Some(x) && is_box_or_float(x.layout_box) && (!(x.layout_box.position is Static) || x.layout_box.is_body
        || x.layout_box.is_table_cell_or_table)
}

/// The offset parent of an element with first box `element` and ancestors
/// `ancestors`, nearest first: none for an element without a box or without
/// an offset parent; else the nearest ancestor that is an offset parent.
pub open spec fn offset_parent_of(element: Option<OffsetBox>, ancestors: Seq<Option<OffsetAncestor>>) -> Option<
    OffsetParentFragments,
> {
    match element {
        None => None,
        Some(e) => if has_no_offset_parent(e) {
            None
        } else if exists|i: int| 0 <= i < ancestors.len() && is_offset_parent(#[trigger] ancestors[i]) {
            let i = choose|i: int|
                0 <= i < ancestors.len() && is_offset_parent(ancestors[i]) && forall|j: int|
                    0 <= j < i ==> !is_offset_parent(#[trigger] ancestors[j]);
            Some(
                OffsetParentFragments {
                    parent: i as usize,
                    grandparent: if i + 1 < ancestors.len() && ancestors[i + 1] is Some {
                        Some((i + 1) as usize)
                    } else {
                        None
                    },
                },
            )
        } else {
            None
        },
    }
}

/// The offset parent of an element (see `offset_parent_of`).
pub fn offset_parent_fragments(element: Option<OffsetBox>, ancestors: &Vec<Option<OffsetAncestor>>) -> (r: Option<
    OffsetParentFragments,
>)
    ensures
        r == offset_parent_of(element, ancestors@),
        r matches Some(f) ==> f.parent < ancestors@.len() && is_offset_parent(ancestors@[f.parent as int]) && (
        f.grandparent matches Some(k) ==> k == f.parent + 1 && k < ancestors@.len()),
{
    let e = match element {
        Some(e) => e,
        None => {
            return None;
        },
    };
    let fixed_box = match (e.kind, e.position) {
        (OffsetFragmentKind::Box, PositionKind::Fixed) => true,
        _ => false,
    };
    if e.is_root || e.is_body || fixed_box {
        return None;
    }
    let mut i: usize = 0;
    while i < ancestors.len()
        invariant
            i <= ancestors.len(),
            element == Some(e),
            !has_no_offset_parent(e),
            forall|j: int| 0 <= j < i ==> !is_offset_parent(#[trigger] ancestors@[j]),
        decreases ancestors.len() - i,
    {
        if let Some(a) = ancestors[i] {
            let b = a.layout_box;
            let box_or_float = match b.kind {
                OffsetFragmentKind::Box | OffsetFragmentKind::Float => true,
                OffsetFragmentKind::Other => false,
            };
            let positioned = match b.position {
                PositionKind::Static => false,
                _ => true,
            };
            if box_or_float && (positioned || b.is_body || b.is_table_cell_or_table) {
                let grandparent = if i + 1 < ancestors.len() && ancestors[i + 1].is_some() {
                    Some(i + 1)
                } else {
                    None
                };
                proof {
                    assert(is_offset_parent(ancestors@[i as int]));
                    assert(0 <= i < ancestors@.len() && is_offset_parent(ancestors@[i as int]) && forall|j: int|
                        0 <= j < i ==> !is_offset_parent(#[trigger] ancestors@[j]));
                    let k = choose|k: int|
                        0 <= k < ancestors@.len() && is_offset_parent(ancestors@[k]) && forall|j: int|
                            0 <= j < k ==> !is_offset_parent(#[trigger] ancestors@[j]);
                    assert(k == i) by {
                        if k < i {
                            assert(!is_offset_parent(ancestors@[k]));
                        }
                        if k > i {
                            assert(!is_offset_parent(ancestors@[i as int]));
                        }
                    }
                    assert(element == Some(e));
                    assert(!has_no_offset_parent(e));
                    assert(exists|j: int| 0 <= j < ancestors@.len() && is_offset_parent(#[trigger] ancestors@[j]));
                    assert(grandparent == (if k + 1 < ancestors@.len() && ancestors@[k + 1] is Some {
                        Some((k + 1) as usize)
                    } else {
                        None
                    }));
                }
                return Some(OffsetParentFragments { parent: i, grandparent });
            }
        }
        i = i + 1;
    }
    None
}

/// `Rect::translate` by the negated origin `p`: `x + -p`, which `app_units`
/// clamps between `MIN_AU` and `MAX_AU`.
fn translate_back(x: i32, p: i32) -> (r: i32)
    requires
        is_app_units(x as int),
        is_app_units(p as int),
    ensures
        r == clamp_app_units(x - p),
{
    let n = au_neg(p);
    au_add(x, n)
}

/// Which origin an offset is measured from: the offset parent's padding
/// box, or, for a static body offset parent with a box or float above it,
/// that box's border box.
pub open spec fn measures_from_grandparent(parent: OffsetBox, grandparent: Option<OffsetAncestor>) -> bool {
    &&& parent.is_body
    &&& parent.position is Static
    &&& grandparent matches Some(g) && is_box_or_float(g.layout_box)
}

/// Whether every coordinate of the ancestors is a valid app-unit value.
pub open spec fn ancestors_in_app_units(ancestors: Seq<Option<OffsetAncestor>>) -> bool {
    forall|i: int|
        0 <= i < ancestors.len() ==> (#[trigger] ancestors[i] matches Some(a) ==> is_app_units(a.padding_x as int)
            && is_app_units(a.padding_y as int) && is_app_units(a.border_x as int) && is_app_units(
            a.border_y as int,
        ))
}

/// The answer of the `offsetParent` query: none without a border box; the
/// border box itself without an offset parent; else the border box moved
/// by the origin it is measured from.
pub open spec fn offset_parent_answer(
    element: Option<OffsetBox>,
    border_box: Option<AuRect>,
    ancestors: Seq<Option<OffsetAncestor>>,
) -> Option<OffsetParentResponse> {
    match border_box {
        None => None,
        Some(b) => match offset_parent_of(element, ancestors) {
            None => Some(OffsetParentResponse { parent: None, rect: b }),
            Some(f) => {
                let p = ancestors[f.parent as int]->0;
                let g = match f.grandparent {
                    Some(k) => ancestors[k as int],
                    None => None,
                };
                let (ox, oy) = if measures_from_grandparent(p.layout_box, g) {
                    (g->0.border_x, g->0.border_y)
                } else {
                    (p.padding_x, p.padding_y)
                };
                Some(
                    OffsetParentResponse {
                        parent: Some(f.parent),
                        rect: AuRect {
                            x: clamp_app_units(b.x - ox) as i32,
                            y: clamp_app_units(b.y - oy) as i32,
                            ..b
                        },
                    },
                )
            },
        },
    }
}

/// The `offsetParent` query of an element with first box `element` and
/// border box `border_box` (see `offset_parent_answer`).
pub fn process_offset_parent_query(
    element: Option<OffsetBox>,
    border_box: Option<AuRect>,
    ancestors: &Vec<Option<OffsetAncestor>>,
) -> (r: Option<OffsetParentResponse>)
    requires
        border_box matches Some(b) ==> is_app_units(b.x as int) && is_app_units(b.y as int),
        ancestors_in_app_units(ancestors@),
    ensures
        r == offset_parent_answer(element, border_box, ancestors@),
{
    let b = match border_box {
        Some(b) => b,
        None => {
            return None;
        },
    };
    let f = match offset_parent_fragments(element, ancestors) {
        Some(f) => f,
        None => {
            return Some(OffsetParentResponse { parent: None, rect: b });
        },
    };
    proof {
        assert(is_offset_parent(ancestors@[f.parent as int]));
    }
    let p = match ancestors[f.parent] {
        Some(p) => p,
        None => {
            return None;
        },
    };
    let g = match f.grandparent {
        Some(k) => ancestors[k],
        None => None,
    };
    let from_grandparent = match g {
        Some(gb) => p.layout_box.is_body && match p.layout_box.position {
            PositionKind::Static => true,
            _ => false,
        } && match gb.layout_box.kind {
            OffsetFragmentKind::Box | OffsetFragmentKind::Float => true,
            OffsetFragmentKind::Other => false,
        },
        None => false,
    };
    let (ox, oy) = match g {
        Some(gb) => if from_grandparent {
            (gb.border_x, gb.border_y)
        } else {
            (p.padding_x, p.padding_y)
        },
        None => (p.padding_x, p.padding_y),
    };
    proof {
        assert(ancestors@[f.parent as int] matches Some(a) ==> is_app_units(a.padding_x as int));
        if let Some(k) = f.grandparent {
            assert(ancestors@[k as int] matches Some(a) ==> is_app_units(a.border_x as int));
        }
    }
    let x = translate_back(b.x, ox);
    let y = translate_back(b.y, oy);
    Some(OffsetParentResponse { parent: Some(f.parent), rect: AuRect { x, y, width: b.width, height: b.height } })
}

/// Whether an ancestor, by the fields of its first fragment, can be an
/// offset parent: a box or a float that is positioned, is the body, or is a
/// table cell or table.
pub open spec fn qualifies_as_offset_parent(a: Option<OffsetAncestor>) -> bool {
    match a {
        None => false,
        Some(x) => (x.layout_box.kind == OffsetFragmentKind::Box || x.layout_box.kind == OffsetFragmentKind::Float) && (
        x.layout_box.position != PositionKind::Static || x.layout_box.is_body || x.layout_box.is_table_cell_or_table),
    }
}

/// The offset parent of an element that is not the root, not the body and
/// not a fixed box is the nearest ancestor whose first fragment is a box or
/// a float and that is positioned, is the body, or is a table cell or table
/// (a float counts as a box does); where there is none, there is no offset
/// parent. The element's own box may be a box, a float or neither.
pub proof fn lemma_offset_parent_is_nearest_qualifying_ancestor(element: OffsetBox, ancestors: Seq<Option<OffsetAncestor>>)
    requires
        ancestors.len() <= usize::MAX,
        !element.is_root,
        !element.is_body,
        !(element.kind == OffsetFragmentKind::Box && element.position == PositionKind::Fixed),
    ensures
        forall|i: int|
            0 <= i < ancestors.len() && qualifies_as_offset_parent(#[trigger] ancestors[i]) && (forall|j: int|
                0 <= j < i ==> !qualifies_as_offset_parent(#[trigger] ancestors[j])) ==> (offset_parent_of(
                Some(element),
                ancestors,
            ) matches Some(f) && f.parent == i),
        (forall|i: int| 0 <= i < ancestors.len() ==> !qualifies_as_offset_parent(#[trigger] ancestors[i])) ==> offset_parent_of(
            Some(element),
            ancestors,
        ) is None,
{
    assert forall|i: int| 0 <= i < ancestors.len() implies qualifies_as_offset_parent(#[trigger] ancestors[i])
        == is_offset_parent(ancestors[i]) by {}
    assert(!has_no_offset_parent(element));
    assert forall|i: int|
        0 <= i < ancestors.len() && qualifies_as_offset_parent(#[trigger] ancestors[i]) && (forall|j: int|
            0 <= j < i ==> !qualifies_as_offset_parent(#[trigger] ancestors[j])) implies (offset_parent_of(
        Some(element),
        ancestors,
    ) matches Some(f) && f.parent == i) by {
        assert(is_offset_parent(ancestors[i]));
        assert(exists|m: int| 0 <= m < ancestors.len() && is_offset_parent(#[trigger] ancestors[m]));
        assert forall|j: int| 0 <= j < i implies !is_offset_parent(#[trigger] ancestors[j]) by {
            assert(!qualifies_as_offset_parent(ancestors[j]));
        }
        let k = choose|k: int|
            0 <= k < ancestors.len() && is_offset_parent(ancestors[k]) && forall|j: int|
                0 <= j < k ==> !is_offset_parent(#[trigger] ancestors[j]);
        assert(0 <= i < ancestors.len() && is_offset_parent(ancestors[i]) && forall|j: int|
            0 <= j < i ==> !is_offset_parent(#[trigger] ancestors[j]));
        assert(k == i) by {
            if k < i {
                assert(!is_offset_parent(ancestors[k]));
            }
            if k > i {
                assert(!is_offset_parent(ancestors[i]));
            }
        }
        assert(offset_parent_of(Some(element), ancestors) == Some(
            OffsetParentFragments {
                parent: k as usize,
                grandparent: if k + 1 < ancestors.len() && ancestors[k + 1] is Some {
                    Some((k + 1) as usize)
                } else {
                    None
                },
            },
        ));
    }
    if forall|i: int| 0 <= i < ancestors.len() ==> !qualifies_as_offset_parent(#[trigger] ancestors[i]) {
        assert forall|i: int| 0 <= i < ancestors.len() implies !is_offset_parent(#[trigger] ancestors[i]) by {
            assert(!qualifies_as_offset_parent(ancestors[i]));
        }
    }
}

/// The root, the body and a fixed box have no offset parent, and neither
/// has an element without a layout box.
pub proof fn lemma_no_offset_parent(element: Option<OffsetBox>, ancestors: Seq<Option<OffsetAncestor>>)
    ensures
        element is None ==> offset_parent_of(element, ancestors) is None,
        element matches Some(e) ==> (e.is_root || e.is_body || (e.kind == OffsetFragmentKind::Box && e.position
            == PositionKind::Fixed) ==> offset_parent_of(element, ancestors) is None),
{
}

} // verus!
