//! Which box paints the canvas background: the root element's box where its
//! background is not empty, otherwise the box of an HTML root's `<body>`
//! where that one's is not; and which boxes then leave their own background
//! unpainted, so that it is painted once.

use vstd::prelude::*;

use crate::offset_parent::AuRect;

verus! {

/// What a fragment was generated for: a node and, for a pseudo-element,
/// which one.
#[derive(Clone, Copy, Debug, PartialEq, Eq, Structural)]
pub struct FragmentTag {
    pub node: u64,
    pub pseudo: Option<u8>,
}

/// The two flags by which the boxes that may supply the canvas background
/// are found.
#[derive(Clone, Copy, Debug, PartialEq, Eq, Structural)]
pub enum CanvasFlag {
    /// The box of the root element.
    RootElement,
    /// The box of the `<body>` child of an `<html>` root.
    BodyOfHtmlRoot,
}

/// A fragment of the arena as the canvas background reads it.
#[derive(Clone, Copy, Debug)]
pub struct CanvasFragment {
    /// The fragment's parent in the arena.
    pub parent: Option<usize>,
    /// A box or a float: the fragments that paint a background.
    pub is_box: bool,
    pub is_root_element: bool,
    pub is_body_of_html_root: bool,
    pub tag: Option<FragmentTag>,
    /// Its background color is not transparent, or it has a background image.
    pub supplies_background: bool,
    /// Its computed background, as a number that is equal exactly for equal
    /// backgrounds.
    pub background: u64,
}

/// Where the canvas background comes from.
#[derive(Clone, Copy, Debug, PartialEq, Eq, Structural)]
pub enum CanvasBackgroundSource {
    RootElement,
    PropagatedHtmlBody,
}

/// The canvas background: the box whose background it is, and the area it
/// covers (the initial containing block).
#[derive(Clone, Copy, Debug, PartialEq, Eq, Structural)]
pub struct DocumentCanvasBackground {
    pub source_kind: CanvasBackgroundSource,
    pub source_fragment_id: usize,
    pub paint_rect: AuRect,
}

/// A parent comes before its children in the arena: the builder reserves a
/// fragment's slot before it builds the fragment's children.
pub open spec fn arena_well_formed(nodes: Seq<CanvasFragment>) -> bool {
    forall|i: int| 0 <= i < nodes.len() && (#[trigger] nodes[i]).parent is Some ==> nodes[i].parent->0 < i
}

/// Whether the fragment carries the flag.
pub open spec fn has_flag(f: CanvasFragment, flag: CanvasFlag) -> bool {
    match flag {
        CanvasFlag::RootElement => f.is_root_element,
        CanvasFlag::BodyOfHtmlRoot => f.is_body_of_html_root,
    }
}

/// Whether the fragment is a box that carries the flag.
pub open spec fn box_with_flag(f: CanvasFragment, flag: CanvasFlag) -> bool {
    f.is_box && has_flag(f, flag)
}

/// The index of the first box of `nodes` that carries the flag.
pub open spec fn first_box_with_flag(nodes: Seq<CanvasFragment>, flag: CanvasFlag) -> Option<int>
    decreases nodes.len(),
{
    if nodes.len() == 0 {
        None
    } else {
        match first_box_with_flag(nodes.drop_last(), flag) {
            Some(i) => Some(i),
            None => if box_with_flag(nodes.last(), flag) {
                Some(nodes.len() - 1)
            } else {
                None
            },
        }
    }
}

/// Whether `ancestor` is a proper ancestor of `fragment` in the arena.
pub open spec fn is_descendant_of(nodes: Seq<CanvasFragment>, fragment: int, ancestor: int) -> bool
    decreases fragment,
{
    if 0 <= fragment < nodes.len() {
        match nodes[fragment].parent {
            None => false,
            Some(p) => if p as int >= fragment {
                false
            } else {
                p == ancestor || is_descendant_of(nodes, p as int, ancestor)
            },
        }
    } else {
        false
    }
}

/// Where the canvas background comes from, and the index of its box: the
/// first root-element box if it supplies a background; otherwise the first
/// `<body>` box of an HTML root if that one does; otherwise nowhere.
pub open spec fn canvas_source(nodes: Seq<CanvasFragment>) -> Option<(CanvasBackgroundSource, int)> {
    match first_box_with_flag(nodes, CanvasFlag::RootElement) {
        None => None,
        Some(r) => if nodes[r].supplies_background {
            Some((CanvasBackgroundSource::RootElement, r))
        } else {
            match first_box_with_flag(nodes, CanvasFlag::BodyOfHtmlRoot) {
                Some(b) => if nodes[b].supplies_background {
                    Some((CanvasBackgroundSource::PropagatedHtmlBody, b))
                } else {
                    None
                },
                None => None,
            }
        },
    }
}

/// Whether the box at `i` leaves its own background unpainted because the
/// canvas takes the background of the box at `source`: it is a box, and it
/// carries the flag that found the source (`<body>` before root), or it was
/// generated for the source's node, or it is an anonymous box inside the
/// source with the same background.
pub open spec fn suppressed_by(nodes: Seq<CanvasFragment>, source: int, i: int) -> bool {
    let src = nodes[source];
    let node = nodes[i];
    let same_flag = if src.is_body_of_html_root {
        node.is_body_of_html_root
    } else if src.is_root_element {
        node.is_root_element
    } else {
        false
    };
    let same_tag = src.tag is Some && node.tag == src.tag;
    let same_anonymous_style = node.tag is None && is_descendant_of(nodes, i, source) && node.background
        == src.background;
    node.is_box && (same_flag || same_tag || same_anonymous_style)
}

/// The index of the first box that carries the flag.
pub fn first_box_fragment_with_flag(nodes: &Vec<CanvasFragment>, flag: CanvasFlag) -> (r: Option<usize>)
    ensures
        match r {
            Some(i) => first_box_with_flag(nodes@, flag) == Some(i as int),
            None => first_box_with_flag(nodes@, flag) is None,
        },
        match r {
            Some(i) => i < nodes.len() && box_with_flag(nodes@[i as int], flag) && forall|j: int|
                0 <= j < i ==> !box_with_flag(#[trigger] nodes@[j], flag),
            None => forall|j: int| 0 <= j < nodes.len() ==> !box_with_flag(#[trigger] nodes@[j], flag),
        },
{
    let mut i: usize = 0;
    while i < nodes.len()
        invariant
            i <= nodes.len(),
            first_box_with_flag(nodes@.subrange(0, i as int), flag) is None,
            forall|j: int| 0 <= j < i ==> !box_with_flag(#[trigger] nodes@[j], flag),
        decreases nodes.len() - i,
    {
        let node = &nodes[i];
        let matches_flag = match flag {
            CanvasFlag::RootElement => node.is_root_element,
            CanvasFlag::BodyOfHtmlRoot => node.is_body_of_html_root,
        };
        proof {
            assert(nodes@.subrange(0, i + 1).drop_last() =~= nodes@.subrange(0, i as int));
        }
        if node.is_box && matches_flag {
            proof {
                lemma_first_box_in_prefix(nodes@, flag, i + 1);
            }
            return Some(i);
        }
        i = i + 1;
    }
    proof {
        assert(nodes@.subrange(0, nodes.len() as int) =~= nodes@);
    }
    None
}

/// The first box with the flag in a prefix that holds one is the first box
/// with the flag in the whole arena.
proof fn lemma_first_box_in_prefix(nodes: Seq<CanvasFragment>, flag: CanvasFlag, n: int)
    requires
        0 <= n <= nodes.len(),
        first_box_with_flag(nodes.subrange(0, n), flag) is Some,
    ensures
        first_box_with_flag(nodes, flag) == first_box_with_flag(nodes.subrange(0, n), flag),
    decreases nodes.len() - n,
{
    if n < nodes.len() {
        assert(nodes.subrange(0, n + 1).drop_last() =~= nodes.subrange(0, n));
        lemma_first_box_in_prefix(nodes, flag, n + 1);
    } else {
        assert(nodes.subrange(0, n) =~= nodes);
    }
}

/// Whether `ancestor_id` is a proper ancestor of `fragment_id`: walks the
/// parents of `fragment_id` up to the root.
pub fn fragment_is_descendant_of(nodes: &Vec<CanvasFragment>, fragment_id: usize, ancestor_id: usize) -> (r:
    bool)
    requires
        arena_well_formed(nodes@),
        fragment_id < nodes.len(),
    ensures
        r == is_descendant_of(nodes@, fragment_id as int, ancestor_id as int),
{
    let mut current = nodes[fragment_id].parent;
    let ghost mut child: int = fragment_id as int;
    loop
        invariant
            arena_well_formed(nodes@),
            0 <= child < nodes.len(),
            current == nodes@[child].parent,
            is_descendant_of(nodes@, fragment_id as int, ancestor_id as int) == is_descendant_of(
                nodes@,
                child,
                ancestor_id as int,
            ),
        decreases child,
    {
        let parent = match current {
            Some(parent) => parent,
            None => {
                return false;
            },
        };
        assert(parent < child);
        if parent == ancestor_id {
            return true;
        }
        proof {
            child = parent as int;
        }
        current = nodes[parent].parent;
    }
}

/// Marks, in `suppress`, every box that leaves its own background unpainted
/// because the canvas takes the background of the box at `source_fragment_id`.
pub fn suppress_background_paint_for_source(
    nodes: &Vec<CanvasFragment>,
    source_fragment_id: usize,
    suppress: &mut Vec<bool>,
)
    requires
        arena_well_formed(nodes@),
        source_fragment_id < nodes.len(),
        old(suppress).len() == nodes.len(),
    ensures
        final(suppress).len() == nodes.len(),
        forall|i: int|
            0 <= i < nodes.len() ==> #[trigger] final(suppress)@[i] == (old(suppress)@[i] || suppressed_by(
                nodes@,
                source_fragment_id as int,
                i,
            )),
{
    let source = nodes[source_fragment_id];
    let suppress_flag = if source.is_body_of_html_root {
        Some(CanvasFlag::BodyOfHtmlRoot)
    } else if source.is_root_element {
        Some(CanvasFlag::RootElement)
    } else {
        None
    };
    let ghost initial = suppress@;
    let mut index: usize = 0;
    while index < nodes.len()
        invariant
            arena_well_formed(nodes@),
            source_fragment_id < nodes.len(),
            source == nodes@[source_fragment_id as int],
            suppress_flag == (if source.is_body_of_html_root {
                Some(CanvasFlag::BodyOfHtmlRoot)
            } else if source.is_root_element {
                Some(CanvasFlag::RootElement)
            } else {
                None::<CanvasFlag>
            }),
            index <= nodes.len(),
            suppress.len() == nodes.len(),
            initial.len() == nodes.len(),
            forall|i: int|
                0 <= i < index ==> #[trigger] suppress@[i] == (initial[i] || suppressed_by(
                    nodes@,
                    source_fragment_id as int,
                    i,
                )),
            forall|i: int| index <= i < nodes.len() ==> #[trigger] suppress@[i] == initial[i],
        decreases nodes.len() - index,
    {
        let node = &nodes[index];
        let same_anonymous_style = node.tag.is_none() && fragment_is_descendant_of(
            nodes,
            index,
            source_fragment_id,
        ) && node.background == source.background;
        if node.is_box {
            let same_flag = match suppress_flag {
                Some(CanvasFlag::BodyOfHtmlRoot) => node.is_body_of_html_root,
                Some(CanvasFlag::RootElement) => node.is_root_element,
                None => false,
            };
            let same_tag = source.tag.is_some() && node.tag == source.tag;
            if same_flag || same_tag || same_anonymous_style {
                suppress.set(index, true);
            }
        }
        index = index + 1;
    }
}

/// Finds the box whose background the canvas takes, and marks in `suppress`
/// the boxes that then leave their own background unpainted; the canvas
/// background covers `initial_containing_block`.
pub fn resolve_document_canvas_background(
    nodes: &Vec<CanvasFragment>,
    initial_containing_block: AuRect,
    suppress: &mut Vec<bool>,
) -> (r: Option<DocumentCanvasBackground>)
    requires
        arena_well_formed(nodes@),
        old(suppress).len() == nodes.len(),
    ensures
        match canvas_source(nodes@) {
            None => r is None && final(suppress)@ == old(suppress)@,
            Some((kind, source)) => {
                &&& r == Some(
                    DocumentCanvasBackground {
                        source_kind: kind,
                        source_fragment_id: source as usize,
                        paint_rect: initial_containing_block,
                    },
                )
                &&& final(suppress).len() == nodes.len()
                &&& forall|i: int|
                    0 <= i < nodes.len() ==> #[trigger] final(suppress)@[i] == (old(suppress)@[i]
                        || suppressed_by(nodes@, source, i))
            },
        },
        // The box that supplies the canvas background does not paint it again.
        r matches Some(bg) ==> bg.source_fragment_id < nodes.len() && final(suppress)@[bg.source_fragment_id as int],
{
    let root_fragment_id = match first_box_fragment_with_flag(nodes, CanvasFlag::RootElement) {
        Some(id) => id,
        None => {
            return None;
        },
    };
    let background = if nodes[root_fragment_id].supplies_background {
        Some(
            DocumentCanvasBackground {
                source_kind: CanvasBackgroundSource::RootElement,
                source_fragment_id: root_fragment_id,
                paint_rect: initial_containing_block,
            },
        )
    } else {
        match first_box_fragment_with_flag(nodes, CanvasFlag::BodyOfHtmlRoot) {
            Some(body_fragment_id) => if nodes[body_fragment_id].supplies_background {
                Some(
                    DocumentCanvasBackground {
                        source_kind: CanvasBackgroundSource::PropagatedHtmlBody,
                        source_fragment_id: body_fragment_id,
                        paint_rect: initial_containing_block,
                    },
                )
            } else {
                None
            },
            None => None,
        }
    };
    if let Some(canvas_background) = background {
        suppress_background_paint_for_source(nodes, canvas_background.source_fragment_id, suppress);
    }
    background
}

} // verus!
