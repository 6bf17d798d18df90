use havi::offset_parent::PositionKind;
use havi::scroll::Overflow;
use havi::scroll_container::{
    process_scroll_container_query, AxesOverflow, ScrollAncestorBox, ScrollContainerQueryFlags, ScrollContainerResponse,
    ScrollElementBox, ScrollQueryNode,
};

const VISIBLE: AxesOverflow = AxesOverflow { x: Overflow::Visible, y: Overflow::Visible };
const SCROLL_Y: AxesOverflow = AxesOverflow { x: Overflow::Hidden, y: Overflow::Scroll };
const AUTO: AxesOverflow = AxesOverflow { x: Overflow::Auto, y: Overflow::Auto };
const SCROLL_PARENT: ScrollContainerQueryFlags = ScrollContainerQueryFlags { for_scroll_parent: true, inclusive: false };

fn element(position: PositionKind, scrolls: bool) -> ScrollQueryNode {
    ScrollQueryNode::Boxed(ScrollElementBox {
        is_root_or_body: false,
        establishes_scroll_container: scrolls,
        effective_overflow: if scrolls { SCROLL_Y } else { VISIBLE },
        position,
    })
}

fn ancestor(position: PositionKind, inline: bool, scrolls: bool, contains_fixed: bool) -> Option<ScrollAncestorBox> {
    Some(ScrollAncestorBox {
        is_inline_box: inline,
        contains_absolute: position != PositionKind::Static || contains_fixed,
        contains_all: contains_fixed,
        establishes_scroll_container: scrolls,
        effective_overflow: if scrolls { SCROLL_Y } else { VISIBLE },
        position,
    })
}

#[test]
fn the_nearest_scrolling_containing_block_is_the_scroll_parent() {
    let ancestors = vec![
        ancestor(PositionKind::Static, true, true, false),
        None,
        ancestor(PositionKind::Static, false, true, false),
    ];
    assert_eq!(
        process_scroll_container_query(element(PositionKind::Static, false), &ancestors, SCROLL_PARENT, AUTO),
        Some(ScrollContainerResponse::Ancestor(2, SCROLL_Y))
    );
}

#[test]
fn absolute_boxes_skip_static_scrollers() {
    let ancestors = vec![ancestor(PositionKind::Static, false, true, false), ancestor(PositionKind::Relative, false, false, false)];
    assert_eq!(
        process_scroll_container_query(element(PositionKind::Absolute, false), &ancestors, SCROLL_PARENT, AUTO),
        Some(ScrollContainerResponse::Viewport(AUTO))
    );
}

#[test]
fn fixed_boxes_without_a_fixed_containing_block_have_none() {
    let ancestors = vec![ancestor(PositionKind::Relative, false, true, false)];
    assert_eq!(process_scroll_container_query(element(PositionKind::Fixed, false), &ancestors, SCROLL_PARENT, AUTO), None);
    let transformed = vec![ancestor(PositionKind::Static, false, true, true)];
    assert_eq!(
        process_scroll_container_query(element(PositionKind::Fixed, false), &transformed, SCROLL_PARENT, AUTO),
        Some(ScrollContainerResponse::Ancestor(0, SCROLL_Y))
    );
    let through_fixed = vec![ancestor(PositionKind::Fixed, false, false, false)];
    assert_eq!(process_scroll_container_query(element(PositionKind::Static, false), &through_fixed, SCROLL_PARENT, AUTO), None);
}

#[test]
fn root_body_inclusive_and_absent_elements() {
    let root = ScrollQueryNode::Boxed(ScrollElementBox {
        is_root_or_body: true,
        establishes_scroll_container: true,
        effective_overflow: SCROLL_Y,
        position: PositionKind::Static,
    });
    assert_eq!(process_scroll_container_query(root, &vec![], SCROLL_PARENT, AUTO), None);
    let into_view = ScrollContainerQueryFlags { for_scroll_parent: false, inclusive: true };
    assert_eq!(process_scroll_container_query(root, &vec![], into_view, AUTO), Some(ScrollContainerResponse::Element(SCROLL_Y)));
    assert_eq!(
        process_scroll_container_query(ScrollQueryNode::Absent, &vec![], SCROLL_PARENT, AUTO),
        Some(ScrollContainerResponse::Viewport(AUTO))
    );
    assert_eq!(process_scroll_container_query(ScrollQueryNode::Unboxed, &vec![], SCROLL_PARENT, AUTO), None);
}
