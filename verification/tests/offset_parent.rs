use havi::offset_parent::{
    offset_parent_fragments, process_offset_parent_query, AuRect, OffsetAncestor, OffsetBox, OffsetFragmentKind,
    OffsetParentFragments, OffsetParentResponse, PositionKind,
};

fn layout_box(kind: OffsetFragmentKind, position: PositionKind) -> OffsetBox {
    OffsetBox { kind, position, is_root: false, is_body: false, is_table_cell_or_table: false }
}

fn ancestor(b: OffsetBox, padding: (i32, i32), border: (i32, i32)) -> Option<OffsetAncestor> {
    Some(OffsetAncestor { layout_box: b, padding_x: padding.0, padding_y: padding.1, border_x: border.0, border_y: border.1 })
}

const ELEMENT: OffsetBox = OffsetBox {
    kind: OffsetFragmentKind::Box,
    position: PositionKind::Static,
    is_root: false,
    is_body: false,
    is_table_cell_or_table: false,
};

#[test]
fn the_nearest_positioned_ancestor_is_the_offset_parent() {
    let ancestors = vec![
        ancestor(layout_box(OffsetFragmentKind::Box, PositionKind::Static), (0, 0), (0, 0)),
        None,
        ancestor(layout_box(OffsetFragmentKind::Box, PositionKind::Relative), (600, 1200), (540, 1140)),
        ancestor(layout_box(OffsetFragmentKind::Box, PositionKind::Absolute), (0, 0), (0, 0)),
    ];
    assert_eq!(
        offset_parent_fragments(Some(ELEMENT), &ancestors),
        Some(OffsetParentFragments { parent: 2, grandparent: Some(3) })
    );
    let border = AuRect { x: 900, y: 1500, width: 60, height: 120 };
    assert_eq!(
        process_offset_parent_query(Some(ELEMENT), Some(border), &ancestors),
        Some(OffsetParentResponse { parent: Some(2), rect: AuRect { x: 300, y: 300, width: 60, height: 120 } })
    );
}

#[test]
fn table_cells_and_the_body_are_offset_parents() {
    let mut cell = layout_box(OffsetFragmentKind::Box, PositionKind::Static);
    cell.is_table_cell_or_table = true;
    let ancestors = vec![ancestor(layout_box(OffsetFragmentKind::Other, PositionKind::Relative), (0, 0), (0, 0)), ancestor(cell, (10, 10), (0, 0))];
    assert_eq!(offset_parent_fragments(Some(ELEMENT), &ancestors), Some(OffsetParentFragments { parent: 1, grandparent: None }));

    let mut body = layout_box(OffsetFragmentKind::Box, PositionKind::Static);
    body.is_body = true;
    let mut html = layout_box(OffsetFragmentKind::Box, PositionKind::Static);
    html.is_root = true;
    let ancestors = vec![ancestor(body, (480, 480), (0, 0)), ancestor(html, (0, 0), (60, 60))];
    let border = AuRect { x: 600, y: 600, width: 0, height: 0 };
    assert_eq!(
        process_offset_parent_query(Some(ELEMENT), Some(border), &ancestors),
        Some(OffsetParentResponse { parent: Some(0), rect: AuRect { x: 540, y: 540, width: 0, height: 0 } })
    );
    let ancestors = vec![ancestor(body, (480, 480), (0, 0))];
    assert_eq!(
        process_offset_parent_query(Some(ELEMENT), Some(border), &ancestors),
        Some(OffsetParentResponse { parent: Some(0), rect: AuRect { x: 120, y: 120, width: 0, height: 0 } })
    );
}

#[test]
fn root_body_and_fixed_elements_have_no_offset_parent() {
    let ancestors = vec![ancestor(layout_box(OffsetFragmentKind::Box, PositionKind::Relative), (5, 5), (0, 0))];
    let mut root = ELEMENT;
    root.is_root = true;
    let fixed = layout_box(OffsetFragmentKind::Box, PositionKind::Fixed);
    let fixed_float = layout_box(OffsetFragmentKind::Float, PositionKind::Fixed);
    assert_eq!(offset_parent_fragments(Some(root), &ancestors), None);
    assert_eq!(offset_parent_fragments(Some(fixed), &ancestors), None);
    assert_eq!(offset_parent_fragments(Some(fixed_float), &ancestors), Some(OffsetParentFragments { parent: 0, grandparent: None }));
    assert_eq!(offset_parent_fragments(None, &ancestors), None);
    let border = AuRect { x: 7, y: 8, width: 9, height: 10 };
    assert_eq!(
        process_offset_parent_query(Some(fixed), Some(border), &ancestors),
        Some(OffsetParentResponse { parent: None, rect: border })
    );
    assert_eq!(process_offset_parent_query(Some(ELEMENT), None, &ancestors), None);
}
