use havi::inner_text::{join_text_items, InnerOrOuterTextItem};
use havi::rendered_text::{
    get_the_text_steps, rendered_text_collection_steps, RenderedNode, RenderedTextCollectionState, TextDisplay,
    TextElementKind, TextParent, TextStyle,
};

fn style(display: TextDisplay) -> TextStyle {
    TextStyle { visible: true, display, out_of_flow: false, preserve_white_space: false }
}

fn text_in(kind: TextElementKind, display: TextDisplay, collapsed: &str) -> RenderedNode {
    RenderedNode::Text {
        parent: Some(TextParent { kind, parent_is_select: false, style: Some(style(display)) }),
        content: collapsed.to_string(),
        collapsed: collapsed.to_string(),
        collapsed_trimmed: collapsed.trim_start().to_string(),
    }
}

fn element(kind: TextElementKind, display: TextDisplay, children: Vec<RenderedNode>) -> RenderedNode {
    RenderedNode::Element { kind, style: Some(style(display)), children }
}

fn block(kind: TextElementKind, text: &str) -> RenderedNode {
    element(kind, TextDisplay::Block, vec![text_in(kind, TextDisplay::Block, text)])
}

#[test]
fn blocks_and_paragraphs_are_separated_by_line_breaks() {
    let divs = vec![block(TextElementKind::Other, "a"), block(TextElementKind::Other, "b")];
    assert_eq!(get_the_text_steps(&divs), "a\nb");
    let paragraphs = vec![block(TextElementKind::Paragraph, "a"), block(TextElementKind::Paragraph, "b")];
    assert_eq!(get_the_text_steps(&paragraphs), "a\n\nb");
}

#[test]
fn white_space_is_trimmed_and_put_back_between_texts() {
    let nodes = vec![
        text_in(TextElementKind::Other, TextDisplay::Other, " a "),
        text_in(TextElementKind::Other, TextDisplay::Other, "b "),
    ];
    assert_eq!(get_the_text_steps(&nodes), "a b");
}

#[test]
fn replaced_elements_keep_the_space_around_them() {
    let span = element(
        TextElementKind::Other,
        TextDisplay::Other,
        vec![
            text_in(TextElementKind::Other, TextDisplay::Other, "asd "),
            element(TextElementKind::Input, TextDisplay::InlineBlock, vec![]),
            text_in(TextElementKind::Other, TextDisplay::Other, " qwe"),
        ],
    );
    assert_eq!(get_the_text_steps(&vec![span]), "asd  qwe");
}

#[test]
fn tables_separate_cells_by_tabs_and_rows_by_line_feeds() {
    let cell = |t: &str| element(TextElementKind::Other, TextDisplay::TableCell, vec![text_in(TextElementKind::Other, TextDisplay::TableCell, t)]);
    let row = |a: &str, b: &str| element(TextElementKind::Other, TextDisplay::TableRow, vec![cell(a), cell(b)]);
    let table = element(TextElementKind::Other, TextDisplay::Table, vec![row("1", "2"), row("3", "4")]);
    assert_eq!(get_the_text_steps(&vec![table]), "1\t2\n3\t4");
}

#[test]
fn hidden_and_ignored_text_is_left_out() {
    let hidden = element(
        TextElementKind::Other,
        TextDisplay::Hidden,
        vec![text_in(TextElementKind::Other, TextDisplay::Hidden, "gone")],
    );
    let canvas_text = text_in(TextElementKind::Canvas, TextDisplay::Other, "fallback");
    let br = RenderedNode::Element { kind: TextElementKind::Br, style: None, children: vec![] };
    let nodes = vec![text_in(TextElementKind::Other, TextDisplay::Other, "x"), hidden, canvas_text, br, RenderedNode::Skipped];
    assert_eq!(get_the_text_steps(&nodes), "x\n");
}

#[test]
fn collection_steps_report_items_and_state() {
    let mut state = RenderedTextCollectionState::default();
    let items = rendered_text_collection_steps(&block(TextElementKind::Paragraph, "hi "), &mut state);
    assert_eq!(
        items,
        vec![
            InnerOrOuterTextItem::RequiredLineBreakCount(2),
            InnerOrOuterTextItem::Text("hi".to_string()),
            InnerOrOuterTextItem::RequiredLineBreakCount(2),
        ]
    );
    assert!(state.may_start_with_whitespace && !state.did_truncate_trailing_white_space);
}

#[test]
fn joining_drops_leading_and_trailing_line_breaks() {
    let items = vec![
        InnerOrOuterTextItem::RequiredLineBreakCount(2),
        InnerOrOuterTextItem::Text("a".to_string()),
        InnerOrOuterTextItem::RequiredLineBreakCount(1),
        InnerOrOuterTextItem::Text(String::new()),
        InnerOrOuterTextItem::RequiredLineBreakCount(2),
        InnerOrOuterTextItem::Text("b".to_string()),
        InnerOrOuterTextItem::RequiredLineBreakCount(3),
    ];
    assert_eq!(join_text_items(&items), "a\n\nb");
    assert_eq!(join_text_items(&vec![]), "");
}
