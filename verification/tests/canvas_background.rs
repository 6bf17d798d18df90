use havi::canvas_background::{
    first_box_fragment_with_flag, fragment_is_descendant_of, resolve_document_canvas_background,
    suppress_background_paint_for_source, CanvasBackgroundSource, CanvasFlag, CanvasFragment, DocumentCanvasBackground,
    FragmentTag,
};
use havi::offset_parent::AuRect;

fn boxed(parent: Option<usize>, node: Option<u64>, supplies: bool, background: u64) -> CanvasFragment {
    CanvasFragment {
        parent,
        is_box: true,
        is_root_element: false,
        is_body_of_html_root: false,
        tag: node.map(|node| FragmentTag { node, pseudo: None }),
        supplies_background: supplies,
        background,
    }
}

/// html (0) > body (1) > anonymous box (2) and text (3); a second box of
/// the body (4) carries its tag.
fn document(root_supplies: bool, body_supplies: bool) -> Vec<CanvasFragment> {
    let mut root = boxed(None, Some(10), root_supplies, 1);
    root.is_root_element = true;
    let mut body = boxed(Some(0), Some(11), body_supplies, 2);
    body.is_body_of_html_root = true;
    let anonymous = boxed(Some(1), None, false, 2);
    let mut text = boxed(Some(1), None, false, 2);
    text.is_box = false;
    let body_continuation = boxed(Some(1), Some(11), false, 2);
    vec![root, body, anonymous, text, body_continuation]
}

fn icb() -> AuRect {
    AuRect { x: 0, y: 0, width: 48000, height: 36000 }
}

#[test]
fn root_background_paints_the_canvas() {
    let nodes = document(true, true);
    let mut suppress = vec![false; nodes.len()];
    let r = resolve_document_canvas_background(&nodes, icb(), &mut suppress);
    assert_eq!(
        r,
        Some(DocumentCanvasBackground {
            source_kind: CanvasBackgroundSource::RootElement,
            source_fragment_id: 0,
            paint_rect: icb(),
        })
    );
    assert_eq!(suppress, vec![true, false, false, false, false]);
}

#[test]
fn body_background_propagates_when_root_is_empty() {
    let nodes = document(false, true);
    let mut suppress = vec![false; nodes.len()];
    let r = resolve_document_canvas_background(&nodes, icb(), &mut suppress);
    assert_eq!(r.map(|bg| (bg.source_kind, bg.source_fragment_id)), Some((CanvasBackgroundSource::PropagatedHtmlBody, 1)));
    // The body, its anonymous box of the same background, and the other box
    // of the body's node; never the text, which paints no background.
    assert_eq!(suppress, vec![false, true, true, false, true]);
}

#[test]
fn no_canvas_background_when_both_are_empty() {
    let nodes = document(false, false);
    let mut suppress = vec![false, true, false, false, false];
    assert_eq!(resolve_document_canvas_background(&nodes, icb(), &mut suppress), None);
    assert_eq!(suppress, vec![false, true, false, false, false]);
    let mut suppress = vec![false; 0];
    assert_eq!(resolve_document_canvas_background(&vec![], icb(), &mut suppress), None);
}

#[test]
fn anonymous_boxes_with_another_background_keep_it() {
    let mut nodes = document(false, true);
    nodes[2].background = 7;
    let mut suppress = vec![false; nodes.len()];
    suppress_background_paint_for_source(&nodes, 1, &mut suppress);
    assert_eq!(suppress, vec![false, true, false, false, true]);
}

#[test]
fn first_box_and_ancestors() {
    let nodes = document(true, true);
    assert_eq!(first_box_fragment_with_flag(&nodes, CanvasFlag::RootElement), Some(0));
    assert_eq!(first_box_fragment_with_flag(&nodes, CanvasFlag::BodyOfHtmlRoot), Some(1));
    assert_eq!(first_box_fragment_with_flag(&nodes[2..].to_vec(), CanvasFlag::BodyOfHtmlRoot), None);
    assert!(fragment_is_descendant_of(&nodes, 3, 0));
    assert!(fragment_is_descendant_of(&nodes, 2, 1));
    assert!(!fragment_is_descendant_of(&nodes, 1, 1));
    assert!(!fragment_is_descendant_of(&nodes, 0, 1));
    assert!(!fragment_is_descendant_of(&nodes, 2, 4));
}
