use havi::svg_style::inline_style_property;
use havi::svg_reference::normalize_local_reference;
use havi::svg_types::{
    first_cut_support, summarize_node_kind, SVGDeferredFeature, SVGFirstCutProperty, SVGFirstCutTag,
    SVGLayoutNodeKind, SVGNodeKindTag, SVGResourceReferenceInputs, SVGStandaloneDocumentSupport,
};

#[test]
fn summarizes_phase3_resource_nodes_and_textpath() {
    let pattern = summarize_node_kind(SVGNodeKindTag::Pattern);
    assert_eq!(pattern.kind, SVGLayoutNodeKind::Pattern);
    assert!(!pattern.participates_in_paint);

    let filter = summarize_node_kind(SVGNodeKindTag::Filter);
    assert_eq!(filter.kind, SVGLayoutNodeKind::Filter);
    assert!(!filter.participates_in_paint);

    let marker = summarize_node_kind(SVGNodeKindTag::Marker);
    assert_eq!(marker.kind, SVGLayoutNodeKind::Marker);
    assert!(!marker.participates_in_paint);

    let text_path = summarize_node_kind(SVGNodeKindTag::TextPath);
    assert_eq!(text_path.kind, SVGLayoutNodeKind::TextPath);
    assert!(text_path.participates_in_paint);
}

#[test]
fn only_viewports_establish_viewports() {
    let viewport = summarize_node_kind(SVGNodeKindTag::Viewport);
    assert_eq!(viewport.kind, SVGLayoutNodeKind::Viewport);
    assert!(viewport.establishes_viewport);
    assert!(viewport.participates_in_paint);
    let tspan = summarize_node_kind(SVGNodeKindTag::TSpan);
    assert_eq!(tspan.kind, SVGLayoutNodeKind::Text);
    assert!(!tspan.establishes_viewport);
    let defs = summarize_node_kind(SVGNodeKindTag::Defs);
    assert!(!defs.participates_in_paint);
    assert!(summarize_node_kind(SVGNodeKindTag::Image).participates_in_paint);
    assert!(!summarize_node_kind(SVGNodeKindTag::Gradient).participates_in_paint);
}

#[test]
fn local_reference_forms() {
    assert_eq!(normalize_local_reference("#grad"), Some("grad"));
    assert_eq!(normalize_local_reference("  # grad  "), Some("grad"));
    assert_eq!(normalize_local_reference("url(#clip)"), Some("clip"));
    assert_eq!(normalize_local_reference("url( #clip' )"), Some("clip"));
    assert_eq!(normalize_local_reference("url('#mask')"), Some("mask"));
    assert_eq!(normalize_local_reference("url(\"#mask\")"), Some("mask"));
    assert_eq!(normalize_local_reference("url(other.svg#mask)"), None);
    assert_eq!(normalize_local_reference("'plain'"), Some("plain"));
    assert_eq!(normalize_local_reference("plain"), Some("plain"));
    assert_eq!(normalize_local_reference(""), Some(""));
    assert_eq!(normalize_local_reference("url()"), None);
}

#[test]
fn first_cut_support_lists_scope() {
    let support = first_cut_support();
    assert_eq!(support.supported_tags.len(), 17);
    assert_eq!(support.supported_tags[0], SVGFirstCutTag::Svg);
    assert_eq!(support.supported_tags[16], SVGFirstCutTag::Image);
    assert_eq!(support.supported_properties[12], SVGFirstCutProperty::NonScalingStroke);
    assert_eq!(support.deferred_features.last(), Some(&SVGDeferredFeature::StandaloneDocuments));
    assert_eq!(support.standalone_documents, SVGStandaloneDocumentSupport::Deferred);
}

#[test]
fn reference_inputs_default_to_none() {
    let inputs = SVGResourceReferenceInputs::default();
    assert!(inputs.clip_path.is_none() && inputs.mask.is_none() && inputs.marker_end.is_none());
}

#[test]
fn inline_style_property_takes_last_matching_declaration() {
    assert_eq!(inline_style_property("stop-color: red; STOP-COLOR : blue ;x", "stop-color"), Some("blue".to_string()));
    assert_eq!(inline_style_property("stop-opacity:0.5", "stop-opacity"), Some("0.5".to_string()));
    assert_eq!(inline_style_property("fill:a:b", "fill"), Some("a:b".to_string()));
    assert_eq!(inline_style_property("fill red; stroke:", "fill"), None);
    assert_eq!(inline_style_property("stroke:", "stroke"), Some(String::new()));
    assert_eq!(inline_style_property("", "fill"), None);
}
