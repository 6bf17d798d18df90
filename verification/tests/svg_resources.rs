use havi::svg_dependencies::collect_subtree_resource_dependencies;
use havi::svg_resources::{
    OpaqueNode, SVGDependency, SVGDependencyTarget, SVGPaintServerKind, SVGResourceGraph, SVGResourceGraphNode,
    SVGResourceId, SVGResourceKind,
};
use havi::svg_types::{SVGDependencyKind, SVGLayoutNodeKind, SVGResourceReferenceInputs};

fn node(id: usize, kind: SVGLayoutNodeKind) -> SVGResourceGraphNode {
    SVGResourceGraphNode::new(OpaqueNode(id), kind)
}

fn geometry(id: usize, parent: usize) -> SVGResourceGraphNode {
    SVGResourceGraphNode {
        node: OpaqueNode(id),
        parent: Some(OpaqueNode(parent)),
        kind: SVGLayoutNodeKind::Geometry,
        element_id: None,
        fill_paint_server: None,
        stroke_paint_server: None,
        resources: SVGResourceReferenceInputs::default(),
        href: None,
        defined_resource: None,
        establishes_viewport: false,
        participates_in_paint: true,
    }
}

#[test]
fn resolves_gradient_and_clip_references() {
    let graph = SVGResourceGraph::build(&[
        node(1, SVGLayoutNodeKind::Viewport).with_element_id("root".to_string()),
        node(2, SVGLayoutNodeKind::Gradient).with_parent(OpaqueNode(1)).with_element_id("grad".to_string()),
        node(3, SVGLayoutNodeKind::ClipPath).with_parent(OpaqueNode(1)).with_element_id("clip".to_string()),
        SVGResourceGraphNode {
            node: OpaqueNode(4),
            parent: Some(OpaqueNode(1)),
            kind: SVGLayoutNodeKind::Geometry,
            element_id: None,
            fill_paint_server: Some("url(#grad)".to_string()),
            stroke_paint_server: None,
            resources: SVGResourceReferenceInputs { clip_path: Some("url(#clip)".to_string()), ..Default::default() },
            href: None,
            defined_resource: None,
            establishes_viewport: false,
            participates_in_paint: true,
        },
    ]);

    let resolved = graph.node_resources(OpaqueNode(4)).unwrap();
    assert_eq!(resolved.paint_servers.fill, Some(SVGResourceId(0)));
    assert_eq!(resolved.resources.clip_path, Some(SVGResourceId(1)));
    assert_eq!(
        graph.reverse_dependencies_for_resource(SVGResourceId(0)),
        &[SVGDependency { kind: SVGDependencyKind::PaintServer, target: SVGDependencyTarget::Node(OpaqueNode(4)) }]
    );
    assert_eq!(
        graph.reverse_dependencies_for_resource(SVGResourceId(1)),
        &[SVGDependency { kind: SVGDependencyKind::ClipPath, target: SVGDependencyTarget::Node(OpaqueNode(4)) }]
    );
}

#[test]
fn builds_use_instance_dependencies() {
    let graph = SVGResourceGraph::build(&[
        node(1, SVGLayoutNodeKind::Viewport),
        node(2, SVGLayoutNodeKind::Geometry).with_parent(OpaqueNode(1)).with_element_id("shape".to_string()),
        node(3, SVGLayoutNodeKind::Use).with_parent(OpaqueNode(1)).with_href("#shape".to_string()),
    ]);

    let resolved = graph.node_resources(OpaqueNode(3)).unwrap();
    let use_resource = resolved.use_instance_source.expect("use resource");
    assert_eq!(resolved.referenced_node, Some(OpaqueNode(2)));
    assert_eq!(
        graph.reverse_dependencies_for_node(OpaqueNode(2)),
        &[SVGDependency { kind: SVGDependencyKind::UseSource, target: SVGDependencyTarget::Resource(use_resource) }]
    );
    assert_eq!(
        graph.reverse_dependencies_for_resource(use_resource),
        &[SVGDependency { kind: SVGDependencyKind::UseSource, target: SVGDependencyTarget::Node(OpaqueNode(3)) }]
    );
}

#[test]
fn descendant_nodes_feed_resource_owner_dependencies() {
    let graph = SVGResourceGraph::build(&[
        node(1, SVGLayoutNodeKind::Viewport),
        node(2, SVGLayoutNodeKind::ClipPath).with_parent(OpaqueNode(1)).with_element_id("clip".to_string()),
        node(3, SVGLayoutNodeKind::Geometry).with_parent(OpaqueNode(2)),
    ]);

    assert_eq!(
        graph.reverse_dependencies_for_node(OpaqueNode(3)),
        &[SVGDependency { kind: SVGDependencyKind::ClipPath, target: SVGDependencyTarget::Resource(SVGResourceId(0)) }]
    );
}

#[test]
fn pattern_node_creates_paint_server_resource() {
    let graph = SVGResourceGraph::build(&[
        node(1, SVGLayoutNodeKind::Viewport),
        node(2, SVGLayoutNodeKind::Pattern).with_parent(OpaqueNode(1)).with_element_id("pat".to_string()),
    ]);

    let resource_id = graph.resource_for_element_id("pat").expect("pattern resource");
    assert!(matches!(
        graph.resource(resource_id),
        Some(SVGResourceKind::PaintServer(SVGPaintServerKind::Pattern))
    ));
}

#[test]
fn filter_node_creates_filter_resource() {
    let graph = SVGResourceGraph::build(&[
        node(1, SVGLayoutNodeKind::Viewport),
        node(2, SVGLayoutNodeKind::Filter).with_parent(OpaqueNode(1)).with_element_id("blur".to_string()),
    ]);

    let resource_id = graph.resource_for_element_id("blur").expect("filter resource");
    assert!(matches!(graph.resource(resource_id), Some(SVGResourceKind::Filter)));
}

#[test]
fn marker_node_creates_marker_resource() {
    let graph = SVGResourceGraph::build(&[
        node(1, SVGLayoutNodeKind::Viewport),
        node(2, SVGLayoutNodeKind::Marker).with_parent(OpaqueNode(1)).with_element_id("arrow".to_string()),
    ]);

    let resource_id = graph.resource_for_element_id("arrow").expect("marker resource");
    assert!(matches!(graph.resource(resource_id), Some(SVGResourceKind::Marker)));
}

#[test]
fn textpath_node_does_not_define_a_resource() {
    let graph = SVGResourceGraph::build(&[
        node(1, SVGLayoutNodeKind::Viewport),
        node(2, SVGLayoutNodeKind::Geometry).with_parent(OpaqueNode(1)).with_element_id("curve".to_string()),
        node(3, SVGLayoutNodeKind::Text).with_parent(OpaqueNode(1)),
        SVGResourceGraphNode {
            node: OpaqueNode(4),
            parent: Some(OpaqueNode(3)),
            kind: SVGLayoutNodeKind::TextPath,
            element_id: None,
            fill_paint_server: None,
            stroke_paint_server: None,
            resources: SVGResourceReferenceInputs::default(),
            href: Some("curve".to_string()),
            defined_resource: None,
            establishes_viewport: false,
            participates_in_paint: true,
        },
    ]);

    assert!(graph.resource_id_for_node(OpaqueNode(4)).is_none());
}

#[test]
fn pattern_filter_marker_do_not_participate_in_paint() {
    let graph = SVGResourceGraph::build(&[
        node(1, SVGLayoutNodeKind::Viewport),
        node(2, SVGLayoutNodeKind::Pattern).with_parent(OpaqueNode(1)).with_element_id("pat".to_string()),
        node(3, SVGLayoutNodeKind::Filter).with_parent(OpaqueNode(1)).with_element_id("flt".to_string()),
        node(4, SVGLayoutNodeKind::Marker).with_parent(OpaqueNode(1)).with_element_id("mrk".to_string()),
    ]);

    assert!(!graph.node_info(OpaqueNode(2)).unwrap().participates_in_paint);
    assert!(!graph.node_info(OpaqueNode(3)).unwrap().participates_in_paint);
    assert!(!graph.node_info(OpaqueNode(4)).unwrap().participates_in_paint);
}

#[test]
fn pattern_fill_reference_creates_reverse_dependency() {
    let graph = SVGResourceGraph::build(&[
        node(1, SVGLayoutNodeKind::Viewport),
        node(2, SVGLayoutNodeKind::Pattern).with_parent(OpaqueNode(1)).with_element_id("pat".to_string()),
        SVGResourceGraphNode { fill_paint_server: Some("#pat".to_string()), ..geometry(3, 1) },
    ]);

    let resource_id = graph.resource_for_element_id("pat").expect("pattern resource");
    let resolved = graph.node_resources(OpaqueNode(3)).unwrap();
    assert_eq!(resolved.paint_servers.fill, Some(resource_id));
    assert!(graph
        .reverse_dependencies_for_resource(resource_id)
        .iter()
        .any(|dep| dep.kind == SVGDependencyKind::PaintServer
            && dep.target == SVGDependencyTarget::Node(OpaqueNode(3))));
}

#[test]
fn filter_reference_creates_reverse_dependency() {
    let graph = SVGResourceGraph::build(&[
        node(1, SVGLayoutNodeKind::Viewport),
        node(2, SVGLayoutNodeKind::Filter).with_parent(OpaqueNode(1)).with_element_id("blur".to_string()),
        SVGResourceGraphNode {
            resources: SVGResourceReferenceInputs { filter: Some("#blur".to_string()), ..Default::default() },
            ..geometry(3, 1)
        },
    ]);

    let resource_id = graph.resource_for_element_id("blur").expect("filter resource");
    let resolved = graph.node_resources(OpaqueNode(3)).unwrap();
    assert_eq!(resolved.resources.filter, Some(resource_id));
    assert!(graph
        .reverse_dependencies_for_resource(resource_id)
        .iter()
        .any(|dep| dep.kind == SVGDependencyKind::Filter && dep.target == SVGDependencyTarget::Node(OpaqueNode(3))));
}

#[test]
fn marker_reference_creates_reverse_dependency() {
    let graph = SVGResourceGraph::build(&[
        node(1, SVGLayoutNodeKind::Viewport),
        node(2, SVGLayoutNodeKind::Marker).with_parent(OpaqueNode(1)).with_element_id("arrow".to_string()),
        SVGResourceGraphNode {
            resources: SVGResourceReferenceInputs {
                marker_start: Some("#arrow".to_string()),
                marker_end: Some("#arrow".to_string()),
                ..Default::default()
            },
            ..geometry(3, 1)
        },
    ]);

    let resource_id = graph.resource_for_element_id("arrow").expect("marker resource");
    let resolved = graph.node_resources(OpaqueNode(3)).unwrap();
    assert_eq!(resolved.resources.marker_start, Some(resource_id));
    assert_eq!(resolved.resources.marker_end, Some(resource_id));
    let deps = graph.reverse_dependencies_for_resource(resource_id);
    assert_eq!(deps.len(), 1);
    assert!(deps
        .iter()
        .all(|dep| dep.kind == SVGDependencyKind::Marker && dep.target == SVGDependencyTarget::Node(OpaqueNode(3))));
}

#[test]
fn textpath_href_creates_textpath_source_dependency() {
    let graph = SVGResourceGraph::build(&[
        node(1, SVGLayoutNodeKind::Viewport),
        node(2, SVGLayoutNodeKind::Geometry).with_parent(OpaqueNode(1)).with_element_id("curve".to_string()),
        node(3, SVGLayoutNodeKind::Text).with_parent(OpaqueNode(1)),
        SVGResourceGraphNode {
            node: OpaqueNode(4),
            parent: Some(OpaqueNode(3)),
            kind: SVGLayoutNodeKind::TextPath,
            element_id: None,
            fill_paint_server: None,
            stroke_paint_server: None,
            resources: SVGResourceReferenceInputs::default(),
            href: Some("curve".to_string()),
            defined_resource: None,
            establishes_viewport: false,
            participates_in_paint: true,
        },
    ]);

    assert_eq!(
        graph.reverse_dependencies_for_node(OpaqueNode(2)),
        &[SVGDependency { kind: SVGDependencyKind::TextPathSource, target: SVGDependencyTarget::Node(OpaqueNode(4)) }]
    );
}

#[test]
fn pattern_template_href_creates_pattern_dependency() {
    let graph = SVGResourceGraph::build(&[
        node(1, SVGLayoutNodeKind::Viewport),
        node(2, SVGLayoutNodeKind::Pattern).with_parent(OpaqueNode(1)).with_element_id("base".to_string()),
        SVGResourceGraphNode {
            node: OpaqueNode(3),
            parent: Some(OpaqueNode(1)),
            kind: SVGLayoutNodeKind::Pattern,
            element_id: Some("derived".to_string()),
            fill_paint_server: None,
            stroke_paint_server: None,
            resources: SVGResourceReferenceInputs::default(),
            href: Some("base".to_string()),
            defined_resource: None,
            establishes_viewport: false,
            participates_in_paint: false,
        },
    ]);

    let base_id = graph.resource_for_element_id("base").expect("base pattern resource");
    let derived_id = graph.resource_for_element_id("derived").expect("derived pattern resource");

    assert!(graph
        .reverse_dependencies_for_resource(base_id)
        .iter()
        .any(|dep| dep.kind == SVGDependencyKind::Pattern && dep.target == SVGDependencyTarget::Resource(derived_id)));
}

#[test]
fn repeated_references_are_filed_once_and_children_listed() {
    let graph = SVGResourceGraph::build(&[
        node(1, SVGLayoutNodeKind::Viewport),
        node(2, SVGLayoutNodeKind::Gradient).with_parent(OpaqueNode(1)).with_element_id("g".to_string()),
        SVGResourceGraphNode {
            fill_paint_server: Some("url(#g)".to_string()),
            stroke_paint_server: Some("#g".to_string()),
            ..geometry(3, 1)
        },
        geometry(4, 3),
    ]);
    assert_eq!(
        graph.reverse_dependencies_for_resource(SVGResourceId(0)),
        &[SVGDependency { kind: SVGDependencyKind::PaintServer, target: SVGDependencyTarget::Node(OpaqueNode(3)) }]
    );
    assert_eq!(graph.children_of(OpaqueNode(1)), &[OpaqueNode(2), OpaqueNode(3)]);
    assert_eq!(graph.children_of(OpaqueNode(9)), &[] as &[OpaqueNode]);
    assert_eq!(graph.descendants_of(OpaqueNode(1)), vec![OpaqueNode(2), OpaqueNode(3), OpaqueNode(4)]);
    assert_eq!(graph.resource_owner(SVGResourceId(0)), Some(OpaqueNode(2)));
    assert_eq!(graph.resource_owner(SVGResourceId(5)), None);
    assert_eq!(graph.node_for_element_id("g"), Some(OpaqueNode(2)));
    assert_eq!(graph.resources(), &[SVGResourceKind::PaintServer(SVGPaintServerKind::Gradient)]);
    assert_eq!(graph.resource(SVGResourceId(1)), None);
}

#[test]
fn unresolved_references_record_nothing() {
    let graph = SVGResourceGraph::build(&[
        node(1, SVGLayoutNodeKind::Viewport),
        SVGResourceGraphNode {
            fill_paint_server: Some("url(other.svg#g)".to_string()),
            resources: SVGResourceReferenceInputs { mask: Some("#missing".to_string()), ..Default::default() },
            ..geometry(2, 1)
        },
        node(3, SVGLayoutNodeKind::Use).with_parent(OpaqueNode(1)).with_href("#nowhere".to_string()),
    ]);
    let resolved = graph.node_resources(OpaqueNode(2)).unwrap();
    assert_eq!(resolved.paint_servers.fill, None);
    assert_eq!(resolved.resources.mask, None);
    let use_node = graph.node_resources(OpaqueNode(3)).unwrap();
    assert_eq!(use_node.use_instance_source, None);
    assert_eq!(use_node.referenced_node, None);
    assert!(graph.resources().is_empty());
    assert!(graph.reverse_dependencies_for_node(OpaqueNode(2)).is_empty());
}

#[test]
fn explicit_resource_overrides_kind_default() {
    let graph = SVGResourceGraph::build(&[
        node(1, SVGLayoutNodeKind::Group).with_defined_resource(SVGResourceKind::Mask).with_element_id("m".to_string()),
        geometry(2, 1),
    ]);
    assert_eq!(graph.resource(SVGResourceId(0)), Some(&SVGResourceKind::Mask));
    assert_eq!(graph.node_info(OpaqueNode(1)).unwrap().defined_resource, Some(SVGResourceId(0)));
    assert_eq!(
        graph.reverse_dependencies_for_node(OpaqueNode(2)),
        &[SVGDependency { kind: SVGDependencyKind::Mask, target: SVGDependencyTarget::Resource(SVGResourceId(0)) }]
    );
}

#[test]
fn subtree_dependencies_are_listed_in_id_order_once() {
    let with_refs = |id: usize, fill: &str, clip: Option<&str>| SVGResourceGraphNode {
        fill_paint_server: Some(fill.to_string()),
        resources: SVGResourceReferenceInputs { clip_path: clip.map(|c| c.to_string()), ..Default::default() },
        ..geometry(id, 1)
    };
    let graph = SVGResourceGraph::build(&[
        node(1, SVGLayoutNodeKind::Viewport),
        node(2, SVGLayoutNodeKind::Gradient).with_parent(OpaqueNode(1)).with_element_id("grad".to_string()),
        node(3, SVGLayoutNodeKind::ClipPath).with_parent(OpaqueNode(1)).with_element_id("clip".to_string()),
        node(5, SVGLayoutNodeKind::Pattern).with_parent(OpaqueNode(1)).with_element_id("pat".to_string()),
        with_refs(6, "url(#pat)", Some("url(#clip)")),
        with_refs(7, "url(#grad)", Some("url(#clip)")),
    ]);
    let ids = collect_subtree_resource_dependencies(&graph, &vec![OpaqueNode(6), OpaqueNode(7), OpaqueNode(3)]);
    assert_eq!(ids, vec![SVGResourceId(0), SVGResourceId(1), SVGResourceId(2)]);
    assert_eq!(collect_subtree_resource_dependencies(&graph, &vec![OpaqueNode(1)]), vec![]);
    assert_eq!(collect_subtree_resource_dependencies(&graph, &vec![OpaqueNode(5)]), vec![SVGResourceId(2)]);
}

#[test]
fn resources_are_numbered_definitions_first_then_use_instances() {
    let graph = SVGResourceGraph::build(&[
        node(1, SVGLayoutNodeKind::Viewport),
        node(2, SVGLayoutNodeKind::Use).with_parent(OpaqueNode(1)).with_href("#shape".to_string()),
        node(3, SVGLayoutNodeKind::Mask).with_parent(OpaqueNode(1)),
        geometry(4, 1).with_element_id("shape".to_string()),
        node(5, SVGLayoutNodeKind::Use).with_parent(OpaqueNode(1)).with_href("#missing".to_string()),
        node(6, SVGLayoutNodeKind::Marker).with_parent(OpaqueNode(1)),
        node(7, SVGLayoutNodeKind::Use).with_parent(OpaqueNode(1)).with_href("#shape".to_string()),
    ]);
    assert_eq!(graph.resources().len(), 4);
    assert_eq!(graph.resource_id_for_node(OpaqueNode(3)), Some(SVGResourceId(0)));
    assert_eq!(graph.resource_id_for_node(OpaqueNode(6)), Some(SVGResourceId(1)));
    assert_eq!(graph.resource_id_for_node(OpaqueNode(2)), Some(SVGResourceId(2)));
    assert_eq!(graph.resource_id_for_node(OpaqueNode(7)), Some(SVGResourceId(3)));
    assert_eq!(graph.resource_id_for_node(OpaqueNode(5)), None);
    assert_eq!(graph.resource_id_for_node(OpaqueNode(4)), None);
    for id in 0..4u32 {
        let owner = graph.resource_owner(SVGResourceId(id)).unwrap();
        assert_eq!(graph.resource_id_for_node(owner), Some(SVGResourceId(id)));
    }
    assert_eq!(graph.resource_owner(SVGResourceId(4)), None);
}

#[test]
fn parent_cycle_through_a_resource_owner_still_builds() {
    let graph = SVGResourceGraph::build(&[
        node(1, SVGLayoutNodeKind::Group).with_parent(OpaqueNode(2)),
        node(2, SVGLayoutNodeKind::Mask).with_parent(OpaqueNode(1)),
    ]);
    assert_eq!(graph.resource_id_for_node(OpaqueNode(2)), Some(SVGResourceId(0)));
    assert_eq!(
        graph.reverse_dependencies_for_node(OpaqueNode(1)),
        &[SVGDependency { kind: SVGDependencyKind::Mask, target: SVGDependencyTarget::Resource(SVGResourceId(0)) }]
    );
}
