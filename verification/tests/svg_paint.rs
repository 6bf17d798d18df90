use havi::svg_paint::{
    convert_resolved_paint, paint_from_syntax, paint_server_iri, parse_color, parse_paint, resolve_paint,
    resolved_node_resources, FallbackSyntax, PaintSyntax, SVGColorBytes, SVGPaint, SVGPaintFallback,
    SVGPaintServerReference, SVGResolvedPaint,
};
use havi::svg_resources::{OpaqueNode, SVGResourceGraph, SVGResourceGraphNode, SVGResourceId};
use havi::svg_types::SVGLayoutNodeKind;

type Color = (f32, f32, f32, f32);

const GREEN: Color = (0.0, 1.0, 0.0, 1.0);

fn graph_with_gradient() -> SVGResourceGraph {
    SVGResourceGraph::build(&[
        SVGResourceGraphNode::new(OpaqueNode(1), SVGLayoutNodeKind::Gradient).with_element_id("grad".to_string()),
        SVGResourceGraphNode::new(OpaqueNode(2), SVGLayoutNodeKind::ClipPath).with_element_id("clip".to_string()),
    ])
}

fn reference(iri: &str, fallback: Option<SVGPaintFallback<Color>>) -> SVGResolvedPaint<Color> {
    SVGResolvedPaint::ResourceReference(SVGPaintServerReference { iri: iri.to_owned(), fallback })
}

#[test]
fn convert_resolved_paint_accepts_func_iri_without_hash_prefix() {
    let resource_graph = graph_with_gradient();

    let paint = convert_resolved_paint(
        &resource_graph,
        OpaqueNode(0),
        &reference("grad", Some(SVGPaintFallback::SolidColor(GREEN))),
    );

    match paint {
        SVGPaint::Server(SVGResourceId(0)) => {},
        other => panic!("expected paint server resource, got {other:?}"),
    }
}

#[test]
fn references_fall_back_when_no_paint_server_is_named() {
    let graph = graph_with_gradient();
    assert_eq!(convert_resolved_paint(&graph, OpaqueNode(0), &reference(" #grad ", None)), SVGPaint::Server(SVGResourceId(0)));
    assert_eq!(
        convert_resolved_paint(&graph, OpaqueNode(0), &reference("#clip", Some(SVGPaintFallback::SolidColor(GREEN)))),
        SVGPaint::SolidColor(GREEN)
    );
    assert_eq!(
        convert_resolved_paint(&graph, OpaqueNode(0), &reference("#missing", Some(SVGPaintFallback::NoPaint))),
        SVGPaint::NoPaint
    );
    assert_eq!(convert_resolved_paint(&graph, OpaqueNode(0), &reference("#missing", None)), SVGPaint::NoPaint);
    assert_eq!(
        convert_resolved_paint(&graph, OpaqueNode(0), &SVGResolvedPaint::<Color>::CurrentColor),
        SVGPaint::CurrentColor
    );
    assert_eq!(convert_resolved_paint(&graph, OpaqueNode(0), &SVGResolvedPaint::SolidColor(GREEN)), SVGPaint::SolidColor(GREEN));
}

#[test]
fn paint_iris_and_node_resolutions() {
    assert_eq!(paint_server_iri(&reference("url-target", None)), Some("url-target".to_string()));
    assert_eq!(paint_server_iri(&SVGResolvedPaint::<Color>::ContextFill), None);
    let graph = graph_with_gradient();
    let known = resolved_node_resources(&graph, OpaqueNode(1));
    assert_eq!(known.paint_servers.fill, None);
    let unknown = resolved_node_resources(&graph, OpaqueNode(9));
    assert_eq!(unknown.use_instance_source, None);
}

#[derive(Clone, Copy, Debug, PartialEq)]
struct SVGColor {
    red: f32,
    green: f32,
    blue: f32,
    alpha: f32,
}

fn convert_svgtypes_color(color: SVGColorBytes) -> SVGColor {
    SVGColor {
        red: color.0 as f32 / 255.0,
        green: color.1 as f32 / 255.0,
        blue: color.2 as f32 / 255.0,
        alpha: color.3 as f32 / 255.0,
    }
}

#[test]
fn parse_paint_keeps_func_iri_fallback_color() {
    let current = SVGColor { red: 0.0, green: 0.0, blue: 0.0, alpha: 1.0 };
    let paint = parse_paint("url(#grad) green", current, &convert_svgtypes_color).expect("paint");
    match paint {
        SVGResolvedPaint::ResourceReference(reference) => {
            assert_eq!(reference.iri, "grad");
            match reference.fallback {
                Some(SVGPaintFallback::SolidColor(color)) => {
                    assert_eq!(color.green, 128.0 / 255.0);
                },
                other => panic!("unexpected fallback: {other:?}"),
            }
        },
        other => panic!("unexpected paint: {other:?}"),
    }
}

#[test]
fn parse_paint_preserves_context_and_currentcolor_variants() {
    let current = SVGColor { red: 1.0, green: 0.0, blue: 0.0, alpha: 1.0 };
    assert!(matches!(parse_paint("currentColor", current, &convert_svgtypes_color), Some(SVGResolvedPaint::CurrentColor)));
    assert!(matches!(parse_paint("context-fill", current, &convert_svgtypes_color), Some(SVGResolvedPaint::ContextFill)));
    assert!(matches!(
        parse_paint("context-stroke", current, &convert_svgtypes_color),
        Some(SVGResolvedPaint::ContextStroke)
    ));
}

#[test]
fn parse_paint_reads_keywords_and_colors() {
    let current = SVGColor { red: 1.0, green: 0.0, blue: 0.0, alpha: 1.0 };
    assert!(matches!(parse_paint("none", current, &convert_svgtypes_color), Some(SVGResolvedPaint::NoPaint)));
    assert!(parse_paint("inherit", current, &convert_svgtypes_color).is_none());
    assert!(parse_paint("not-a-paint", current, &convert_svgtypes_color).is_none());
    assert_eq!(
        parse_paint("#0000ff", current, &convert_svgtypes_color),
        Some(SVGResolvedPaint::SolidColor(SVGColor { red: 0.0, green: 0.0, blue: 1.0, alpha: 1.0 }))
    );
}

#[test]
fn parse_paint_reads_references_without_hash_leniently() {
    let current = SVGColor { red: 1.0, green: 0.0, blue: 0.0, alpha: 1.0 };
    match parse_paint("  url( grad ) currentColor ", current, &convert_svgtypes_color) {
        Some(SVGResolvedPaint::ResourceReference(reference)) => {
            assert_eq!(reference.iri, "grad");
            assert_eq!(reference.fallback, Some(SVGPaintFallback::SolidColor(current)));
        },
        other => panic!("unexpected paint: {other:?}"),
    }
    match parse_paint("url(grad) none", current, &convert_svgtypes_color) {
        Some(SVGResolvedPaint::ResourceReference(reference)) => {
            assert_eq!(reference.iri, "grad");
            assert_eq!(reference.fallback, Some(SVGPaintFallback::NoPaint));
        },
        other => panic!("unexpected paint: {other:?}"),
    }
    assert!(parse_paint("url() red", current, &convert_svgtypes_color).is_none());
    assert!(parse_paint("url(grad", current, &convert_svgtypes_color).is_none());
    assert!(parse_paint("url(grad) nonsense-color", current, &convert_svgtypes_color).is_none());
}

#[test]
fn parse_color_reads_named_and_hex_colors() {
    assert_eq!(parse_color("red", &|b: SVGColorBytes| b), Some(SVGColorBytes(255, 0, 0, 255)));
    assert_eq!(parse_color("#00800080", &|b: SVGColorBytes| b), Some(SVGColorBytes(0, 128, 0, 128)));
    assert_eq!(parse_color("nothing", &|b: SVGColorBytes| b), None);
}

#[test]
fn paint_from_syntax_maps_each_variant() {
    let current = (9u8, 9u8, 9u8, 9u8);
    let conv = |b: SVGColorBytes| (b.0, b.1, b.2, b.3);
    assert_eq!(paint_from_syntax(Some(PaintSyntax::NoPaint), current, &conv), Some(SVGResolvedPaint::NoPaint));
    assert_eq!(paint_from_syntax(Some(PaintSyntax::Inherit), current, &conv), None);
    assert_eq!(paint_from_syntax(None, current, &conv), None);
    assert_eq!(
        paint_from_syntax(Some(PaintSyntax::Color(SVGColorBytes(1, 2, 3, 4))), current, &conv),
        Some(SVGResolvedPaint::SolidColor((1, 2, 3, 4)))
    );
    assert_eq!(
        paint_from_syntax(
            Some(PaintSyntax::FuncIri("g".to_string(), Some(FallbackSyntax::CurrentColor))),
            current,
            &conv
        ),
        Some(SVGResolvedPaint::ResourceReference(SVGPaintServerReference {
            iri: "g".to_string(),
            fallback: Some(SVGPaintFallback::SolidColor(current)),
        }))
    );
}

#[test]
fn resolve_paint_inherits_on_absent_inherit_and_invalid_values() {
    let current = SVGColor { red: 1.0, green: 0.0, blue: 0.0, alpha: 1.0 };
    let inherited = SVGResolvedPaint::ContextStroke;
    let default = SVGResolvedPaint::NoPaint;
    assert_eq!(resolve_paint(None, current, Some(&inherited), default.clone(), &convert_svgtypes_color), inherited);
    assert_eq!(resolve_paint(Some(" inherit "), current, Some(&inherited), default.clone(), &convert_svgtypes_color), inherited);
    assert_eq!(resolve_paint(Some("bogus"), current, None, default.clone(), &convert_svgtypes_color), default);
    assert_eq!(
        resolve_paint(Some("currentColor"), current, Some(&inherited), default.clone(), &convert_svgtypes_color),
        SVGResolvedPaint::CurrentColor
    );
}
