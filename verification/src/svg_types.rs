//! The vocabulary of SVG layout: node kinds and their summaries, hit-test
//! results, invalidation kinds, the first-cut feature set and resource
//! reference inputs.

use vstd::prelude::*;

verus! {

/// The kind of an SVG element in the layout tree.
#[derive(Clone, Copy, Debug, Eq, PartialEq, Structural)]
pub enum SVGLayoutNodeKind {
    Viewport,
    Group,
    Geometry,
    Text,
    TextPath,
    Defs,
    Use,
    Gradient,
    Stop,
    ClipPath,
    Mask,
    Pattern,
    Filter,
    Marker,
    ForeignObject,
    Image,
}

/// What layout needs to know of an SVG element before laying it out.
#[derive(Clone, Copy, Debug, Eq, PartialEq)]
pub struct SVGLayoutNodeSummary {
    pub kind: SVGLayoutNodeKind,
    pub establishes_viewport: bool,
    pub participates_in_paint: bool,
}

/// The element kinds that the DOM reports for SVG nodes, without their
/// element data.
#[derive(Clone, Copy, Debug, Eq, PartialEq)]
pub enum SVGNodeKindTag {
    Viewport,
    Group,
    Geometry,
    Text,
    TSpan,
    TextPath,
    Defs,
    Use,
    Gradient,
    Stop,
    ClipPath,
    Mask,
    ForeignObject,
    Pattern,
    Filter,
    Marker,
    Image,
}

/// The layout kind of a DOM element kind: `<text>` and `<tspan>` are both
/// text; every other kind has a layout kind of its own.
pub open spec fn layout_kind_of(tag: SVGNodeKindTag) -> SVGLayoutNodeKind {
    match tag {
        SVGNodeKindTag::Viewport => SVGLayoutNodeKind::Viewport,
        SVGNodeKindTag::Group => SVGLayoutNodeKind::Group,
        SVGNodeKindTag::Geometry => SVGLayoutNodeKind::Geometry,
        SVGNodeKindTag::Text | SVGNodeKindTag::TSpan => SVGLayoutNodeKind::Text,
        SVGNodeKindTag::TextPath => SVGLayoutNodeKind::TextPath,
        SVGNodeKindTag::Defs => SVGLayoutNodeKind::Defs,
        SVGNodeKindTag::Use => SVGLayoutNodeKind::Use,
        SVGNodeKindTag::Gradient => SVGLayoutNodeKind::Gradient,
        SVGNodeKindTag::Stop => SVGLayoutNodeKind::Stop,
        SVGNodeKindTag::ClipPath => SVGLayoutNodeKind::ClipPath,
        SVGNodeKindTag::Mask => SVGLayoutNodeKind::Mask,
        SVGNodeKindTag::ForeignObject => SVGLayoutNodeKind::ForeignObject,
        SVGNodeKindTag::Pattern => SVGLayoutNodeKind::Pattern,
        SVGNodeKindTag::Filter => SVGLayoutNodeKind::Filter,
        SVGNodeKindTag::Marker => SVGLayoutNodeKind::Marker,
        SVGNodeKindTag::Image => SVGLayoutNodeKind::Image,
    }
}

/// Whether elements of a layout kind are painted themselves, as opposed to
/// definitions that other elements refer to.
pub open spec fn kind_participates_in_paint(kind: SVGLayoutNodeKind) -> bool {
    match kind {
        SVGLayoutNodeKind::Viewport
        | SVGLayoutNodeKind::Group
        | SVGLayoutNodeKind::Geometry
        | SVGLayoutNodeKind::Text
        | SVGLayoutNodeKind::TextPath
        | SVGLayoutNodeKind::Use
        | SVGLayoutNodeKind::ForeignObject
        | SVGLayoutNodeKind::Image => true,
        _ => false,
    }
}

/// The summary of an element of the given DOM kind: only viewports establish
/// a viewport, and the element paints as its layout kind does.
pub fn summarize_node_kind(tag: SVGNodeKindTag) -> (r: SVGLayoutNodeSummary)
    ensures
        r.kind == layout_kind_of(tag),
        r.establishes_viewport == (tag == SVGNodeKindTag::Viewport),
        r.participates_in_paint == kind_participates_in_paint(layout_kind_of(tag)),
{
    let (kind, establishes_viewport, participates_in_paint) = match tag {
        SVGNodeKindTag::Viewport => (SVGLayoutNodeKind::Viewport, true, true),
        SVGNodeKindTag::Group => (SVGLayoutNodeKind::Group, false, true),
        SVGNodeKindTag::Geometry => (SVGLayoutNodeKind::Geometry, false, true),
        SVGNodeKindTag::Text | SVGNodeKindTag::TSpan => (SVGLayoutNodeKind::Text, false, true),
        SVGNodeKindTag::TextPath => (SVGLayoutNodeKind::TextPath, false, true),
        SVGNodeKindTag::Defs => (SVGLayoutNodeKind::Defs, false, false),
        SVGNodeKindTag::Use => (SVGLayoutNodeKind::Use, false, true),
        SVGNodeKindTag::Gradient => (SVGLayoutNodeKind::Gradient, false, false),
        SVGNodeKindTag::Stop => (SVGLayoutNodeKind::Stop, false, false),
        SVGNodeKindTag::ClipPath => (SVGLayoutNodeKind::ClipPath, false, false),
        SVGNodeKindTag::Mask => (SVGLayoutNodeKind::Mask, false, false),
        SVGNodeKindTag::ForeignObject => (SVGLayoutNodeKind::ForeignObject, false, true),
        SVGNodeKindTag::Pattern => (SVGLayoutNodeKind::Pattern, false, false),
        SVGNodeKindTag::Filter => (SVGLayoutNodeKind::Filter, false, false),
        SVGNodeKindTag::Marker => (SVGLayoutNodeKind::Marker, false, false),
        SVGNodeKindTag::Image => (SVGLayoutNodeKind::Image, false, true),
    };
    SVGLayoutNodeSummary { kind, establishes_viewport, participates_in_paint }
}

/// What part of a shape a hit test reached.
#[derive(Clone, Copy, Debug, Eq, PartialEq)]
pub enum SVGHitTargetKind {
    Fill,
    Stroke,
    BoundingBox,
}

/// The outcome of a hit test against a shape.
#[derive(Clone, Copy, Debug, Eq, PartialEq)]
pub struct SVGHitTestResult {
    pub hit: bool,
    pub target: SVGHitTargetKind,
}

/// What a change to an SVG element invalidates.
#[derive(Clone, Copy, Debug, Eq, PartialEq)]
pub enum SVGInvalidationKind {
    Paint,
    Geometry,
    Transform,
    ResourceDependency,
    Bounds,
    HitTest,
}

/// The invalidations that a set of changes calls for.
#[derive(Clone, Debug, Default)]
pub struct SVGInvalidationSet {
    pub kinds: Vec<SVGInvalidationKind>,
}

/// The elements of the first cut of SVG support.
#[derive(Clone, Copy, Debug, Eq, PartialEq)]
pub enum SVGFirstCutTag {
    Svg,
    G,
    Path,
    Rect,
    Circle,
    Ellipse,
    Line,
    Polyline,
    Polygon,
    Defs,
    Use,
    LinearGradient,
    RadialGradient,
    Stop,
    ClipPath,
    ForeignObject,
    Image,
}

/// The properties of the first cut of SVG support.
#[derive(Clone, Copy, Debug, Eq, PartialEq)]
pub enum SVGFirstCutProperty {
    Transform,
    ViewBox,
    PreserveAspectRatio,
    SolidFillAndStroke,
    GradientPaint,
    CurrentColor,
    Display,
    Visibility,
    Opacity,
    PointerEvents,
    FillRule,
    ClipRule,
    NonScalingStroke,
}

/// Features left out of the first cut of SVG support.
#[derive(Clone, Copy, Debug, Eq, PartialEq)]
pub enum SVGDeferredFeature {
    FullFilterCoverage,
    FullMaskCoverage,
    Markers,
    Patterns,
    Animation,
    TextPath,
    FullDomApiParity,
    StandaloneDocuments,
}

/// Whether standalone SVG documents are supported.
#[derive(Clone, Copy, Debug, Eq, PartialEq)]
pub enum SVGStandaloneDocumentSupport {
    InScope,
    Deferred,
}

/// The scope of the first cut of SVG support.
#[derive(Clone, Copy, Debug)]
pub struct SVGFirstCutSupport {
    pub supported_tags: &'static [SVGFirstCutTag],
    pub supported_properties: &'static [SVGFirstCutProperty],
    pub deferred_features: &'static [SVGDeferredFeature],
    pub standalone_documents: SVGStandaloneDocumentSupport,
}

/// The `clip-path`, `mask`, `filter` and `marker-*` references of an element,
/// as written.
#[derive(Clone, Debug, Default)]
pub struct SVGResourceReferenceInputs {
    pub clip_path: Option<String>,
    pub mask: Option<String>,
    pub filter: Option<String>,
    pub marker_start: Option<String>,
    pub marker_mid: Option<String>,
    pub marker_end: Option<String>,
}

/// Why one SVG node or resource depends on another.
#[derive(Clone, Copy, Debug, Eq, PartialEq, Structural)]
pub enum SVGDependencyKind {
    PaintServer,
    ClipPath,
    Mask,
    Filter,
    Marker,
    Pattern,
    GradientContent,
    GradientTemplate,
    UseSource,
    TextPathSource,
}

/// The `clip-path`, `mask`, `filter` and `marker-*` references of an
/// element's computed style.
#[derive(Clone, Debug, Default)]
pub struct SVGResourceReferenceStyle {
    pub clip_path: Option<String>,
    pub mask: Option<String>,
    pub filter: Option<String>,
    pub marker_start: Option<String>,
    pub marker_mid: Option<String>,
    pub marker_end: Option<String>,
}

/// The elements of the first cut, in the order the support table lists them.
pub open spec fn first_cut_tags() -> Seq<SVGFirstCutTag> {
    seq![
        SVGFirstCutTag::Svg,
        SVGFirstCutTag::G,
        SVGFirstCutTag::Path,
        SVGFirstCutTag::Rect,
        SVGFirstCutTag::Circle,
        SVGFirstCutTag::Ellipse,
        SVGFirstCutTag::Line,
        SVGFirstCutTag::Polyline,
        SVGFirstCutTag::Polygon,
        SVGFirstCutTag::Defs,
        SVGFirstCutTag::Use,
        SVGFirstCutTag::LinearGradient,
        SVGFirstCutTag::RadialGradient,
        SVGFirstCutTag::Stop,
        SVGFirstCutTag::ClipPath,
        SVGFirstCutTag::ForeignObject,
        SVGFirstCutTag::Image,
    ]
}

/// The properties of the first cut, in table order.
pub open spec fn first_cut_properties() -> Seq<SVGFirstCutProperty> {
    seq![
        SVGFirstCutProperty::Transform,
        SVGFirstCutProperty::ViewBox,
        SVGFirstCutProperty::PreserveAspectRatio,
        SVGFirstCutProperty::SolidFillAndStroke,
        SVGFirstCutProperty::GradientPaint,
        SVGFirstCutProperty::CurrentColor,
        SVGFirstCutProperty::Display,
        SVGFirstCutProperty::Visibility,
        SVGFirstCutProperty::Opacity,
        SVGFirstCutProperty::PointerEvents,
        SVGFirstCutProperty::FillRule,
        SVGFirstCutProperty::ClipRule,
        SVGFirstCutProperty::NonScalingStroke,
    ]
}

/// The features that the first cut defers, in table order.
pub open spec fn first_cut_deferred_features() -> Seq<SVGDeferredFeature> {
    seq![
        SVGDeferredFeature::FullFilterCoverage,
        SVGDeferredFeature::FullMaskCoverage,
        SVGDeferredFeature::Markers,
        SVGDeferredFeature::Patterns,
        SVGDeferredFeature::Animation,
        SVGDeferredFeature::TextPath,
        SVGDeferredFeature::FullDomApiParity,
        SVGDeferredFeature::StandaloneDocuments,
    ]
}

/// The first cut of SVG support: its elements, its properties, the features
/// it leaves out, and standalone documents deferred.
pub fn first_cut_support() -> (r: SVGFirstCutSupport)
    ensures
        r.supported_tags@ == first_cut_tags(),
        r.supported_properties@ == first_cut_properties(),
        r.deferred_features@ == first_cut_deferred_features(),
        r.standalone_documents == SVGStandaloneDocumentSupport::Deferred,
{
    let supported_tags: &'static [SVGFirstCutTag] = &[
        SVGFirstCutTag::Svg,
        SVGFirstCutTag::G,
        SVGFirstCutTag::Path,
        SVGFirstCutTag::Rect,
        SVGFirstCutTag::Circle,
        SVGFirstCutTag::Ellipse,
        SVGFirstCutTag::Line,
        SVGFirstCutTag::Polyline,
        SVGFirstCutTag::Polygon,
        SVGFirstCutTag::Defs,
        SVGFirstCutTag::Use,
        SVGFirstCutTag::LinearGradient,
        SVGFirstCutTag::RadialGradient,
        SVGFirstCutTag::Stop,
        SVGFirstCutTag::ClipPath,
        SVGFirstCutTag::ForeignObject,
        SVGFirstCutTag::Image,
    ];
    let supported_properties: &'static [SVGFirstCutProperty] = &[
        SVGFirstCutProperty::Transform,
        SVGFirstCutProperty::ViewBox,
        SVGFirstCutProperty::PreserveAspectRatio,
        SVGFirstCutProperty::SolidFillAndStroke,
        SVGFirstCutProperty::GradientPaint,
        SVGFirstCutProperty::CurrentColor,
        SVGFirstCutProperty::Display,
        SVGFirstCutProperty::Visibility,
        SVGFirstCutProperty::Opacity,
        SVGFirstCutProperty::PointerEvents,
        SVGFirstCutProperty::FillRule,
        SVGFirstCutProperty::ClipRule,
        SVGFirstCutProperty::NonScalingStroke,
    ];
    let deferred_features: &'static [SVGDeferredFeature] = &[
        SVGDeferredFeature::FullFilterCoverage,
        SVGDeferredFeature::FullMaskCoverage,
        SVGDeferredFeature::Markers,
        SVGDeferredFeature::Patterns,
        SVGDeferredFeature::Animation,
        SVGDeferredFeature::TextPath,
        SVGDeferredFeature::FullDomApiParity,
        SVGDeferredFeature::StandaloneDocuments,
    ];
    proof {
        assert(supported_tags@ =~= first_cut_tags());
        assert(supported_properties@ =~= first_cut_properties());
        assert(deferred_features@ =~= first_cut_deferred_features());
    }
    SVGFirstCutSupport {
        supported_tags,
        supported_properties,
        deferred_features,
        standalone_documents: SVGStandaloneDocumentSupport::Deferred,
    }
}

} // verus!
