//! Resolved SVG paints and their conversion to paints that reference the
//! resource graph. Colors are of any type `C`: the graph logic only passes
//! them through. `NoPaint` is the `none` paint.

use std::str::FromStr;

use svgtypes::{Paint, PaintFallback};
use vstd::prelude::*;

use crate::chars::str_chars;
use crate::hppr_coordinate::{lemma_position_of, position_of};
use crate::svg_resources::{
    empty_resolved, OpaqueNode, ResourceGraphModel, SVGResolvedNodeResources, SVGResourceGraph, SVGResourceId,
    SVGResourceKind,
};
use crate::text::{find_char, has_prefix_at, str_equals, trim, trim_bounds};

verus! {

/// What to paint with when a referenced paint server is missing.
#[derive(Clone, Copy, Debug, PartialEq)]
pub enum SVGPaintFallback<C> {
    NoPaint,
    SolidColor(C),
}

/// A reference to a paint server by IRI, with its fallback.
#[derive(Debug, PartialEq)]
pub struct SVGPaintServerReference<C> {
    pub iri: String,
    pub fallback: Option<SVGPaintFallback<C>>,
}

/// A `fill` or `stroke` value after style resolution.
#[derive(Debug, PartialEq)]
pub enum SVGResolvedPaint<C> {
    NoPaint,
    CurrentColor,
    SolidColor(C),
    ResourceReference(SVGPaintServerReference<C>),
    ContextFill,
    ContextStroke,
}

/// A paint for rendering: a color, a keyword, or a paint server of the
/// graph.
#[derive(Clone, Copy, Debug, PartialEq)]
pub enum SVGPaint<C> {
    NoPaint,
    SolidColor(C),
    CurrentColor,
    ContextFill,
    ContextStroke,
    Server(SVGResourceId),
}

/// The element id that an IRI names: the IRI trimmed, without a leading
/// `#` where it has one.
pub open spec fn iri_element_id(iri: Seq<char>) -> Seq<char> {
    let t = trim(iri);
    if t.len() > 0 && t[0] == '#' {
        t.subrange(1, t.len() as int)
    } else {
        t
    }
}

/// The paint server of the graph that an IRI names, if the element it names
/// defines a paint server.
pub open spec fn paint_server_for(g: ResourceGraphModel, iri: Seq<char>) -> Option<SVGResourceId> {
    let id = iri_element_id(iri);
    if g.resources_by_element_id.contains_key(id) {
        let r = g.resources_by_element_id[id];
        if r.0 < g.resources.len() && g.resources[r.0 as int] is PaintServer {
            Some(r)
        } else {
            None
        }
    } else {
        None
    }
}

/// The rendering paint of a resolved paint: keywords and colors carry over;
/// a reference becomes the paint server it names, or else its fallback
/// color, or else no paint.
pub open spec fn converted_paint<C>(g: ResourceGraphModel, paint: SVGResolvedPaint<C>) -> SVGPaint<C> {
    match paint {
        SVGResolvedPaint::NoPaint => SVGPaint::NoPaint,
        SVGResolvedPaint::SolidColor(c) => SVGPaint::SolidColor(c),
        SVGResolvedPaint::CurrentColor => SVGPaint::CurrentColor,
        SVGResolvedPaint::ContextFill => SVGPaint::ContextFill,
        SVGResolvedPaint::ContextStroke => SVGPaint::ContextStroke,
        SVGResolvedPaint::ResourceReference(reference) => match paint_server_for(g, reference.iri@) {
            Some(r) => SVGPaint::Server(r),
            None => match reference.fallback {
                Some(SVGPaintFallback::SolidColor(c)) => SVGPaint::SolidColor(c),
                _ => SVGPaint::NoPaint,
            },
        },
    }
}

/// Converts a resolved paint for rendering against the resource graph.
pub fn convert_resolved_paint<C: Copy>(
    resource_graph: &SVGResourceGraph,
    _node: OpaqueNode,
    paint: &SVGResolvedPaint<C>,
) -> (r: SVGPaint<C>)
    ensures
        r == converted_paint(resource_graph@, *paint),
{
    match paint {
        SVGResolvedPaint::NoPaint => SVGPaint::NoPaint,
        SVGResolvedPaint::SolidColor(color) => SVGPaint::SolidColor(*color),
        SVGResolvedPaint::CurrentColor => SVGPaint::CurrentColor,
        SVGResolvedPaint::ContextFill => SVGPaint::ContextFill,
        SVGResolvedPaint::ContextStroke => SVGPaint::ContextStroke,
        SVGResolvedPaint::ResourceReference(reference) => {
            let chars = str_chars(reference.iri.as_str());
            let n = chars.len();
            let (a, b) = trim_bounds(chars.as_slice(), 0, n);
            proof {
                assert(chars@.subrange(0, n as int) =~= reference.iri@);
            }
            let ghost t = chars@.subrange(a as int, b as int);
            let start = if a < b && chars[a] == '#' {
                a + 1
            } else {
                a
            };
            proof {
                if a < b && chars@[a as int] == '#' {
                    assert(t.subrange(1, t.len() as int) =~= chars@.subrange(a + 1, b as int));
                }
            }
            let id = reference.iri.as_str().substring_char(start, b);
            let server = match resource_graph.resource_for_element_id(id) {
                Some(resource_id) => match resource_graph.resource(resource_id) {
                    Some(SVGResourceKind::PaintServer(_)) => Some(resource_id),
                    _ => None,
                },
                None => None,
            };
            match server {
                Some(resource_id) => SVGPaint::Server(resource_id),
                None => match &reference.fallback {
                    Some(SVGPaintFallback::SolidColor(color)) => SVGPaint::SolidColor(*color),
                    _ => SVGPaint::NoPaint,
                },
            }
        },
    }
}

/// The IRI that a paint references, if it references a paint server.
pub fn paint_server_iri<C>(paint: &SVGResolvedPaint<C>) -> (r: Option<String>)
    ensures
        match *paint {
            SVGResolvedPaint::ResourceReference(reference) => r matches Some(iri) && iri@ == reference.iri@,
            _ => r is None,
        },
{
    match paint {
        SVGResolvedPaint::ResourceReference(reference) => Some(reference.iri.clone()),
        _ => None,
    }
}

/// What the references of `node` resolve to in the graph, or no
/// resolution where the graph does not know the node.
pub fn resolved_node_resources(resource_graph: &SVGResourceGraph, node: OpaqueNode) -> (r: SVGResolvedNodeResources)
    ensures
        r == (if resource_graph@.node_resources.contains_key(node.0) {
            resource_graph@.node_resources[node.0]
        } else {
            empty_resolved()
        }),
{
    match resource_graph.node_resources(node) {
        Some(resolved) => *resolved,
        None => SVGResolvedNodeResources {
            paint_servers: crate::svg_resources::SVGPaintServerUses { fill: None, stroke: None },
            resources: crate::svg_resources::SVGEffectState {
                clip_path: None,
                mask: None,
                filter: None,
                marker_start: None,
                marker_mid: None,
                marker_end: None,
            },
            use_instance_source: None,
            referenced_node: None,
        },
    }
}

impl<C: Copy> Clone for SVGPaintServerReference<C> {
    fn clone(&self) -> (r: Self)
        ensures
            r == *self,
    {
        SVGPaintServerReference { iri: self.iri.clone(), fallback: self.fallback }
    }
}

impl<C: Copy> Clone for SVGResolvedPaint<C> {
    fn clone(&self) -> (r: Self)
        ensures
            r == *self,
    {
        match self {
            SVGResolvedPaint::NoPaint => SVGResolvedPaint::NoPaint,
            SVGResolvedPaint::CurrentColor => SVGResolvedPaint::CurrentColor,
            SVGResolvedPaint::SolidColor(c) => SVGResolvedPaint::SolidColor(*c),
            SVGResolvedPaint::ResourceReference(r) => SVGResolvedPaint::ResourceReference(r.clone()),
            SVGResolvedPaint::ContextFill => SVGResolvedPaint::ContextFill,
            SVGResolvedPaint::ContextStroke => SVGResolvedPaint::ContextStroke,
        }
    }
}

// ---------------------------------------------------------------------------
// Parsing `fill` and `stroke` values
// ---------------------------------------------------------------------------

/// An sRGB color with 8-bit red, green, blue and alpha channels, as the SVG
/// color syntax gives it.
#[derive(Clone, Copy, Debug, PartialEq, Eq)]
pub struct SVGColorBytes(pub u8, pub u8, pub u8, pub u8);

/// The fallback after a paint server reference, as the paint syntax gives
/// it.
#[derive(Clone, Copy, Debug, PartialEq, Eq)]
pub enum FallbackSyntax {
    NoPaint,
    CurrentColor,
    Color(SVGColorBytes),
}

/// A paint value, as the SVG paint syntax gives it.
#[derive(Clone, Debug)]
pub enum PaintSyntax {
    NoPaint,
    Inherit,
    CurrentColor,
    Color(SVGColorBytes),
    FuncIri(String, Option<FallbackSyntax>),
    ContextFill,
    ContextStroke,
}

/// The model of a paint value of the SVG paint syntax.
pub enum PaintSyntaxView {
    NoPaint,
    Inherit,
    CurrentColor,
    Color(SVGColorBytes),
    FuncIri(Seq<char>, Option<FallbackSyntax>),
    ContextFill,
    ContextStroke,
}

impl View for PaintSyntax {
    type V = PaintSyntaxView;

    open spec fn view(&self) -> PaintSyntaxView {
        match self {
            PaintSyntax::NoPaint => PaintSyntaxView::NoPaint,
            PaintSyntax::Inherit => PaintSyntaxView::Inherit,
            PaintSyntax::CurrentColor => PaintSyntaxView::CurrentColor,
            PaintSyntax::Color(c) => PaintSyntaxView::Color(*c),
            PaintSyntax::FuncIri(iri, f) => PaintSyntaxView::FuncIri(iri@, *f),
            PaintSyntax::ContextFill => PaintSyntaxView::ContextFill,
            PaintSyntax::ContextStroke => PaintSyntaxView::ContextStroke,
        }
    }
}

/// The model of an optional paint value.
pub open spec fn paint_syntax_view(p: Option<PaintSyntax>) -> Option<PaintSyntaxView> {
    match p {
        Some(v) => Some(v@),
        None => None,
    }
}

/// What the paint grammar of `svgtypes` reads in a text, or `None` where it
/// reads no paint.
pub uninterp spec fn svg_paint_syntax(text: Seq<char>) -> Option<PaintSyntaxView>;

/// What the color grammar of `svgtypes` reads in a text, or `None` where it
/// reads no color.
pub uninterp spec fn svg_color_syntax(text: Seq<char>) -> Option<SVGColorBytes>;

/// `svgtypes::Paint::from_str`: parses a paint value (keywords, a color, or
/// a `url(#id)` reference with an optional fallback). The contract names
/// the result, a function of the text alone, and adds nothing; the
/// crate's parser slices its input only at ASCII delimiters.
#[verifier::external_body]
fn parse_paint_syntax(text: &str) -> (r: Option<PaintSyntax>)
    ensures
        paint_syntax_view(r) == svg_paint_syntax(text@),
{
    let fallback = |f| match f {
        PaintFallback::None => FallbackSyntax::NoPaint,
        PaintFallback::CurrentColor => FallbackSyntax::CurrentColor,
        PaintFallback::Color(c) => FallbackSyntax::Color(SVGColorBytes(c.red, c.green, c.blue, c.alpha)),
    };
    Some(match Paint::from_str(text).ok()? {
        Paint::None => PaintSyntax::NoPaint,
        Paint::Inherit => PaintSyntax::Inherit,
        Paint::CurrentColor => PaintSyntax::CurrentColor,
        Paint::Color(c) => PaintSyntax::Color(SVGColorBytes(c.red, c.green, c.blue, c.alpha)),
        Paint::FuncIRI(iri, f) => PaintSyntax::FuncIri(iri.to_string(), f.map(fallback)),
        Paint::ContextFill => PaintSyntax::ContextFill,
        Paint::ContextStroke => PaintSyntax::ContextStroke,
    })
}

/// `svgtypes::Color::from_str` (`FromStr`): parses a color. The contract
/// names the result, a function of the text alone, and adds nothing.
#[verifier::external_body]
fn parse_color_syntax(text: &str) -> (r: Option<SVGColorBytes>)
    ensures
        r == svg_color_syntax(text@),
{
    let c = svgtypes::Color::from_str(text).ok()?;
    Some(SVGColorBytes(c.red, c.green, c.blue, c.alpha))
}

/// A paint described with 8-bit colors; a `currentColor` fallback stands
/// for the current color.
pub enum PaintShape {
    NoPaint,
    CurrentColor,
    Color(SVGColorBytes),
    Reference(Seq<char>, Option<FallbackSyntax>),
    ContextFill,
    ContextStroke,
}

/// The paint that a paint value of the SVG paint syntax describes;
/// `inherit` is left to the caller.
pub open spec fn syntax_shape(v: Option<PaintSyntaxView>) -> Option<PaintShape> {
    match v {
        Some(PaintSyntaxView::NoPaint) => Some(PaintShape::NoPaint),
        Some(PaintSyntaxView::Inherit) => None,
        Some(PaintSyntaxView::CurrentColor) => Some(PaintShape::CurrentColor),
        Some(PaintSyntaxView::Color(c)) => Some(PaintShape::Color(c)),
        Some(PaintSyntaxView::FuncIri(iri, f)) => Some(PaintShape::Reference(iri, f)),
        Some(PaintSyntaxView::ContextFill) => Some(PaintShape::ContextFill),
        Some(PaintSyntaxView::ContextStroke) => Some(PaintShape::ContextStroke),
        None => None,
    }
}

/// The paint that the `svgtypes` paint grammar reads; `inherit` is left to
/// the caller.
pub open spec fn svgtypes_shape(text: Seq<char>) -> Option<PaintShape> {
    syntax_shape(svg_paint_syntax(text))
}

/// A `url(...)` reference that the `svgtypes` grammar refuses, such as one
/// without `#`: the text up to the first `)`, trimmed and not empty, names
/// the server; what follows, trimmed, is no fallback, `none`,
/// `currentColor` or a color.
pub open spec fn func_iri_shape(raw: Seq<char>) -> Option<PaintShape> {
    let r = trim(raw);
    if !("url("@.is_prefix_of(r)) {
        None
    } else {
        let tail = r.subrange(4, r.len() as int);
        let close = position_of(tail, ')') as int;
        if close == tail.len() {
            None
        } else {
            let iri = trim(tail.subrange(0, close));
            let rest = trim(tail.subrange(close + 1, tail.len() as int));
            if iri.len() == 0 {
                None
            } else if rest.len() == 0 {
                Some(PaintShape::Reference(iri, None))
            } else if rest == "none"@ {
                Some(PaintShape::Reference(iri, Some(FallbackSyntax::NoPaint)))
            } else if rest == "currentColor"@ {
                Some(PaintShape::Reference(iri, Some(FallbackSyntax::CurrentColor)))
            } else {
                match svg_color_syntax(rest) {
                    Some(c) => Some(PaintShape::Reference(iri, Some(FallbackSyntax::Color(c)))),
                    None => None,
                }
            }
        }
    }
}

/// The paint that a `fill` or `stroke` text gives: what the `svgtypes`
/// grammar reads, or else a `url(...)` reference read leniently.
pub open spec fn paint_shape(raw: Seq<char>) -> Option<PaintShape> {
    match svgtypes_shape(raw) {
        Some(s) => Some(s),
        None => func_iri_shape(raw),
    }
}

/// Whether `f` is the fallback that `s` describes, colors made by
/// `convert` and `currentColor` made the current color.
pub open spec fn fallback_realizes<C, F: Fn(SVGColorBytes) -> C>(
    f: Option<SVGPaintFallback<C>>,
    s: Option<FallbackSyntax>,
    current: C,
    convert: F,
) -> bool {
    match s {
        None => f is None,
        Some(FallbackSyntax::NoPaint) => f == Some(SVGPaintFallback::<C>::NoPaint),
        Some(FallbackSyntax::CurrentColor) => f == Some(SVGPaintFallback::SolidColor(current)),
        Some(FallbackSyntax::Color(b)) => f matches Some(SVGPaintFallback::SolidColor(c)) && call_ensures(
            convert,
            (b,),
            c,
        ),
    }
}

/// Whether `p` is the paint that `s` describes, colors made by `convert`
/// and a `currentColor` fallback made the current color.
pub open spec fn paint_realizes<C, F: Fn(SVGColorBytes) -> C>(
    p: SVGResolvedPaint<C>,
    s: PaintShape,
    current: C,
    convert: F,
) -> bool {
    match s {
        PaintShape::NoPaint => p == SVGResolvedPaint::<C>::NoPaint,
        PaintShape::CurrentColor => p == SVGResolvedPaint::<C>::CurrentColor,
        PaintShape::Color(b) => p matches SVGResolvedPaint::SolidColor(c) && call_ensures(convert, (b,), c),
        PaintShape::Reference(iri, f) => p matches SVGResolvedPaint::ResourceReference(r) && r.iri@ == iri
            && fallback_realizes(r.fallback, f, current, convert),
        PaintShape::ContextFill => p == SVGResolvedPaint::<C>::ContextFill,
        PaintShape::ContextStroke => p == SVGResolvedPaint::<C>::ContextStroke,
    }
}

/// The color that a text names, made by `convert` from its 8-bit channels.
pub fn parse_color<C, F: Fn(SVGColorBytes) -> C>(raw: &str, convert: &F) -> (r: Option<C>)
    requires
        forall|b: SVGColorBytes| #[trigger] call_requires(*convert, (b,)),
    ensures
        match svg_color_syntax(raw@) {
            Some(b) => r matches Some(c) && call_ensures(*convert, (b,), c),
            None => r is None,
        },
{
    match parse_color_syntax(raw) {
        Some(b) => Some(convert(b)),
        None => None,
    }
}

/// The paint that a paint value of the SVG paint syntax describes, with
/// colors made by `convert` and a `currentColor` fallback made
/// `current_color`; `inherit` and no value give `None`.
pub fn paint_from_syntax<C: Copy, F: Fn(SVGColorBytes) -> C>(
    syntax: Option<PaintSyntax>,
    current_color: C,
    convert: &F,
) -> (r: Option<SVGResolvedPaint<C>>)
    requires
        forall|b: SVGColorBytes| #[trigger] call_requires(*convert, (b,)),
    ensures
        match r {
            Some(p) => syntax_shape(paint_syntax_view(syntax)) matches Some(s) && paint_realizes(
                p,
                s,
                current_color,
                *convert,
            ),
            None => syntax_shape(paint_syntax_view(syntax)) is None,
        },
{
    match syntax {
        Some(PaintSyntax::NoPaint) => Some(SVGResolvedPaint::NoPaint),
        Some(PaintSyntax::Inherit) => None,
        Some(PaintSyntax::CurrentColor) => Some(SVGResolvedPaint::CurrentColor),
        Some(PaintSyntax::Color(b)) => Some(SVGResolvedPaint::SolidColor(convert(b))),
        Some(PaintSyntax::FuncIri(iri, fallback)) => {
            let fallback = match fallback {
                Some(FallbackSyntax::NoPaint) => Some(SVGPaintFallback::NoPaint),
                Some(FallbackSyntax::CurrentColor) => Some(SVGPaintFallback::SolidColor(current_color)),
                Some(FallbackSyntax::Color(b)) => Some(SVGPaintFallback::SolidColor(convert(b))),
                None => None,
            };
            Some(SVGResolvedPaint::ResourceReference(SVGPaintServerReference { iri, fallback }))
        },
        Some(PaintSyntax::ContextFill) => Some(SVGResolvedPaint::ContextFill),
        Some(PaintSyntax::ContextStroke) => Some(SVGResolvedPaint::ContextStroke),
        None => None,
    }
}

/// The paint that the `svgtypes` paint grammar reads in `raw`; `inherit`
/// gives `None`.
fn parse_svgtypes_paint<C: Copy, F: Fn(SVGColorBytes) -> C>(raw: &str, current_color: C, convert: &F) -> (r: Option<
    SVGResolvedPaint<C>,
>)
    requires
        forall|b: SVGColorBytes| #[trigger] call_requires(*convert, (b,)),
    ensures
        match r {
            Some(p) => svgtypes_shape(raw@) matches Some(s) && paint_realizes(p, s, current_color, *convert),
            None => svgtypes_shape(raw@) is None,
        },
{
    paint_from_syntax(parse_paint_syntax(raw), current_color, convert)
}

/// A `url(...)` reference read leniently: see `func_iri_shape`.
fn parse_func_iri_paint<C: Copy, F: Fn(SVGColorBytes) -> C>(raw: &str, current_color: C, convert: &F) -> (r: Option<
    SVGResolvedPaint<C>,
>)
    requires
        forall|b: SVGColorBytes| #[trigger] call_requires(*convert, (b,)),
    ensures
        match r {
            Some(p) => func_iri_shape(raw@) matches Some(s) && paint_realizes(p, s, current_color, *convert),
            None => func_iri_shape(raw@) is None,
        },
{
    let s = str_chars(raw);
    let n = s.len();
    let (a, b) = trim_bounds(s.as_slice(), 0, n);
    let url = vec!['u', 'r', 'l', '('];
    proof {
        assert(s@.subrange(0, n as int) =~= raw@);
        reveal_strlit("url(");
        assert(url@ =~= "url("@);
    }
    let ghost r = s@.subrange(a as int, b as int);
    if !has_prefix_at(s.as_slice(), a, b, url.as_slice()) {
        return None;
    }
    let ghost tail = r.subrange(4, r.len() as int);
    let close = find_char(s.as_slice(), a + 4, ')');
    let close = if close < b { close } else { b };
    proof {
        assert(tail =~= s@.subrange(a + 4, b as int));
        assert forall|i: int| 0 <= i < close - (a + 4) implies tail[i] != ')' by {
            assert(tail[i] == s@[a + 4 + i]);
        }
        if close < b {
            assert(tail[close - (a + 4)] == s@[close as int]);
        }
        lemma_position_of(tail, ')', close - (a + 4));
    }
    if close == b {
        return None;
    }
    let (ia, ib) = trim_bounds(s.as_slice(), a + 4, close);
    let (ra, rb) = trim_bounds(s.as_slice(), close + 1, b);
    proof {
        assert(tail.subrange(0, close - (a + 4)) =~= s@.subrange(a + 4, close as int));
        assert(tail.subrange(close - (a + 4) + 1, tail.len() as int) =~= s@.subrange(close + 1, b as int));
    }
    if ia == ib {
        return None;
    }
    let iri = raw.substring_char(ia, ib).to_owned();
    let rest = raw.substring_char(ra, rb);
    proof {
        reveal_strlit("none");
        reveal_strlit("currentColor");
    }
    let fallback = if ra == rb {
        None
    } else if str_equals(rest, "none") {
        Some(SVGPaintFallback::NoPaint)
    } else if str_equals(rest, "currentColor") {
        Some(SVGPaintFallback::SolidColor(current_color))
    } else {
        match parse_color(rest, convert) {
            Some(c) => Some(SVGPaintFallback::SolidColor(c)),
            None => {
                return None;
            },
        }
    };
    Some(SVGResolvedPaint::ResourceReference(SVGPaintServerReference { iri, fallback }))
}

/// The paint that a `fill` or `stroke` text gives (see `paint_shape`), with
/// colors made by `convert` and a `currentColor` fallback made
/// `current_color`.
pub fn parse_paint<C: Copy, F: Fn(SVGColorBytes) -> C>(raw: &str, current_color: C, convert: &F) -> (r: Option<
    SVGResolvedPaint<C>,
>)
    requires
        forall|b: SVGColorBytes| #[trigger] call_requires(*convert, (b,)),
    ensures
        match r {
            Some(p) => paint_shape(raw@) matches Some(s) && paint_realizes(p, s, current_color, *convert),
            None => paint_shape(raw@) is None,
        },
{
    match parse_svgtypes_paint(raw, current_color, convert) {
        Some(p) => Some(p),
        None => parse_func_iri_paint(raw, current_color, convert),
    }
}

/// The paint of a `fill` or `stroke` value: an absent value, `inherit` and
/// a value that gives no paint take the inherited paint, or the default
/// where nothing is inherited.
pub fn resolve_paint<C: Copy, F: Fn(SVGColorBytes) -> C>(
    raw: Option<&str>,
    current_color: C,
    inherited: Option<&SVGResolvedPaint<C>>,
    default: SVGResolvedPaint<C>,
    convert: &F,
) -> (r: SVGResolvedPaint<C>)
    requires
        forall|b: SVGColorBytes| #[trigger] call_requires(*convert, (b,)),
    ensures
        ({
            let fallback = match inherited {
                Some(p) => *p,
                None => default,
            };
            match raw {
                None => r == fallback,
                Some(t) => if trim(t@) == "inherit"@ {
                    r == fallback
                } else {
                    match paint_shape(t@) {
                        Some(s) => paint_realizes(r, s, current_color, *convert),
                        None => r == fallback,
                    }
                },
            }
        }),
{
    let fallback = match inherited {
        Some(p) => p.clone(),
        None => default,
    };
    let raw = match raw {
        Some(t) => t,
        None => {
            return fallback;
        },
    };
    let s = str_chars(raw);
    let n = s.len();
    let (a, b) = trim_bounds(s.as_slice(), 0, n);
    proof {
        assert(s@.subrange(0, n as int) =~= raw@);
        reveal_strlit("inherit");
    }
    if str_equals(raw.substring_char(a, b), "inherit") {
        return fallback;
    }
    match parse_paint(raw, current_color, convert) {
        Some(p) => p,
        None => fallback,
    }
}

} // verus!
