//! The SVG resource graph: which elements define resources (gradients,
//! patterns, clip paths, masks, filters, markers, `<use>` instance sources),
//! which elements reference them, and the reverse dependencies along which
//! a change to one node or resource invalidates others.

use std::collections::HashMap;

use vstd::hash_map::StringHashMap;
use vstd::prelude::*;

use crate::svg_reference::{local_reference, normalize_local_reference};
use crate::svg_types::{SVGDependencyKind, SVGLayoutNodeKind, SVGResourceReferenceInputs};

verus! {

broadcast use vstd::std_specs::hash::group_hash_axioms;

/// An opaque handle on a DOM node of the SVG subtree.
#[derive(Clone, Copy, Debug, PartialEq, Eq, Hash, Structural)]
pub struct OpaqueNode(pub usize);

/// The index of a resource in the graph's resource list.
#[derive(Clone, Copy, Debug, PartialEq, Eq, Hash, Structural)]
pub struct SVGResourceId(pub u32);

/// The two kinds of paint server.
#[derive(Clone, Copy, Debug, PartialEq, Eq, Structural)]
pub enum SVGPaintServerKind {
    Gradient,
    Pattern,
}

/// The kind of a resource that an element defines; the resource's geometry
/// and paint data travel beside the graph, indexed by the same ids.
#[derive(Clone, Copy, Debug, PartialEq, Eq, Structural)]
pub enum SVGResourceKind {
    PaintServer(SVGPaintServerKind),
    ClipPath,
    Mask,
    Filter,
    Marker,
    UseInstanceSource,
}

/// What depends on something: a node or a resource.
#[derive(Clone, Copy, Debug, Eq, Hash, PartialEq, Structural)]
pub enum SVGDependencySource {
    Node(OpaqueNode),
    Resource(SVGResourceId),
}

/// What is depended on: a node or a resource.
#[derive(Clone, Copy, Debug, Eq, Hash, PartialEq, Structural)]
pub enum SVGDependencyTarget {
    Node(OpaqueNode),
    Resource(SVGResourceId),
}

/// A reverse dependency: a change to the source (the key it is filed under)
/// invalidates `target` for the reason `kind`.
#[derive(Clone, Copy, Debug, Eq, PartialEq, Structural)]
pub struct SVGDependency {
    pub kind: SVGDependencyKind,
    pub target: SVGDependencyTarget,
}

/// The paint servers that an element's fill and stroke use.
#[derive(Clone, Copy, Debug, Default, Eq, PartialEq, Structural)]
pub struct SVGPaintServerUses {
    pub fill: Option<SVGResourceId>,
    pub stroke: Option<SVGResourceId>,
}

/// The effect resources that an element applies.
#[derive(Clone, Copy, Debug, Default, Eq, PartialEq, Structural)]
pub struct SVGEffectState {
    pub clip_path: Option<SVGResourceId>,
    pub mask: Option<SVGResourceId>,
    pub filter: Option<SVGResourceId>,
    pub marker_start: Option<SVGResourceId>,
    pub marker_mid: Option<SVGResourceId>,
    pub marker_end: Option<SVGResourceId>,
}

/// The resources that an element's references resolve to.
#[derive(Clone, Copy, Debug, Default, Eq, PartialEq, Structural)]
pub struct SVGResolvedNodeResources {
    pub paint_servers: SVGPaintServerUses,
    pub resources: SVGEffectState,
    pub use_instance_source: Option<SVGResourceId>,
    pub referenced_node: Option<OpaqueNode>,
}

/// What the graph records of each node.
#[derive(Clone, Copy, Debug, Eq, PartialEq)]
pub struct SVGGraphNodeInfo {
    pub kind: SVGLayoutNodeKind,
    pub establishes_viewport: bool,
    pub participates_in_paint: bool,
    pub defined_resource: Option<SVGResourceId>,
}

/// An element of the SVG subtree as the graph builder sees it.
#[derive(Clone, Debug)]
pub struct SVGResourceGraphNode {
    pub node: OpaqueNode,
    pub parent: Option<OpaqueNode>,
    pub kind: SVGLayoutNodeKind,
    pub element_id: Option<String>,
    pub fill_paint_server: Option<String>,
    pub stroke_paint_server: Option<String>,
    pub resources: SVGResourceReferenceInputs,
    pub href: Option<String>,
    pub defined_resource: Option<SVGResourceKind>,
    pub establishes_viewport: bool,
    pub participates_in_paint: bool,
}

/// Nodes of these kinds are definitions, not painted themselves.
pub open spec fn kind_is_paint_excluded(kind: SVGLayoutNodeKind) -> bool {
    ||| kind == SVGLayoutNodeKind::Defs
    ||| kind == SVGLayoutNodeKind::Pattern
    ||| kind == SVGLayoutNodeKind::Filter
    ||| kind == SVGLayoutNodeKind::Marker
}

impl SVGResourceGraphNode {
    /// A node of the given kind with no parent, id or references; it
    /// establishes a viewport if it is one, and takes part in painting unless
    /// it is a definition (`defs`, `pattern`, `filter`, `marker`).
    pub fn new(node: OpaqueNode, kind: SVGLayoutNodeKind) -> (r: Self)
        ensures
            r.node == node,
            r.parent is None,
            r.kind == kind,
            r.element_id is None,
            r.fill_paint_server is None,
            r.stroke_paint_server is None,
            r.resources.clip_path is None && r.resources.mask is None && r.resources.filter is None,
            r.resources.marker_start is None && r.resources.marker_mid is None && r.resources.marker_end is None,
            r.href is None,
            r.defined_resource is None,
            r.establishes_viewport == (kind == SVGLayoutNodeKind::Viewport),
            r.participates_in_paint == !kind_is_paint_excluded(kind),
    {
        let establishes_viewport = matches!(kind, SVGLayoutNodeKind::Viewport);
        let participates_in_paint = !matches!(
            kind,
            SVGLayoutNodeKind::Defs | SVGLayoutNodeKind::Pattern | SVGLayoutNodeKind::Filter | SVGLayoutNodeKind::Marker
        );
        Self {
            node,
            parent: None,
            kind,
            element_id: None,
            fill_paint_server: None,
            stroke_paint_server: None,
            resources: SVGResourceReferenceInputs {
                clip_path: None,
                mask: None,
                filter: None,
                marker_start: None,
                marker_mid: None,
                marker_end: None,
            },
            href: None,
            defined_resource: None,
            establishes_viewport,
            participates_in_paint,
        }
    }

    /// The node with `parent` as its parent.
    pub fn with_parent(self, parent: OpaqueNode) -> (r: Self)
        ensures
            r == (SVGResourceGraphNode { parent: Some(parent), ..self }),
    {
        let mut n = self;
        n.parent = Some(parent);
        n
    }

    /// The node with `element_id` as its id.
    pub fn with_element_id(self, element_id: String) -> (r: Self)
        ensures
            r == (SVGResourceGraphNode { element_id: Some(element_id), ..self }),
    {
        let mut n = self;
        n.element_id = Some(element_id);
        n
    }

    /// The node with `href` as its `href`.
    pub fn with_href(self, href: String) -> (r: Self)
        ensures
            r == (SVGResourceGraphNode { href: Some(href), ..self }),
    {
        let mut n = self;
        n.href = Some(href);
        n
    }

    /// The node with `iri` as its fill paint server.
    pub fn with_fill_paint_server(self, iri: String) -> (r: Self)
        ensures
            r == (SVGResourceGraphNode { fill_paint_server: Some(iri), ..self }),
    {
        let mut n = self;
        n.fill_paint_server = Some(iri);
        n
    }

    /// The node with `iri` as its stroke paint server.
    pub fn with_stroke_paint_server(self, iri: String) -> (r: Self)
        ensures
            r == (SVGResourceGraphNode { stroke_paint_server: Some(iri), ..self }),
    {
        let mut n = self;
        n.stroke_paint_server = Some(iri);
        n
    }

    /// The node defining a resource of kind `resource`.
    pub fn with_defined_resource(self, resource: SVGResourceKind) -> (r: Self)
        ensures
            r == (SVGResourceGraphNode { defined_resource: Some(resource), ..self }),
    {
        let mut n = self;
        n.defined_resource = Some(resource);
        n
    }
}

/// The abstract content of a resource graph.
pub struct ResourceGraphModel {
    pub resources: Seq<SVGResourceKind>,
    pub resource_owners: Map<u32, OpaqueNode>,
    pub resource_ids_by_node: Map<usize, SVGResourceId>,
    pub resources_by_element_id: Map<Seq<char>, SVGResourceId>,
    pub node_info: Map<usize, SVGGraphNodeInfo>,
    pub node_resources: Map<usize, SVGResolvedNodeResources>,
    pub node_dependencies: Map<usize, Seq<SVGDependency>>,
    pub resource_dependencies: Map<u32, Seq<SVGDependency>>,
    pub parent_by_node: Map<usize, Option<OpaqueNode>>,
    pub children_by_node: Map<usize, Seq<OpaqueNode>>,
    pub nodes_by_element_id: Map<Seq<char>, OpaqueNode>,
}

/// The graph with nothing in it.
pub open spec fn empty_model() -> ResourceGraphModel {
    ResourceGraphModel {
        resources: Seq::empty(),
        resource_owners: Map::empty(),
        resource_ids_by_node: Map::empty(),
        resources_by_element_id: Map::empty(),
        node_info: Map::empty(),
        node_resources: Map::empty(),
        node_dependencies: Map::empty(),
        resource_dependencies: Map::empty(),
        parent_by_node: Map::empty(),
        children_by_node: Map::empty(),
        nodes_by_element_id: Map::empty(),
    }
}

/// The value under `k`, or the empty sequence.
pub open spec fn seq_or_empty<K, T>(m: Map<K, Seq<T>>, k: K) -> Seq<T> {
    if m.contains_key(k) {
        m[k]
    } else {
        Seq::empty()
    }
}

/// `deps` with `d` appended, unless it holds `d` already.
pub open spec fn add_dependency(deps: Seq<SVGDependency>, d: SVGDependency) -> Seq<SVGDependency> {
    if deps.contains(d) {
        deps
    } else {
        deps.push(d)
    }
}

/// The graph with the dependency `kind` of `target` on `source` recorded
/// once.
pub open spec fn push_dep(
    g: ResourceGraphModel,
    source: SVGDependencySource,
    kind: SVGDependencyKind,
    target: SVGDependencyTarget,
) -> ResourceGraphModel {
    let d = SVGDependency { kind, target };
    match source {
        SVGDependencySource::Node(n) => ResourceGraphModel {
            node_dependencies: g.node_dependencies.insert(n.0, add_dependency(seq_or_empty(g.node_dependencies, n.0), d)),
            ..g
        },
        SVGDependencySource::Resource(r) => ResourceGraphModel {
            resource_dependencies: g.resource_dependencies.insert(
                r.0,
                add_dependency(seq_or_empty(g.resource_dependencies, r.0), d),
            ),
            ..g
        },
    }
}

/// The graph with `resource`, when there is one, recorded as a dependency
/// source of `node` for the reason `kind`.
pub open spec fn push_optional_dep(
    g: ResourceGraphModel,
    node: OpaqueNode,
    resource: Option<SVGResourceId>,
    kind: SVGDependencyKind,
) -> ResourceGraphModel {
    match resource {
        Some(r) => push_dep(g, SVGDependencySource::Resource(r), kind, SVGDependencyTarget::Node(node)),
        None => g,
    }
}

// ---------------------------------------------------------------------------
// The four passes over the nodes that build a graph
// ---------------------------------------------------------------------------

/// First pass, one node: its parent, its place among its parent's children
/// (every node has a child list, empty at first) and its element id.
pub open spec fn structure_step(g: ResourceGraphModel, n: SVGResourceGraphNode) -> ResourceGraphModel {
    let k = n.node.0;
    let children0 = if g.children_by_node.contains_key(k) {
        g.children_by_node
    } else {
        g.children_by_node.insert(k, Seq::empty())
    };
    let children = match n.parent {
        Some(p) => children0.insert(p.0, seq_or_empty(children0, p.0).push(n.node)),
        None => children0,
    };
    let by_id = match n.element_id {
        Some(e) => g.nodes_by_element_id.insert(e@, n.node),
        None => g.nodes_by_element_id,
    };
    ResourceGraphModel {
        parent_by_node: g.parent_by_node.insert(k, n.parent),
        children_by_node: children,
        nodes_by_element_id: by_id,
        ..g
    }
}

/// The first pass over a sequence of nodes, in order.
pub open spec fn structure_pass(g: ResourceGraphModel, nodes: Seq<SVGResourceGraphNode>) -> ResourceGraphModel
    decreases nodes.len(),
{
    if nodes.len() == 0 {
        g
    } else {
        structure_step(structure_pass(g, nodes.drop_last()), nodes.last())
    }
}

/// The resource that an element of the given kind defines when it names
/// none itself.
pub open spec fn default_resource_for_kind(kind: SVGLayoutNodeKind) -> Option<SVGResourceKind> {
    match kind {
        SVGLayoutNodeKind::Gradient => Some(SVGResourceKind::PaintServer(SVGPaintServerKind::Gradient)),
        SVGLayoutNodeKind::ClipPath => Some(SVGResourceKind::ClipPath),
        SVGLayoutNodeKind::Mask => Some(SVGResourceKind::Mask),
        SVGLayoutNodeKind::Pattern => Some(SVGResourceKind::PaintServer(SVGPaintServerKind::Pattern)),
        SVGLayoutNodeKind::Filter => Some(SVGResourceKind::Filter),
        SVGLayoutNodeKind::Marker => Some(SVGResourceKind::Marker),
        _ => None,
    }
}

/// The resource that a node defines: the one it names, or its kind's
/// default.
pub open spec fn defined_resource_of(n: SVGResourceGraphNode) -> Option<SVGResourceKind> {
    match n.defined_resource {
        Some(r) => Some(r),
        None => default_resource_for_kind(n.kind),
    }
}

/// Second pass, one node: the resource it defines, if any, gets the next id
/// and is filed under the node and its element id; the node's info is
/// recorded and its resolved references start empty.
pub open spec fn resource_step(g: ResourceGraphModel, n: SVGResourceGraphNode) -> ResourceGraphModel {
    let k = n.node.0;
    let g1 = match defined_resource_of(n) {
        Some(r) => {
            let id = SVGResourceId(g.resources.len() as u32);
            ResourceGraphModel {
                resources: g.resources.push(r),
                resource_owners: g.resource_owners.insert(id.0, n.node),
                resource_ids_by_node: g.resource_ids_by_node.insert(k, id),
                resources_by_element_id: match n.element_id {
                    Some(e) => g.resources_by_element_id.insert(e@, id),
                    None => g.resources_by_element_id,
                },
                ..g
            }
        },
        None => g,
    };
    let defined = match defined_resource_of(n) {
        Some(r) => Some(SVGResourceId(g.resources.len() as u32)),
        None => None,
    };
    let info = SVGGraphNodeInfo {
        kind: n.kind,
        establishes_viewport: n.establishes_viewport,
        participates_in_paint: n.participates_in_paint,
        defined_resource: defined,
    };
    ResourceGraphModel {
        node_info: g1.node_info.insert(k, info),
        node_resources: g1.node_resources.insert(k, empty_resolved()),
        ..g1
    }
}

/// No resolved reference.
pub open spec fn empty_resolved() -> SVGResolvedNodeResources {
    SVGResolvedNodeResources {
        paint_servers: SVGPaintServerUses { fill: None, stroke: None },
        resources: SVGEffectState {
            clip_path: None,
            mask: None,
            filter: None,
            marker_start: None,
            marker_mid: None,
            marker_end: None,
        },
        use_instance_source: None,
        referenced_node: None,
    }
}

/// The second pass over a sequence of nodes, in order.
pub open spec fn resource_pass(g: ResourceGraphModel, nodes: Seq<SVGResourceGraphNode>) -> ResourceGraphModel
    decreases nodes.len(),
{
    if nodes.len() == 0 {
        g
    } else {
        resource_step(resource_pass(g, nodes.drop_last()), nodes.last())
    }
}

/// The parent recorded for node `k`, if any.
pub open spec fn parent_of(g: ResourceGraphModel, k: usize) -> Option<OpaqueNode> {
    if g.parent_by_node.contains_key(k) {
        g.parent_by_node[k]
    } else {
        None
    }
}

/// Whether the chain of parents above node `k` ends, or meets a node that
/// owns a resource, within `fuel` steps.
pub open spec fn owner_search_settles(g: ResourceGraphModel, k: usize, fuel: nat) -> bool
    decreases fuel,
{
    match parent_of(g, k) {
        None => true,
        Some(p) => g.resource_ids_by_node.contains_key(p.0) || (fuel > 0 && owner_search_settles(
            g,
            p.0,
            (fuel - 1) as nat,
        )),
    }
}

/// The nearest proper ancestor of node `k` that owns a resource, looking
/// at most `fuel + 1` parents up.
pub open spec fn resource_owner_above(g: ResourceGraphModel, k: usize, fuel: nat) -> Option<OpaqueNode>
    decreases fuel,
{
    match parent_of(g, k) {
        None => None,
        Some(p) => if g.resource_ids_by_node.contains_key(p.0) {
            Some(p)
        } else if fuel == 0 {
            None
        } else {
            resource_owner_above(g, p.0, (fuel - 1) as nat)
        },
    }
}

/// The reason that the content of a resource of the given kind makes it
/// depend on the nodes inside it.
pub open spec fn content_dependency_kind(r: SVGResourceKind) -> Option<SVGDependencyKind> {
    match r {
        SVGResourceKind::PaintServer(SVGPaintServerKind::Gradient) => Some(SVGDependencyKind::GradientContent),
        SVGResourceKind::PaintServer(SVGPaintServerKind::Pattern) => Some(SVGDependencyKind::Pattern),
        SVGResourceKind::ClipPath => Some(SVGDependencyKind::ClipPath),
        SVGResourceKind::Mask => Some(SVGDependencyKind::Mask),
        SVGResourceKind::Filter => Some(SVGDependencyKind::Filter),
        SVGResourceKind::Marker => Some(SVGDependencyKind::Marker),
        SVGResourceKind::UseInstanceSource => None,
    }
}

/// Third pass, one node: a node inside a resource-defining ancestor makes
/// that ancestor's resource depend on it.
pub open spec fn content_step(g: ResourceGraphModel, n: SVGResourceGraphNode, fuel: nat) -> ResourceGraphModel {
    match resource_owner_above(g, n.node.0, fuel) {
        Some(owner) => if owner != n.node && g.resource_ids_by_node.contains_key(owner.0) {
            let id = g.resource_ids_by_node[owner.0];
            if 0 <= id.0 < g.resources.len() {
                match content_dependency_kind(g.resources[id.0 as int]) {
                    Some(kind) => push_dep(
                        g,
                        SVGDependencySource::Node(n.node),
                        kind,
                        SVGDependencyTarget::Resource(id),
                    ),
                    None => g,
                }
            } else {
                g
            }
        } else {
            g
        },
        None => g,
    }
}

/// The third pass over a sequence of nodes, in order.
pub open spec fn content_pass(g: ResourceGraphModel, nodes: Seq<SVGResourceGraphNode>, fuel: nat) -> ResourceGraphModel
    decreases nodes.len(),
{
    if nodes.len() == 0 {
        g
    } else {
        content_step(content_pass(g, nodes.drop_last(), fuel), nodes.last(), fuel)
    }
}

/// The resource that a reference names through an element id.
pub open spec fn resolve_resource(g: ResourceGraphModel, reference: Option<String>) -> Option<SVGResourceId> {
    match reference {
        Some(s) => match local_reference(s@) {
            Some(id) => if g.resources_by_element_id.contains_key(id) {
                Some(g.resources_by_element_id[id])
            } else {
                None
            },
            None => None,
        },
        None => None,
    }
}

/// The node that a reference names through an element id.
pub open spec fn resolve_node(g: ResourceGraphModel, reference: Option<String>) -> Option<OpaqueNode> {
    match reference {
        Some(s) => match local_reference(s@) {
            Some(id) => if g.nodes_by_element_id.contains_key(id) {
                Some(g.nodes_by_element_id[id])
            } else {
                None
            },
            None => None,
        },
        None => None,
    }
}

/// A `<use>` element that references a node gets a fresh instance-source
/// resource: the referenced node's changes reach the resource, and the
/// resource's reach the `<use>` element.
pub open spec fn use_step(g: ResourceGraphModel, n: SVGResourceGraphNode) -> ResourceGraphModel {
    if n.kind == SVGLayoutNodeKind::Use {
        match resolve_node(g, n.href) {
            Some(referenced) => {
                let id = SVGResourceId(g.resources.len() as u32);
                let g1 = ResourceGraphModel {
                    resources: g.resources.push(SVGResourceKind::UseInstanceSource),
                    resource_owners: g.resource_owners.insert(id.0, n.node),
                    resource_ids_by_node: g.resource_ids_by_node.insert(n.node.0, id),
                    ..g
                };
                let g2 = push_dep(
                    g1,
                    SVGDependencySource::Node(referenced),
                    SVGDependencyKind::UseSource,
                    SVGDependencyTarget::Resource(id),
                );
                push_dep(g2, SVGDependencySource::Resource(id), SVGDependencyKind::UseSource, SVGDependencyTarget::Node(n.node))
            },
            None => g,
        }
    } else {
        g
    }
}

/// What a node's references resolve to in graph `g`, the graph before the
/// node's own `<use>` resource, if any, is added.
pub open spec fn resolved_references(g: ResourceGraphModel, n: SVGResourceGraphNode) -> SVGResolvedNodeResources {
    let use_instance = n.kind == SVGLayoutNodeKind::Use && resolve_node(g, n.href) is Some;
    SVGResolvedNodeResources {
        paint_servers: SVGPaintServerUses {
            fill: resolve_resource(g, n.fill_paint_server),
            stroke: resolve_resource(g, n.stroke_paint_server),
        },
        resources: SVGEffectState {
            clip_path: resolve_resource(g, n.resources.clip_path),
            mask: resolve_resource(g, n.resources.mask),
            filter: resolve_resource(g, n.resources.filter),
            marker_start: resolve_resource(g, n.resources.marker_start),
            marker_mid: resolve_resource(g, n.resources.marker_mid),
            marker_end: resolve_resource(g, n.resources.marker_end),
        },
        use_instance_source: if use_instance {
            Some(SVGResourceId(g.resources.len() as u32))
        } else {
            None
        },
        referenced_node: if n.kind == SVGLayoutNodeKind::Use {
            resolve_node(g, n.href)
        } else {
            None
        },
    }
}

/// The dependencies of a node on the paint servers and effect resources it
/// uses.
pub open spec fn reference_deps(g: ResourceGraphModel, n: SVGResourceGraphNode, r: SVGResolvedNodeResources) -> ResourceGraphModel {
    let g1 = push_optional_dep(g, n.node, r.paint_servers.fill, SVGDependencyKind::PaintServer);
    let g2 = push_optional_dep(g1, n.node, r.paint_servers.stroke, SVGDependencyKind::PaintServer);
    let g3 = push_optional_dep(g2, n.node, r.resources.clip_path, SVGDependencyKind::ClipPath);
    let g4 = push_optional_dep(g3, n.node, r.resources.mask, SVGDependencyKind::Mask);
    let g5 = push_optional_dep(g4, n.node, r.resources.filter, SVGDependencyKind::Filter);
    let g6 = push_optional_dep(g5, n.node, r.resources.marker_start, SVGDependencyKind::Marker);
    let g7 = push_optional_dep(g6, n.node, r.resources.marker_mid, SVGDependencyKind::Marker);
    push_optional_dep(g7, n.node, r.resources.marker_end, SVGDependencyKind::Marker)
}

/// A gradient or pattern whose `href` names a template resource depends on
/// that template; a text path depends on the path element it references.
pub open spec fn template_deps(g: ResourceGraphModel, n: SVGResourceGraphNode) -> ResourceGraphModel {
    if n.kind == SVGLayoutNodeKind::Gradient || n.kind == SVGLayoutNodeKind::Pattern {
        if g.resource_ids_by_node.contains_key(n.node.0) {
            let owner = g.resource_ids_by_node[n.node.0];
            let kind = if n.kind == SVGLayoutNodeKind::Gradient {
                SVGDependencyKind::GradientTemplate
            } else {
                SVGDependencyKind::Pattern
            };
            match resolve_resource(g, n.href) {
                Some(template) => push_dep(
                    g,
                    SVGDependencySource::Resource(template),
                    kind,
                    SVGDependencyTarget::Resource(owner),
                ),
                None => g,
            }
        } else {
            g
        }
    } else if n.kind == SVGLayoutNodeKind::TextPath {
        match resolve_node(g, n.href) {
            Some(path) => push_dep(
                g,
                SVGDependencySource::Node(path),
                SVGDependencyKind::TextPathSource,
                SVGDependencyTarget::Node(n.node),
            ),
            None => g,
        }
    } else {
        g
    }
}

/// Fourth pass, one node: its references are resolved and recorded, with
/// the dependencies they bring.
pub open spec fn reference_step(g: ResourceGraphModel, n: SVGResourceGraphNode) -> ResourceGraphModel {
    let g1 = use_step(g, n);
    let r = resolved_references(g, n);
    let g2 = ResourceGraphModel { node_resources: g1.node_resources.insert(n.node.0, r), ..g1 };
    template_deps(reference_deps(g2, n, r), n)
}

/// The fourth pass over a sequence of nodes, in order.
pub open spec fn reference_pass(g: ResourceGraphModel, nodes: Seq<SVGResourceGraphNode>) -> ResourceGraphModel
    decreases nodes.len(),
{
    if nodes.len() == 0 {
        g
    } else {
        reference_step(reference_pass(g, nodes.drop_last()), nodes.last())
    }
}

/// The graph built from `nodes`.
pub open spec fn build_model(nodes: Seq<SVGResourceGraphNode>) -> ResourceGraphModel {
    let g1 = structure_pass(empty_model(), nodes);
    let g2 = resource_pass(g1, nodes);
    let g3 = content_pass(g2, nodes, nodes.len());
    reference_pass(g3, nodes)
}

/// The sequences held by a map of vectors.
pub open spec fn vec_map_view<K, T>(m: Map<K, Vec<T>>) -> Map<K, Seq<T>> {
    m.map_values(|v: Vec<T>| v@)
}

/// Replacing one vector changes one sequence of the view.
pub proof fn lemma_vec_map_view_insert<K, T>(m: Map<K, Vec<T>>, k: K, v: Vec<T>)
    ensures
        vec_map_view(m.insert(k, v)) == vec_map_view(m).insert(k, v@),
{
    assert(vec_map_view(m.insert(k, v)) =~= vec_map_view(m).insert(k, v@));
}

/// Removing a key removes it from the view.
pub proof fn lemma_vec_map_view_remove<K, T>(m: Map<K, Vec<T>>, k: K)
    ensures
        vec_map_view(m.remove(k)) == vec_map_view(m).remove(k),
{
    assert(vec_map_view(m.remove(k)) =~= vec_map_view(m).remove(k));
}

/// The resource graph of an SVG subtree.
pub struct SVGResourceGraph {
    resources: Vec<SVGResourceKind>,
    resource_owners: HashMap<u32, OpaqueNode>,
    resource_ids_by_node: HashMap<usize, SVGResourceId>,
    resources_by_element_id: StringHashMap<SVGResourceId>,
    node_info: HashMap<usize, SVGGraphNodeInfo>,
    node_resources: HashMap<usize, SVGResolvedNodeResources>,
    node_dependencies: HashMap<usize, Vec<SVGDependency>>,
    resource_dependencies: HashMap<u32, Vec<SVGDependency>>,
    parent_by_node: HashMap<usize, Option<OpaqueNode>>,
    children_by_node: HashMap<usize, Vec<OpaqueNode>>,
    nodes_by_element_id: StringHashMap<OpaqueNode>,
}

impl View for SVGResourceGraph {
    type V = ResourceGraphModel;

    closed spec fn view(&self) -> ResourceGraphModel {
        ResourceGraphModel {
            resources: self.resources@,
            resource_owners: self.resource_owners@,
            resource_ids_by_node: self.resource_ids_by_node@,
            resources_by_element_id: self.resources_by_element_id@,
            node_info: self.node_info@,
            node_resources: self.node_resources@,
            node_dependencies: vec_map_view(self.node_dependencies@),
            resource_dependencies: vec_map_view(self.resource_dependencies@),
            parent_by_node: self.parent_by_node@,
            children_by_node: vec_map_view(self.children_by_node@),
            nodes_by_element_id: self.nodes_by_element_id@,
        }
    }
}

/// Whether `deps` holds `d`.
fn contains_dependency(deps: &Vec<SVGDependency>, d: SVGDependency) -> (r: bool)
    ensures
        r == deps@.contains(d),
{
    let mut i: usize = 0;
    while i < deps.len()
        invariant
            i <= deps.len(),
            forall|j: int| 0 <= j < i ==> deps@[j] != d,
        decreases deps.len() - i,
    {
        if deps[i] == d {
            assert(deps@[i as int] == d);
            return true;
        }
        i = i + 1;
    }
    false
}

/// `deps` (or a new list) with `d` appended unless it holds it already.
fn added_dependency(deps: Option<Vec<SVGDependency>>, d: SVGDependency) -> (r: Vec<SVGDependency>)
    ensures
        r@ == add_dependency(
            match deps {
                Some(v) => v@,
                None => Seq::empty(),
            },
            d,
        ),
{
    let mut v = match deps {
        Some(v) => v,
        None => Vec::new(),
    };
    if !contains_dependency(&v, d) {
        v.push(d);
    }
    v
}

impl SVGResourceGraph {
    /// A graph with nothing in it.
    fn empty() -> (r: Self)
        ensures
            r@ == empty_model(),
    {
        let r = SVGResourceGraph {
            resources: Vec::new(),
            resource_owners: HashMap::new(),
            resource_ids_by_node: HashMap::new(),
            resources_by_element_id: StringHashMap::new(),
            node_info: HashMap::new(),
            node_resources: HashMap::new(),
            node_dependencies: HashMap::new(),
            resource_dependencies: HashMap::new(),
            parent_by_node: HashMap::new(),
            children_by_node: HashMap::new(),
            nodes_by_element_id: StringHashMap::new(),
        };
        assert(vec_map_view(r.node_dependencies@) =~= Map::<usize, Seq<SVGDependency>>::empty());
        assert(vec_map_view(r.resource_dependencies@) =~= Map::<u32, Seq<SVGDependency>>::empty());
        assert(vec_map_view(r.children_by_node@) =~= Map::<usize, Seq<OpaqueNode>>::empty());
        r
    }

    /// Records that a change to `source` invalidates `target` for the reason
    /// `kind`, once.
    fn push_dependency(&mut self, source: SVGDependencySource, kind: SVGDependencyKind, target: SVGDependencyTarget)
        ensures
            final(self)@ == push_dep(old(self)@, source, kind, target),
    {
        let d = SVGDependency { kind, target };
        match source {
            SVGDependencySource::Node(n) => {
                let ghost m = self.node_dependencies@;
                let old_deps = self.node_dependencies.remove(&n.0);
                let deps = added_dependency(old_deps, d);
                proof {
                    lemma_vec_map_view_remove(m, n.0);
                    assert(seq_or_empty(vec_map_view(m), n.0) == match old_deps {
                        Some(v) => v@,
                        None => Seq::<SVGDependency>::empty(),
                    });
                }
                self.node_dependencies.insert(n.0, deps);
                proof {
                    lemma_vec_map_view_insert(m.remove(n.0), n.0, deps);
                    assert(vec_map_view(m).remove(n.0).insert(n.0, deps@) =~= vec_map_view(m).insert(n.0, deps@));
                }
            },
            SVGDependencySource::Resource(r) => {
                let ghost m = self.resource_dependencies@;
                let old_deps = self.resource_dependencies.remove(&r.0);
                let deps = added_dependency(old_deps, d);
                proof {
                    lemma_vec_map_view_remove(m, r.0);
                    assert(seq_or_empty(vec_map_view(m), r.0) == match old_deps {
                        Some(v) => v@,
                        None => Seq::<SVGDependency>::empty(),
                    });
                }
                self.resource_dependencies.insert(r.0, deps);
                proof {
                    lemma_vec_map_view_insert(m.remove(r.0), r.0, deps);
                    assert(vec_map_view(m).remove(r.0).insert(r.0, deps@) =~= vec_map_view(m).insert(r.0, deps@));
                }
            },
        }
    }
    /// First pass, one node: see `structure_step`.
    fn record_structure(&mut self, n: &SVGResourceGraphNode)
        ensures
            final(self)@ == structure_step(old(self)@, *n),
    {
        let ghost g = self@;
        let k = n.node.0;
        self.parent_by_node.insert(k, n.parent);
        let ghost c0 = self.children_by_node@;
        if !self.children_by_node.contains_key(&k) {
            let fresh: Vec<OpaqueNode> = Vec::new();
            proof {
                lemma_vec_map_view_insert(c0, k, fresh);
            }
            self.children_by_node.insert(k, fresh);
        }
        let ghost c1 = self.children_by_node@;
        assert(vec_map_view(c1) == (if g.children_by_node.contains_key(k) {
            g.children_by_node
        } else {
            g.children_by_node.insert(k, Seq::empty())
        }));
        match n.parent {
            Some(p) => {
                let old_children = self.children_by_node.remove(&p.0);
                let mut children = match old_children {
                    Some(v) => v,
                    None => Vec::new(),
                };
                proof {
                    lemma_vec_map_view_remove(c1, p.0);
                    assert(children@ == seq_or_empty(vec_map_view(c1), p.0));
                }
                children.push(n.node);
                self.children_by_node.insert(p.0, children);
                proof {
                    lemma_vec_map_view_insert(c1.remove(p.0), p.0, children);
                    assert(vec_map_view(c1).remove(p.0).insert(p.0, children@) =~= vec_map_view(c1).insert(
                        p.0,
                        children@,
                    ));
                }
            },
            None => {},
        }
        match &n.element_id {
            Some(e) => {
                self.nodes_by_element_id.insert(e.clone(), n.node);
            },
            None => {},
        }
    }

    /// The resource list.
    pub fn resources(&self) -> (r: &[SVGResourceKind])
        ensures
            r@ == self@.resources,
    {
        self.resources.as_slice()
    }

    /// The kind of resource `id`, if the graph has it.
    pub fn resource(&self, id: SVGResourceId) -> (r: Option<&SVGResourceKind>)
        ensures
            r == (if id.0 < self@.resources.len() {
                Some(&self@.resources[id.0 as int])
            } else {
                None
            }),
    {
        let i = id.0 as usize;
        if i < self.resources.len() {
            Some(&self.resources[i])
        } else {
            None
        }
    }

    /// The resource that `node` defines, if any.
    pub fn resource_id_for_node(&self, node: OpaqueNode) -> (r: Option<SVGResourceId>)
        ensures
            r == (if self@.resource_ids_by_node.contains_key(node.0) {
                Some(self@.resource_ids_by_node[node.0])
            } else {
                None
            }),
    {
        match self.resource_ids_by_node.get(&node.0) {
            Some(id) => Some(*id),
            None => None,
        }
    }

    /// The node with element id `id`, if any.
    pub fn node_for_element_id(&self, id: &str) -> (r: Option<OpaqueNode>)
        ensures
            r == (if self@.nodes_by_element_id.contains_key(id@) {
                Some(self@.nodes_by_element_id[id@])
            } else {
                None
            }),
    {
        match self.nodes_by_element_id.get(id) {
            Some(n) => Some(*n),
            None => None,
        }
    }

    /// The node that defines resource `id`, if any.
    pub fn resource_owner(&self, id: SVGResourceId) -> (r: Option<OpaqueNode>)
        ensures
            r == (if self@.resource_owners.contains_key(id.0) {
                Some(self@.resource_owners[id.0])
            } else {
                None
            }),
    {
        match self.resource_owners.get(&id.0) {
            Some(n) => Some(*n),
            None => None,
        }
    }

    /// The resource defined by the element with id `id`, if any.
    pub fn resource_for_element_id(&self, id: &str) -> (r: Option<SVGResourceId>)
        ensures
            r == (if self@.resources_by_element_id.contains_key(id@) {
                Some(self@.resources_by_element_id[id@])
            } else {
                None
            }),
    {
        match self.resources_by_element_id.get(id) {
            Some(r) => Some(*r),
            None => None,
        }
    }

    /// What the graph records of `node`, if it knows it.
    pub fn node_info(&self, node: OpaqueNode) -> (r: Option<SVGGraphNodeInfo>)
        ensures
            r == (if self@.node_info.contains_key(node.0) {
                Some(self@.node_info[node.0])
            } else {
                None
            }),
    {
        match self.node_info.get(&node.0) {
            Some(i) => Some(*i),
            None => None,
        }
    }

    /// What the references of `node` resolve to, if the graph knows it.
    pub fn node_resources(&self, node: OpaqueNode) -> (r: Option<&SVGResolvedNodeResources>)
        ensures
            r == (if self@.node_resources.contains_key(node.0) {
                Some(&self@.node_resources[node.0])
            } else {
                None
            }),
    {
        self.node_resources.get(&node.0)
    }

    /// What a change to `node` invalidates.
    pub fn reverse_dependencies_for_node(&self, node: OpaqueNode) -> (r: &[SVGDependency])
        ensures
            r@ == seq_or_empty(self@.node_dependencies, node.0),
    {
        match self.node_dependencies.get(&node.0) {
            Some(v) => v.as_slice(),
            None => {
                let none: &[SVGDependency] = &[];
                assert(none@ =~= Seq::<SVGDependency>::empty());
                none
            },
        }
    }

    /// What a change to resource `resource` invalidates.
    pub fn reverse_dependencies_for_resource(&self, resource: SVGResourceId) -> (r: &[SVGDependency])
        ensures
            r@ == seq_or_empty(self@.resource_dependencies, resource.0),
    {
        match self.resource_dependencies.get(&resource.0) {
            Some(v) => v.as_slice(),
            None => {
                let none: &[SVGDependency] = &[];
                assert(none@ =~= Seq::<SVGDependency>::empty());
                none
            },
        }
    }

    /// The children of `node`, in the order the nodes were given.
    pub fn children_of(&self, node: OpaqueNode) -> (r: &[OpaqueNode])
        ensures
            r@ == seq_or_empty(self@.children_by_node, node.0),
    {
        match self.children_by_node.get(&node.0) {
            Some(v) => v.as_slice(),
            None => {
                let none: &[OpaqueNode] = &[];
                assert(none@ =~= Seq::<OpaqueNode>::empty());
                none
            },
        }
    }
}

/// The resource that an element of the given kind defines when it names
/// none itself.
fn default_resource(kind: SVGLayoutNodeKind) -> (r: Option<SVGResourceKind>)
    ensures
        r == default_resource_for_kind(kind),
{
    match kind {
        SVGLayoutNodeKind::Gradient => Some(SVGResourceKind::PaintServer(SVGPaintServerKind::Gradient)),
        SVGLayoutNodeKind::ClipPath => Some(SVGResourceKind::ClipPath),
        SVGLayoutNodeKind::Mask => Some(SVGResourceKind::Mask),
        SVGLayoutNodeKind::Pattern => Some(SVGResourceKind::PaintServer(SVGPaintServerKind::Pattern)),
        SVGLayoutNodeKind::Filter => Some(SVGResourceKind::Filter),
        SVGLayoutNodeKind::Marker => Some(SVGResourceKind::Marker),
        _ => None,
    }
}

/// The reason that a resource's content makes it depend on the nodes inside
/// it.
fn content_kind(r: SVGResourceKind) -> (k: Option<SVGDependencyKind>)
    ensures
        k == content_dependency_kind(r),
{
    match r {
        SVGResourceKind::PaintServer(SVGPaintServerKind::Gradient) => Some(SVGDependencyKind::GradientContent),
        SVGResourceKind::PaintServer(SVGPaintServerKind::Pattern) => Some(SVGDependencyKind::Pattern),
        SVGResourceKind::ClipPath => Some(SVGDependencyKind::ClipPath),
        SVGResourceKind::Mask => Some(SVGDependencyKind::Mask),
        SVGResourceKind::Filter => Some(SVGDependencyKind::Filter),
        SVGResourceKind::Marker => Some(SVGDependencyKind::Marker),
        SVGResourceKind::UseInstanceSource => None,
    }
}

/// The owner search of `resource_owner_above`, resumed at `current` with
/// `fuel` steps left.
pub open spec fn owner_search_from(g: ResourceGraphModel, current: Option<OpaqueNode>, fuel: nat) -> Option<OpaqueNode> {
    match current {
        None => None,
        Some(p) => if g.resource_ids_by_node.contains_key(p.0) {
            Some(p)
        } else if fuel == 0 {
            None
        } else {
            resource_owner_above(g, p.0, (fuel - 1) as nat)
        },
    }
}

impl SVGResourceGraph {
    /// The parent recorded for node `k`.
    fn parent(&self, k: usize) -> (r: Option<OpaqueNode>)
        ensures
            r == parent_of(self@, k),
    {
        match self.parent_by_node.get(&k) {
            Some(p) => *p,
            None => None,
        }
    }

    /// Second pass, one node: see `resource_step`.
    fn record_resource(&mut self, n: &SVGResourceGraphNode)
        requires
            old(self)@.resources.len() < u32::MAX,
        ensures
            final(self)@ == resource_step(old(self)@, *n),
    {
        let ghost g = self@;
        let k = n.node.0;
        let defined_kind = match n.defined_resource {
            Some(r) => Some(r),
            None => default_resource(n.kind),
        };
        let defined = match defined_kind {
            Some(r) => {
                let id = SVGResourceId(self.resources.len() as u32);
                self.resources.push(r);
                self.resource_owners.insert(id.0, n.node);
                self.resource_ids_by_node.insert(k, id);
                match &n.element_id {
                    Some(e) => {
                        self.resources_by_element_id.insert(e.clone(), id);
                    },
                    None => {},
                }
                Some(id)
            },
            None => None,
        };
        let info = SVGGraphNodeInfo {
            kind: n.kind,
            establishes_viewport: n.establishes_viewport,
            participates_in_paint: n.participates_in_paint,
            defined_resource: defined,
        };
        self.node_info.insert(k, info);
        let empty = SVGResolvedNodeResources {
            paint_servers: SVGPaintServerUses { fill: None, stroke: None },
            resources: SVGEffectState {
                clip_path: None,
                mask: None,
                filter: None,
                marker_start: None,
                marker_mid: None,
                marker_end: None,
            },
            use_instance_source: None,
            referenced_node: None,
        };
        self.node_resources.insert(k, empty);
        assert(self@ =~= resource_step(g, *n));
    }

    /// The nearest proper ancestor of `node` that owns a resource, looking
    /// at most `fuel + 1` parents up.
    fn resource_owner_for_descendant(&self, node: OpaqueNode, fuel: usize) -> (r: Option<OpaqueNode>)
        ensures
            r == resource_owner_above(self@, node.0, fuel as nat),
    {
        let mut current = self.parent(node.0);
        let mut f = fuel;
        loop
            invariant
                resource_owner_above(self@, node.0, fuel as nat) == owner_search_from(self@, current, f as nat),
            decreases f,
        {
            match current {
                None => {
                    return None;
                },
                Some(p) => {
                    if self.resource_ids_by_node.contains_key(&p.0) {
                        return Some(p);
                    }
                    if f == 0 {
                        return None;
                    }
                    f = f - 1;
                    current = self.parent(p.0);
                },
            }
        }
    }

    /// Third pass, one node: see `content_step`.
    fn record_content_dependency(&mut self, n: &SVGResourceGraphNode, fuel: usize)
        ensures
            final(self)@ == content_step(old(self)@, *n, fuel as nat),
    {
        match self.resource_owner_for_descendant(n.node, fuel) {
            Some(owner) => {
                if owner != n.node {
                    match self.resource_ids_by_node.get(&owner.0) {
                        Some(id_ref) => {
                            let id = *id_ref;
                            let i = id.0 as usize;
                            if i < self.resources.len() {
                                match content_kind(self.resources[i]) {
                                    Some(kind) => {
                                        self.push_dependency(
                                            SVGDependencySource::Node(n.node),
                                            kind,
                                            SVGDependencyTarget::Resource(id),
                                        );
                                    },
                                    None => {},
                                }
                            }
                        },
                        None => {},
                    }
                }
            },
            None => {},
        }
    }
}

impl SVGResourceGraph {
    /// The resource that `reference` names through an element id.
    fn resolve_reference(&self, reference: &Option<String>) -> (r: Option<SVGResourceId>)
        ensures
            r == resolve_resource(self@, *reference),
    {
        match reference {
            Some(s) => match normalize_local_reference(s.as_str()) {
                Some(id) => match self.resources_by_element_id.get(id) {
                    Some(r) => Some(*r),
                    None => None,
                },
                None => None,
            },
            None => None,
        }
    }

    /// The node that `reference` names through an element id.
    fn resolve_node_reference(&self, reference: &Option<String>) -> (r: Option<OpaqueNode>)
        ensures
            r == resolve_node(self@, *reference),
    {
        match reference {
            Some(s) => match normalize_local_reference(s.as_str()) {
                Some(id) => match self.nodes_by_element_id.get(id) {
                    Some(n) => Some(*n),
                    None => None,
                },
                None => None,
            },
            None => None,
        }
    }

    /// Records that `resource`, when there is one, is a dependency source
    /// of `node` for the reason `kind`.
    fn push_optional_resource_dependency(&mut self, node: OpaqueNode, resource: Option<SVGResourceId>, kind: SVGDependencyKind)
        ensures
            final(self)@ == push_optional_dep(old(self)@, node, resource, kind),
    {
        match resource {
            Some(r) => self.push_dependency(SVGDependencySource::Resource(r), kind, SVGDependencyTarget::Node(node)),
            None => {},
        }
    }

    /// Fourth pass, one node: see `reference_step`.
    fn resolve_node_references(&mut self, n: &SVGResourceGraphNode)
        requires
            old(self)@.resources.len() < u32::MAX,
        ensures
            final(self)@ == reference_step(old(self)@, *n),
    {
        let ghost g = self@;
        let fill = self.resolve_reference(&n.fill_paint_server);
        let stroke = self.resolve_reference(&n.stroke_paint_server);
        let clip_path = self.resolve_reference(&n.resources.clip_path);
        let mask = self.resolve_reference(&n.resources.mask);
        let filter = self.resolve_reference(&n.resources.filter);
        let marker_start = self.resolve_reference(&n.resources.marker_start);
        let marker_mid = self.resolve_reference(&n.resources.marker_mid);
        let marker_end = self.resolve_reference(&n.resources.marker_end);
        let mut use_instance_source: Option<SVGResourceId> = None;
        let mut referenced_node: Option<OpaqueNode> = None;
        if matches!(n.kind, SVGLayoutNodeKind::Use) {
            referenced_node = self.resolve_node_reference(&n.href);
            match referenced_node {
                Some(referenced) => {
                    let id = SVGResourceId(self.resources.len() as u32);
                    self.resources.push(SVGResourceKind::UseInstanceSource);
                    self.resource_owners.insert(id.0, n.node);
                    self.resource_ids_by_node.insert(n.node.0, id);
                    use_instance_source = Some(id);
                    self.push_dependency(
                        SVGDependencySource::Node(referenced),
                        SVGDependencyKind::UseSource,
                        SVGDependencyTarget::Resource(id),
                    );
                    self.push_dependency(
                        SVGDependencySource::Resource(id),
                        SVGDependencyKind::UseSource,
                        SVGDependencyTarget::Node(n.node),
                    );
                },
                None => {},
            }
        }
        let ghost g1 = self@;
        assert(g1 == use_step(g, *n));
        let resolved = SVGResolvedNodeResources {
            paint_servers: SVGPaintServerUses { fill, stroke },
            resources: SVGEffectState { clip_path, mask, filter, marker_start, marker_mid, marker_end },
            use_instance_source,
            referenced_node,
        };
        assert(resolved == resolved_references(g, *n));
        self.node_resources.insert(n.node.0, resolved);
        let ghost g2 = self@;
        assert(g2 == ResourceGraphModel { node_resources: g1.node_resources.insert(n.node.0, resolved), ..g1 });
        self.push_optional_resource_dependency(n.node, fill, SVGDependencyKind::PaintServer);
        self.push_optional_resource_dependency(n.node, stroke, SVGDependencyKind::PaintServer);
        self.push_optional_resource_dependency(n.node, clip_path, SVGDependencyKind::ClipPath);
        self.push_optional_resource_dependency(n.node, mask, SVGDependencyKind::Mask);
        self.push_optional_resource_dependency(n.node, filter, SVGDependencyKind::Filter);
        self.push_optional_resource_dependency(n.node, marker_start, SVGDependencyKind::Marker);
        self.push_optional_resource_dependency(n.node, marker_mid, SVGDependencyKind::Marker);
        self.push_optional_resource_dependency(n.node, marker_end, SVGDependencyKind::Marker);
        let ghost g3 = self@;
        assert(g3 == reference_deps(g2, *n, resolved));
        if matches!(n.kind, SVGLayoutNodeKind::Gradient) || matches!(n.kind, SVGLayoutNodeKind::Pattern) {
            let owner = match self.resource_ids_by_node.get(&n.node.0) {
                Some(id) => *id,
                None => {
                    return;
                },
            };
            let kind = if matches!(n.kind, SVGLayoutNodeKind::Gradient) {
                SVGDependencyKind::GradientTemplate
            } else {
                SVGDependencyKind::Pattern
            };
            let template = self.resolve_reference(&n.href);
            match template {
                Some(t) => self.push_dependency(
                    SVGDependencySource::Resource(t),
                    kind,
                    SVGDependencyTarget::Resource(owner),
                ),
                None => {},
            }
        } else if matches!(n.kind, SVGLayoutNodeKind::TextPath) {
            let referenced = self.resolve_node_reference(&n.href);
            match referenced {
                Some(path) => self.push_dependency(
                    SVGDependencySource::Node(path),
                    SVGDependencyKind::TextPathSource,
                    SVGDependencyTarget::Node(n.node),
                ),
                None => {},
            }
        }
    }
}

impl SVGResourceGraph {
    /// Builds the resource graph of `nodes`, given in document order: every
    /// node's structure first, then the resources that nodes define (in node
    /// order, so the first defined resource has id 0), then the dependencies
    /// of resources on the nodes inside them, and last each node's resolved
    /// references with the dependencies they bring.
    ///
    /// The search for the resource owner above a node looks at most as many
    /// parents up as there are nodes; where the chain of parents ends or
    /// meets an owner within that many steps, a longer search gives the same
    /// owner (`lemma_owner_search_fuel`). Each node adds at most two
    /// resources, whose ids must fit in `u32`.
    pub fn build(nodes: &[SVGResourceGraphNode]) -> (g: Self)
        requires
            nodes.len() < 0x7fff_ffff,
        ensures
            g@ == build_model(nodes@),
    {
        let n = nodes.len();
        let mut graph = Self::empty();
        let mut i: usize = 0;
        while i < n
            invariant
                i <= n == nodes.len(),
                graph@ == structure_pass(empty_model(), nodes@.take(i as int)),
                graph@.resources.len() == 0,
            decreases n - i,
        {
            assert(nodes@.take(i + 1).drop_last() =~= nodes@.take(i as int));
            graph.record_structure(&nodes[i]);
            i = i + 1;
        }
        assert(nodes@.take(n as int) =~= nodes@);
        let ghost g1 = graph@;
        i = 0;
        while i < n
            invariant
                i <= n == nodes.len() < 0x7fff_ffff,
                graph@ == resource_pass(g1, nodes@.take(i as int)),
                graph@.resources.len() <= i,
            decreases n - i,
        {
            assert(nodes@.take(i + 1).drop_last() =~= nodes@.take(i as int));
            graph.record_resource(&nodes[i]);
            i = i + 1;
        }
        let ghost g2 = graph@;
        i = 0;
        while i < n
            invariant
                i <= n == nodes.len() < 0x7fff_ffff,
                graph@ == content_pass(g2, nodes@.take(i as int), n as nat),
                graph@.resources.len() <= n,
            decreases n - i,
        {
            assert(nodes@.take(i + 1).drop_last() =~= nodes@.take(i as int));
            graph.record_content_dependency(&nodes[i], n);
            i = i + 1;
        }
        let ghost g3 = graph@;
        i = 0;
        while i < n
            invariant
                i <= n == nodes.len() < 0x7fff_ffff,
                graph@ == reference_pass(g3, nodes@.take(i as int)),
                graph@.resources.len() <= n + i,
            decreases n - i,
        {
            assert(nodes@.take(i + 1).drop_last() =~= nodes@.take(i as int));
            graph.resolve_node_references(&nodes[i]);
            i = i + 1;
        }
        graph
    }
}

// ---------------------------------------------------------------------------
// Laws of the resource graph
// ---------------------------------------------------------------------------

/// No dependency is filed twice under one source.
pub open spec fn dependencies_distinct(g: ResourceGraphModel) -> bool {
    &&& forall|k: usize| #[trigger] g.node_dependencies.contains_key(k) ==> g.node_dependencies[k].no_duplicates()
    &&& forall|k: u32| #[trigger] g.resource_dependencies.contains_key(k) ==> g.resource_dependencies[k].no_duplicates()
}

/// Every dependency filed in `g` is still filed in `h`.
pub open spec fn dependencies_kept(g: ResourceGraphModel, h: ResourceGraphModel) -> bool {
    &&& forall|k: usize, d: SVGDependency| #[trigger] seq_or_empty(g.node_dependencies, k).contains(d) ==> #[trigger] seq_or_empty(h.node_dependencies, k).contains(d)
    &&& forall|k: u32, d: SVGDependency| #[trigger] seq_or_empty(g.resource_dependencies, k).contains(d) ==> #[trigger] seq_or_empty(h.resource_dependencies, k).contains(d)
}

/// The element-id tables of two graphs agree.
pub open spec fn same_id_tables(g: ResourceGraphModel, h: ResourceGraphModel) -> bool {
    &&& g.resources_by_element_id == h.resources_by_element_id
    &&& g.nodes_by_element_id == h.nodes_by_element_id
}

/// Recording a dependency files it, keeps every other, files nothing twice
/// and changes nothing but the dependency lists.
pub proof fn lemma_push_dep(
    g: ResourceGraphModel,
    source: SVGDependencySource,
    kind: SVGDependencyKind,
    target: SVGDependencyTarget,
)
    ensures
        dependencies_kept(g, push_dep(g, source, kind, target)),
        dependencies_distinct(g) ==> dependencies_distinct(push_dep(g, source, kind, target)),
        same_id_tables(g, push_dep(g, source, kind, target)),
        push_dep(g, source, kind, target).resources == g.resources,
        push_dep(g, source, kind, target).resource_ids_by_node == g.resource_ids_by_node,
        push_dep(g, source, kind, target).resource_owners == g.resource_owners,
        push_dep(g, source, kind, target).node_resources == g.node_resources,
        push_dep(g, source, kind, target).node_info == g.node_info,
        push_dep(g, source, kind, target).parent_by_node == g.parent_by_node,
        match source {
            SVGDependencySource::Node(n) => seq_or_empty(push_dep(g, source, kind, target).node_dependencies, n.0).contains(
                SVGDependency { kind, target },
            ),
            SVGDependencySource::Resource(r) => seq_or_empty(push_dep(g, source, kind, target).resource_dependencies, r.0).contains(
                SVGDependency { kind, target },
            ),
        },
{
    let d = SVGDependency { kind, target };
    let h = push_dep(g, source, kind, target);
    match source {
        SVGDependencySource::Node(n) => {
            let old_deps = seq_or_empty(g.node_dependencies, n.0);
            let new_deps = add_dependency(old_deps, d);
            assert(new_deps.contains(d)) by {
                if !old_deps.contains(d) {
                    assert(new_deps[old_deps.len() as int] == d);
                }
            }
            assert forall|k: usize, e: SVGDependency| #[trigger] seq_or_empty(g.node_dependencies, k).contains(e) implies #[trigger] seq_or_empty(h.node_dependencies, k).contains(e) by {
                if k == n.0 && !old_deps.contains(d) {
                    let j = choose|j: int| 0 <= j < old_deps.len() && old_deps[j] == e;
                    assert(new_deps[j] == e);
                }
            }
            if dependencies_distinct(g) {
                assert forall|k: usize| #[trigger] h.node_dependencies.contains_key(k) implies h.node_dependencies[k].no_duplicates() by {
                    if k == n.0 {
                        if !old_deps.contains(d) {
                            assert(old_deps.no_duplicates());
                            assert forall|a: int, b: int| 0 <= a < new_deps.len() && 0 <= b < new_deps.len() && a != b implies new_deps[a] != new_deps[b] by {
                                if a == old_deps.len() as int {
                                    assert(!old_deps.contains(new_deps[b]) || new_deps[b] != d);
                                    if new_deps[b] == d {
                                        assert(old_deps[b] == d);
                                    }
                                } else if b == old_deps.len() as int {
                                    if new_deps[a] == d {
                                        assert(old_deps[a] == d);
                                    }
                                }
                            }
                        }
                    }
                }
            }
        },
        SVGDependencySource::Resource(r) => {
            let old_deps = seq_or_empty(g.resource_dependencies, r.0);
            let new_deps = add_dependency(old_deps, d);
            assert(new_deps.contains(d)) by {
                if !old_deps.contains(d) {
                    assert(new_deps[old_deps.len() as int] == d);
                }
            }
            assert forall|k: u32, e: SVGDependency| #[trigger] seq_or_empty(g.resource_dependencies, k).contains(e) implies #[trigger] seq_or_empty(h.resource_dependencies, k).contains(e) by {
                if k == r.0 && !old_deps.contains(d) {
                    let j = choose|j: int| 0 <= j < old_deps.len() && old_deps[j] == e;
                    assert(new_deps[j] == e);
                }
            }
            if dependencies_distinct(g) {
                assert forall|k: u32| #[trigger] h.resource_dependencies.contains_key(k) implies h.resource_dependencies[k].no_duplicates() by {
                    if k == r.0 {
                        if !old_deps.contains(d) {
                            assert(old_deps.no_duplicates());
                            assert forall|a: int, b: int| 0 <= a < new_deps.len() && 0 <= b < new_deps.len() && a != b implies new_deps[a] != new_deps[b] by {
                                if a == old_deps.len() as int {
                                    if new_deps[b] == d {
                                        assert(old_deps[b] == d);
                                    }
                                } else if b == old_deps.len() as int {
                                    if new_deps[a] == d {
                                        assert(old_deps[a] == d);
                                    }
                                }
                            }
                        }
                    }
                }
            }
        },
    }
}

/// Whether `resource`, when there is one, has `node` filed as a dependent
/// for the reason `kind`.
pub open spec fn reference_recorded(
    g: ResourceGraphModel,
    resource: Option<SVGResourceId>,
    kind: SVGDependencyKind,
    node: OpaqueNode,
) -> bool {
    match resource {
        Some(r) => seq_or_empty(g.resource_dependencies, r.0).contains(
            SVGDependency { kind, target: SVGDependencyTarget::Node(node) },
        ),
        None => true,
    }
}

/// Keeping dependencies is transitive.
pub proof fn lemma_kept_trans(a: ResourceGraphModel, b: ResourceGraphModel, c: ResourceGraphModel)
    requires
        dependencies_kept(a, b),
        dependencies_kept(b, c),
    ensures
        dependencies_kept(a, c),
{
    assert forall|k: usize, d: SVGDependency| #[trigger] seq_or_empty(a.node_dependencies, k).contains(d) implies #[trigger] seq_or_empty(c.node_dependencies, k).contains(d) by {
        assert(seq_or_empty(b.node_dependencies, k).contains(d));
    }
    assert forall|k: u32, d: SVGDependency| #[trigger] seq_or_empty(a.resource_dependencies, k).contains(d) implies #[trigger] seq_or_empty(c.resource_dependencies, k).contains(d) by {
        assert(seq_or_empty(b.resource_dependencies, k).contains(d));
    }
}

/// A recorded reference stays recorded where dependencies are kept.
pub proof fn lemma_recorded_kept(
    a: ResourceGraphModel,
    b: ResourceGraphModel,
    resource: Option<SVGResourceId>,
    kind: SVGDependencyKind,
    node: OpaqueNode,
)
    requires
        dependencies_kept(a, b),
        reference_recorded(a, resource, kind, node),
    ensures
        reference_recorded(b, resource, kind, node),
{
    match resource {
        Some(r) => {
            assert(seq_or_empty(a.resource_dependencies, r.0).contains(
                SVGDependency { kind, target: SVGDependencyTarget::Node(node) },
            ));
        },
        None => {},
    }
}

/// Recording an optional dependency: see `lemma_push_dep`.
pub proof fn lemma_push_optional_dep(
    g: ResourceGraphModel,
    node: OpaqueNode,
    resource: Option<SVGResourceId>,
    kind: SVGDependencyKind,
)
    ensures
        dependencies_kept(g, push_optional_dep(g, node, resource, kind)),
        dependencies_distinct(g) ==> dependencies_distinct(push_optional_dep(g, node, resource, kind)),
        same_id_tables(g, push_optional_dep(g, node, resource, kind)),
        push_optional_dep(g, node, resource, kind).node_resources == g.node_resources,
        push_optional_dep(g, node, resource, kind).resource_ids_by_node == g.resource_ids_by_node,
        push_optional_dep(g, node, resource, kind).resources == g.resources,
        reference_recorded(push_optional_dep(g, node, resource, kind), resource, kind, node),
{
    match resource {
        Some(r) => lemma_push_dep(g, SVGDependencySource::Resource(r), kind, SVGDependencyTarget::Node(node)),
        None => {},
    }
}

/// A graph's reference step keeps every dependency, files none twice,
/// leaves the element-id tables alone, records what the node's references
/// resolve to, and files the node as a dependent of each resource it
/// references.
pub proof fn lemma_reference_step(g: ResourceGraphModel, n: SVGResourceGraphNode)
    ensures
        dependencies_kept(g, reference_step(g, n)),
        dependencies_distinct(g) ==> dependencies_distinct(reference_step(g, n)),
        same_id_tables(g, reference_step(g, n)),
        reference_step(g, n).node_resources == g.node_resources.insert(n.node.0, resolved_references(g, n)),
        reference_step(g, n).node_info == g.node_info,
        ({
            let h = reference_step(g, n);
            let r = resolved_references(g, n);
            &&& reference_recorded(h, r.paint_servers.fill, SVGDependencyKind::PaintServer, n.node)
            &&& reference_recorded(h, r.paint_servers.stroke, SVGDependencyKind::PaintServer, n.node)
            &&& reference_recorded(h, r.resources.clip_path, SVGDependencyKind::ClipPath, n.node)
            &&& reference_recorded(h, r.resources.mask, SVGDependencyKind::Mask, n.node)
            &&& reference_recorded(h, r.resources.filter, SVGDependencyKind::Filter, n.node)
            &&& reference_recorded(h, r.resources.marker_start, SVGDependencyKind::Marker, n.node)
            &&& reference_recorded(h, r.resources.marker_mid, SVGDependencyKind::Marker, n.node)
            &&& reference_recorded(h, r.resources.marker_end, SVGDependencyKind::Marker, n.node)
        }),
{
    let r = resolved_references(g, n);
    // The `<use>` resource.
    let g1 = use_step(g, n);
    if n.kind == SVGLayoutNodeKind::Use {
        match resolve_node(g, n.href) {
            Some(referenced) => {
                let id = SVGResourceId(g.resources.len() as u32);
                let g0 = ResourceGraphModel {
                    resources: g.resources.push(SVGResourceKind::UseInstanceSource),
                    resource_owners: g.resource_owners.insert(id.0, n.node),
                    resource_ids_by_node: g.resource_ids_by_node.insert(n.node.0, id),
                    ..g
                };
                let ga = push_dep(
                    g0,
                    SVGDependencySource::Node(referenced),
                    SVGDependencyKind::UseSource,
                    SVGDependencyTarget::Resource(id),
                );
                lemma_push_dep(
                    g0,
                    SVGDependencySource::Node(referenced),
                    SVGDependencyKind::UseSource,
                    SVGDependencyTarget::Resource(id),
                );
                lemma_push_dep(ga, SVGDependencySource::Resource(id), SVGDependencyKind::UseSource, SVGDependencyTarget::Node(n.node));
                lemma_kept_trans(g0, ga, g1);
            },
            None => {},
        }
    }
    assert(dependencies_kept(g, g1));
    assert(dependencies_distinct(g) ==> dependencies_distinct(g1));
    let g2 = ResourceGraphModel { node_resources: g1.node_resources.insert(n.node.0, r), ..g1 };
    let h1 = push_optional_dep(g2, n.node, r.paint_servers.fill, SVGDependencyKind::PaintServer);
    let h2 = push_optional_dep(h1, n.node, r.paint_servers.stroke, SVGDependencyKind::PaintServer);
    let h3 = push_optional_dep(h2, n.node, r.resources.clip_path, SVGDependencyKind::ClipPath);
    let h4 = push_optional_dep(h3, n.node, r.resources.mask, SVGDependencyKind::Mask);
    let h5 = push_optional_dep(h4, n.node, r.resources.filter, SVGDependencyKind::Filter);
    let h6 = push_optional_dep(h5, n.node, r.resources.marker_start, SVGDependencyKind::Marker);
    let h7 = push_optional_dep(h6, n.node, r.resources.marker_mid, SVGDependencyKind::Marker);
    let h8 = push_optional_dep(h7, n.node, r.resources.marker_end, SVGDependencyKind::Marker);
    lemma_push_optional_dep(g2, n.node, r.paint_servers.fill, SVGDependencyKind::PaintServer);
    lemma_push_optional_dep(h1, n.node, r.paint_servers.stroke, SVGDependencyKind::PaintServer);
    lemma_push_optional_dep(h2, n.node, r.resources.clip_path, SVGDependencyKind::ClipPath);
    lemma_push_optional_dep(h3, n.node, r.resources.mask, SVGDependencyKind::Mask);
    lemma_push_optional_dep(h4, n.node, r.resources.filter, SVGDependencyKind::Filter);
    lemma_push_optional_dep(h5, n.node, r.resources.marker_start, SVGDependencyKind::Marker);
    lemma_push_optional_dep(h6, n.node, r.resources.marker_mid, SVGDependencyKind::Marker);
    lemma_push_optional_dep(h7, n.node, r.resources.marker_end, SVGDependencyKind::Marker);
    assert(h8 == reference_deps(g2, n, r));
    let h = template_deps(h8, n);
    if n.kind == SVGLayoutNodeKind::Gradient || n.kind == SVGLayoutNodeKind::Pattern {
        if h8.resource_ids_by_node.contains_key(n.node.0) {
            let owner = h8.resource_ids_by_node[n.node.0];
            let kind = if n.kind == SVGLayoutNodeKind::Gradient {
                SVGDependencyKind::GradientTemplate
            } else {
                SVGDependencyKind::Pattern
            };
            match resolve_resource(h8, n.href) {
                Some(t) => lemma_push_dep(h8, SVGDependencySource::Resource(t), kind, SVGDependencyTarget::Resource(owner)),
                None => {},
            }
        }
    } else if n.kind == SVGLayoutNodeKind::TextPath {
        match resolve_node(h8, n.href) {
            Some(path) => lemma_push_dep(
                h8,
                SVGDependencySource::Node(path),
                SVGDependencyKind::TextPathSource,
                SVGDependencyTarget::Node(n.node),
            ),
            None => {},
        }
    }
    assert(h == reference_step(g, n));
    assert(dependencies_kept(h8, h));
    lemma_kept_trans(g2, h1, h2);
    lemma_kept_trans(g2, h2, h3);
    lemma_kept_trans(g2, h3, h4);
    lemma_kept_trans(g2, h4, h5);
    lemma_kept_trans(g2, h5, h6);
    lemma_kept_trans(g2, h6, h7);
    lemma_kept_trans(g2, h7, h8);
    lemma_kept_trans(g2, h8, h);
    lemma_kept_trans(g, g2, h);
    lemma_kept_trans(h1, h2, h3);
    lemma_kept_trans(h1, h3, h4);
    lemma_kept_trans(h1, h4, h5);
    lemma_kept_trans(h1, h5, h6);
    lemma_kept_trans(h1, h6, h7);
    lemma_kept_trans(h1, h7, h8);
    lemma_kept_trans(h1, h8, h);
    lemma_recorded_kept(h1, h, r.paint_servers.fill, SVGDependencyKind::PaintServer, n.node);
    lemma_kept_trans(h2, h3, h4);
    lemma_kept_trans(h2, h4, h5);
    lemma_kept_trans(h2, h5, h6);
    lemma_kept_trans(h2, h6, h7);
    lemma_kept_trans(h2, h7, h8);
    lemma_kept_trans(h2, h8, h);
    lemma_recorded_kept(h2, h, r.paint_servers.stroke, SVGDependencyKind::PaintServer, n.node);
    lemma_kept_trans(h3, h4, h5);
    lemma_kept_trans(h3, h5, h6);
    lemma_kept_trans(h3, h6, h7);
    lemma_kept_trans(h3, h7, h8);
    lemma_kept_trans(h3, h8, h);
    lemma_recorded_kept(h3, h, r.resources.clip_path, SVGDependencyKind::ClipPath, n.node);
    lemma_kept_trans(h4, h5, h6);
    lemma_kept_trans(h4, h6, h7);
    lemma_kept_trans(h4, h7, h8);
    lemma_kept_trans(h4, h8, h);
    lemma_recorded_kept(h4, h, r.resources.mask, SVGDependencyKind::Mask, n.node);
    lemma_kept_trans(h5, h6, h7);
    lemma_kept_trans(h5, h7, h8);
    lemma_kept_trans(h5, h8, h);
    lemma_recorded_kept(h5, h, r.resources.filter, SVGDependencyKind::Filter, n.node);
    lemma_kept_trans(h6, h7, h8);
    lemma_kept_trans(h6, h8, h);
    lemma_recorded_kept(h6, h, r.resources.marker_start, SVGDependencyKind::Marker, n.node);
    lemma_kept_trans(h7, h8, h);
    lemma_recorded_kept(h7, h, r.resources.marker_mid, SVGDependencyKind::Marker, n.node);
    lemma_recorded_kept(h8, h, r.resources.marker_end, SVGDependencyKind::Marker, n.node);
}

/// The first pass touches neither dependencies nor resources.
pub proof fn lemma_structure_pass(g: ResourceGraphModel, s: Seq<SVGResourceGraphNode>)
    ensures
        structure_pass(g, s).node_dependencies == g.node_dependencies,
        structure_pass(g, s).resource_dependencies == g.resource_dependencies,
        structure_pass(g, s).resources == g.resources,
    decreases s.len(),
{
    if s.len() > 0 {
        lemma_structure_pass(g, s.drop_last());
    }
}

/// The second pass touches no dependency and no node id table, and gives
/// every node its info and an empty resolution.
pub proof fn lemma_resource_pass(g: ResourceGraphModel, s: Seq<SVGResourceGraphNode>)
    ensures
        resource_pass(g, s).node_dependencies == g.node_dependencies,
        resource_pass(g, s).resource_dependencies == g.resource_dependencies,
        resource_pass(g, s).nodes_by_element_id == g.nodes_by_element_id,
        resource_pass(g, s).parent_by_node == g.parent_by_node,
        forall|i: int| 0 <= i < s.len() ==> resource_pass(g, s).node_info.contains_key(#[trigger] s[i].node.0),
        forall|i: int| 0 <= i < s.len() ==> resource_pass(g, s).node_resources.contains_key(#[trigger] s[i].node.0),
    decreases s.len(),
{
    if s.len() > 0 {
        let t = s.drop_last();
        lemma_resource_pass(g, t);
        assert forall|i: int| 0 <= i < s.len() implies resource_pass(g, s).node_info.contains_key(#[trigger] s[i].node.0)
            && resource_pass(g, s).node_resources.contains_key(s[i].node.0) by {
            if i < t.len() {
                assert(t[i] == s[i]);
            }
        }
    }
}

/// The third pass keeps every dependency, files none twice, and leaves the
/// id tables, the resolutions and the node infos alone.
pub proof fn lemma_content_pass(g: ResourceGraphModel, s: Seq<SVGResourceGraphNode>, fuel: nat)
    ensures
        dependencies_kept(g, content_pass(g, s, fuel)),
        dependencies_distinct(g) ==> dependencies_distinct(content_pass(g, s, fuel)),
        same_id_tables(g, content_pass(g, s, fuel)),
        content_pass(g, s, fuel).resources == g.resources,
        content_pass(g, s, fuel).resource_ids_by_node == g.resource_ids_by_node,
        content_pass(g, s, fuel).resource_owners == g.resource_owners,
        content_pass(g, s, fuel).node_resources == g.node_resources,
        content_pass(g, s, fuel).node_info == g.node_info,
    decreases s.len(),
{
    if s.len() > 0 {
        let t = s.drop_last();
        let n = s.last();
        lemma_content_pass(g, t, fuel);
        let a = content_pass(g, t, fuel);
        match resource_owner_above(a, n.node.0, fuel) {
            Some(owner) => if owner != n.node && a.resource_ids_by_node.contains_key(owner.0) {
                let id = a.resource_ids_by_node[owner.0];
                if 0 <= id.0 < a.resources.len() {
                    match content_dependency_kind(a.resources[id.0 as int]) {
                        Some(kind) => lemma_push_dep(
                            a,
                            SVGDependencySource::Node(n.node),
                            kind,
                            SVGDependencyTarget::Resource(id),
                        ),
                        None => {},
                    }
                }
            },
            None => {},
        }
        lemma_kept_trans(g, a, content_pass(g, s, fuel));
    }
}

/// The fourth pass, from a prefix of the nodes to all of them, keeps every
/// dependency and the id tables.
pub proof fn lemma_reference_pass_prefix(g: ResourceGraphModel, s: Seq<SVGResourceGraphNode>, j: int)
    requires
        0 <= j <= s.len(),
    ensures
        dependencies_kept(reference_pass(g, s.take(j)), reference_pass(g, s)),
        same_id_tables(reference_pass(g, s.take(j)), reference_pass(g, s)),
    decreases s.len(),
{
    if j == s.len() {
        assert(s.take(j) =~= s);
    } else {
        let t = s.drop_last();
        assert(t.take(j) =~= s.take(j));
        lemma_reference_pass_prefix(g, t, j);
        lemma_reference_step(reference_pass(g, t), s.last());
        lemma_kept_trans(reference_pass(g, s.take(j)), reference_pass(g, t), reference_pass(g, s));
    }
}

/// The fourth pass files no dependency twice where none was, and keeps the
/// node infos.
pub proof fn lemma_reference_pass(g: ResourceGraphModel, s: Seq<SVGResourceGraphNode>)
    ensures
        dependencies_distinct(g) ==> dependencies_distinct(reference_pass(g, s)),
        reference_pass(g, s).node_info == g.node_info,
        forall|k: usize| g.node_resources.contains_key(k) ==> #[trigger] reference_pass(g, s).node_resources.contains_key(k),
    decreases s.len(),
{
    if s.len() > 0 {
        lemma_reference_pass(g, s.drop_last());
        lemma_reference_step(reference_pass(g, s.drop_last()), s.last());
    }
}

/// The graph after its third pass.
pub open spec fn content_model(nodes: Seq<SVGResourceGraphNode>) -> ResourceGraphModel {
    let g1 = structure_pass(empty_model(), nodes);
    let g2 = resource_pass(g1, nodes);
    content_pass(g2, nodes, nodes.len())
}

/// No reverse dependency is filed twice under one node or resource.
pub proof fn lemma_build_dependencies_distinct(nodes: Seq<SVGResourceGraphNode>)
    ensures
        dependencies_distinct(build_model(nodes)),
{
    let g1 = structure_pass(empty_model(), nodes);
    let g2 = resource_pass(g1, nodes);
    lemma_structure_pass(empty_model(), nodes);
    lemma_resource_pass(g1, nodes);
    assert(dependencies_distinct(g2));
    lemma_content_pass(g2, nodes, nodes.len());
    lemma_reference_pass(content_model(nodes), nodes);
}

/// Every node of the input has its info and its resolved references in the
/// graph.
pub proof fn lemma_build_knows_every_node(nodes: Seq<SVGResourceGraphNode>, i: int)
    requires
        0 <= i < nodes.len(),
    ensures
        build_model(nodes).node_info.contains_key(nodes[i].node.0),
        build_model(nodes).node_resources.contains_key(nodes[i].node.0),
        build_model(nodes).node_info[nodes[i].node.0] == resource_pass(structure_pass(empty_model(), nodes), nodes).node_info[nodes[i].node.0],
{
    let g1 = structure_pass(empty_model(), nodes);
    let g2 = resource_pass(g1, nodes);
    lemma_resource_pass(g1, nodes);
    assert(g2.node_info.contains_key(nodes[i].node.0));
    assert(g2.node_resources.contains_key(nodes[i].node.0));
    lemma_content_pass(g2, nodes, nodes.len());
    lemma_reference_pass(content_model(nodes), nodes);
}

/// Each reference of each node that names a resource by element id files
/// the node as a dependent of that resource, for the reason the reference
/// gives: fill and stroke as paint servers, and clip paths, masks, filters
/// and markers as such.
pub proof fn lemma_build_records_references(nodes: Seq<SVGResourceGraphNode>, i: int)
    requires
        0 <= i < nodes.len(),
    ensures
        ({
            let g = build_model(nodes);
            let n = nodes[i];
            &&& reference_recorded(g, resolve_resource(g, n.fill_paint_server), SVGDependencyKind::PaintServer, n.node)
            &&& reference_recorded(g, resolve_resource(g, n.stroke_paint_server), SVGDependencyKind::PaintServer, n.node)
            &&& reference_recorded(g, resolve_resource(g, n.resources.clip_path), SVGDependencyKind::ClipPath, n.node)
            &&& reference_recorded(g, resolve_resource(g, n.resources.mask), SVGDependencyKind::Mask, n.node)
            &&& reference_recorded(g, resolve_resource(g, n.resources.filter), SVGDependencyKind::Filter, n.node)
            &&& reference_recorded(g, resolve_resource(g, n.resources.marker_start), SVGDependencyKind::Marker, n.node)
            &&& reference_recorded(g, resolve_resource(g, n.resources.marker_mid), SVGDependencyKind::Marker, n.node)
            &&& reference_recorded(g, resolve_resource(g, n.resources.marker_end), SVGDependencyKind::Marker, n.node)
        }),
{
    let g3 = content_model(nodes);
    let g = build_model(nodes);
    let n = nodes[i];
    let gi = reference_pass(g3, nodes.take(i));
    assert(nodes.take(i + 1).drop_last() =~= nodes.take(i));
    assert(nodes.take(i + 1).last() == n);
    let h = reference_pass(g3, nodes.take(i + 1));
    assert(h == reference_step(gi, n));
    lemma_reference_step(gi, n);
    lemma_reference_pass_prefix(g3, nodes, i + 1);
    lemma_reference_pass_prefix(g3, nodes, i);
    assert(nodes.take(nodes.len() as int) =~= nodes);
    let r = resolved_references(gi, n);
    lemma_recorded_kept(h, g, r.paint_servers.fill, SVGDependencyKind::PaintServer, n.node);
    lemma_recorded_kept(h, g, r.paint_servers.stroke, SVGDependencyKind::PaintServer, n.node);
    lemma_recorded_kept(h, g, r.resources.clip_path, SVGDependencyKind::ClipPath, n.node);
    lemma_recorded_kept(h, g, r.resources.mask, SVGDependencyKind::Mask, n.node);
    lemma_recorded_kept(h, g, r.resources.filter, SVGDependencyKind::Filter, n.node);
    lemma_recorded_kept(h, g, r.resources.marker_start, SVGDependencyKind::Marker, n.node);
    lemma_recorded_kept(h, g, r.resources.marker_mid, SVGDependencyKind::Marker, n.node);
    lemma_recorded_kept(h, g, r.resources.marker_end, SVGDependencyKind::Marker, n.node);
}

/// Where nodes have distinct handles, the graph's resolution of each node's
/// paint servers and effect resources is what its references name by
/// element id.
pub proof fn lemma_build_resolves_references(nodes: Seq<SVGResourceGraphNode>, i: int)
    requires
        0 <= i < nodes.len(),
        forall|a: int, b: int| 0 <= a < nodes.len() && 0 <= b < nodes.len() && a != b ==> nodes[a].node != nodes[b].node,
    ensures
        ({
            let g = build_model(nodes);
            let n = nodes[i];
            let r = g.node_resources[n.node.0];
            &&& g.node_resources.contains_key(n.node.0)
            &&& r.paint_servers.fill == resolve_resource(g, n.fill_paint_server)
            &&& r.paint_servers.stroke == resolve_resource(g, n.stroke_paint_server)
            &&& r.resources.clip_path == resolve_resource(g, n.resources.clip_path)
            &&& r.resources.mask == resolve_resource(g, n.resources.mask)
            &&& r.resources.filter == resolve_resource(g, n.resources.filter)
            &&& r.resources.marker_start == resolve_resource(g, n.resources.marker_start)
            &&& r.resources.marker_mid == resolve_resource(g, n.resources.marker_mid)
            &&& r.resources.marker_end == resolve_resource(g, n.resources.marker_end)
            &&& r.referenced_node == (if n.kind == SVGLayoutNodeKind::Use {
                resolve_node(g, n.href)
            } else {
                None
            })
        }),
{
    let g3 = content_model(nodes);
    let n = nodes[i];
    let gi = reference_pass(g3, nodes.take(i));
    assert(nodes.take(i + 1).drop_last() =~= nodes.take(i));
    lemma_reference_step(gi, n);
    lemma_reference_pass_prefix(g3, nodes, i);
    assert(nodes.take(nodes.len() as int) =~= nodes);
    lemma_resolution_survives(g3, nodes, i, nodes.len() as int);
}

/// A node's resolution, once recorded, survives the reference steps of
/// nodes with other handles.
proof fn lemma_resolution_survives(g3: ResourceGraphModel, nodes: Seq<SVGResourceGraphNode>, i: int, j: int)
    requires
        0 <= i < j <= nodes.len(),
        forall|a: int, b: int| 0 <= a < nodes.len() && 0 <= b < nodes.len() && a != b ==> nodes[a].node != nodes[b].node,
    ensures
        reference_pass(g3, nodes.take(j)).node_resources.contains_key(nodes[i].node.0),
        reference_pass(g3, nodes.take(j)).node_resources[nodes[i].node.0] == resolved_references(
            reference_pass(g3, nodes.take(i)),
            nodes[i],
        ),
    decreases j - i,
{
    let n = nodes[i];
    if j == i + 1 {
        assert(nodes.take(i + 1).drop_last() =~= nodes.take(i));
        lemma_reference_step(reference_pass(g3, nodes.take(i)), n);
    } else {
        lemma_resolution_survives(g3, nodes, i, j - 1);
        assert(nodes.take(j).drop_last() =~= nodes.take(j - 1));
        assert(nodes[j - 1].node != n.node);
        lemma_reference_step(reference_pass(g3, nodes.take(j - 1)), nodes[j - 1]);
    }
}

/// Where the chain of parents ends or meets a resource owner within `f1`
/// steps, the owner search gives the same answer with any larger step limit.
pub proof fn lemma_owner_search_fuel(g: ResourceGraphModel, k: usize, f1: nat, f2: nat)
    requires
        owner_search_settles(g, k, f1),
        f1 <= f2,
    ensures
        resource_owner_above(g, k, f1) == resource_owner_above(g, k, f2),
    decreases f1,
{
    match parent_of(g, k) {
        None => {},
        Some(p) => {
            if !g.resource_ids_by_node.contains_key(p.0) {
                lemma_owner_search_fuel(g, p.0, (f1 - 1) as nat, (f2 - 1) as nat);
            }
        },
    }
}

/// Whether a breadth-first walk of the children lists that starts with
/// `queue` empties its queue within `fuel` steps.
pub open spec fn walk_finishes(g: ResourceGraphModel, queue: Seq<OpaqueNode>, fuel: nat) -> bool
    decreases fuel,
{
    if queue.len() == 0 {
        true
    } else {
        fuel > 0 && walk_finishes(
            g,
            queue.subrange(1, queue.len() as int) + seq_or_empty(g.children_by_node, queue[0].0),
            (fuel - 1) as nat,
        )
    }
}

/// The nodes that a breadth-first walk of the children lists, starting with
/// `queue`, visits in its first `fuel` steps, in visiting order.
pub open spec fn walk_order(g: ResourceGraphModel, queue: Seq<OpaqueNode>, fuel: nat) -> Seq<OpaqueNode>
    decreases fuel,
{
    if queue.len() == 0 || fuel == 0 {
        Seq::empty()
    } else {
        seq![queue[0]] + walk_order(
            g,
            queue.subrange(1, queue.len() as int) + seq_or_empty(g.children_by_node, queue[0].0),
            (fuel - 1) as nat,
        )
    }
}

/// A walk that finishes visits the same nodes whatever larger step limit
/// it is given.
pub proof fn lemma_walk_fuel(g: ResourceGraphModel, queue: Seq<OpaqueNode>, f1: nat, f2: nat)
    requires
        walk_finishes(g, queue, f1),
        walk_finishes(g, queue, f2),
    ensures
        walk_order(g, queue, f1) == walk_order(g, queue, f2),
    decreases f1,
{
    if queue.len() > 0 {
        let next = queue.subrange(1, queue.len() as int) + seq_or_empty(g.children_by_node, queue[0].0);
        lemma_walk_fuel(g, next, (f1 - 1) as nat, (f2 - 1) as nat);
    }
}

impl SVGResourceGraph {
    /// The descendants of `node` in breadth-first order, following the
    /// children lists; the walk must end, that is, the children lists below
    /// `node` have no cycle.
    pub fn descendants_of(&self, node: OpaqueNode) -> (r: Vec<OpaqueNode>)
        requires
            exists|f: nat| walk_finishes(self@, seq_or_empty(self@.children_by_node, node.0), f),
        ensures
            forall|f: nat| #[trigger] walk_finishes(self@, seq_or_empty(self@.children_by_node, node.0), f) ==> r@
                == walk_order(self@, seq_or_empty(self@.children_by_node, node.0), f),
    {
        let ghost g = self@;
        let ghost start = seq_or_empty(g.children_by_node, node.0);
        let ghost f0 = choose|f: nat| walk_finishes(g, start, f);
        let mut queue: Vec<OpaqueNode> = Vec::new();
        let first = self.children_of(node);
        let mut j: usize = 0;
        while j < first.len()
            invariant
                j <= first.len(),
                queue@ == first@.take(j as int),
            decreases first.len() - j,
        {
            queue.push(first[j]);
            j = j + 1;
            assert(queue@ =~= first@.take(j as int));
        }
        assert(first@.take(first.len() as int) =~= first@);
        assert(queue@.subrange(0, queue.len() as int) =~= start);
        let mut out: Vec<OpaqueNode> = Vec::new();
        let mut head: usize = 0;
        let ghost mut fuel = f0;
        while head < queue.len()
            invariant
                head <= queue.len(),
                g == self@,
                walk_finishes(g, queue@.subrange(head as int, queue.len() as int), fuel),
                out@ + walk_order(g, queue@.subrange(head as int, queue.len() as int), fuel) == walk_order(g, start, f0),
            decreases fuel,
        {
            let ghost q = queue@.subrange(head as int, queue.len() as int);
            let current = queue[head];
            head = head + 1;
            out.push(current);
            let kids = self.children_of(current);
            let ghost before = queue@;
            let mut k: usize = 0;
            while k < kids.len()
                invariant
                    k <= kids.len(),
                    queue@ == before + kids@.take(k as int),
                decreases kids.len() - k,
            {
                queue.push(kids[k]);
                k = k + 1;
                assert(queue@ =~= before + kids@.take(k as int));
            }
            assert(kids@.take(kids.len() as int) =~= kids@);
            proof {
                assert(queue@.subrange(head as int, queue.len() as int) =~= q.subrange(1, q.len() as int)
                    + seq_or_empty(g.children_by_node, current.0));
                assert(seq![current] + walk_order(g, queue@.subrange(head as int, queue.len() as int), (fuel - 1) as nat)
                    == walk_order(g, q, fuel));
                assert(out@ =~= out@.drop_last().push(current));
                assert(out@ + walk_order(g, queue@.subrange(head as int, queue.len() as int), (fuel - 1) as nat)
                    =~= out@.drop_last() + (seq![current] + walk_order(
                    g,
                    queue@.subrange(head as int, queue.len() as int),
                    (fuel - 1) as nat,
                )));
                fuel = (fuel - 1) as nat;
            }
        }
        proof {
            assert(queue@.subrange(head as int, queue.len() as int) =~= Seq::<OpaqueNode>::empty());
            assert(out@ =~= walk_order(g, start, f0));
            assert forall|f: nat| #[trigger] walk_finishes(g, start, f) implies out@ == walk_order(g, start, f) by {
                lemma_walk_fuel(g, start, f0, f);
            }
        }
        out
    }
}

/// Every resource id that the graph files under a node, an element id or an
/// owner names a resource in its list.
pub open spec fn ids_name_resources(g: ResourceGraphModel) -> bool {
    &&& forall|k: usize| #[trigger] g.resource_ids_by_node.contains_key(k) ==> g.resource_ids_by_node[k].0 < g.resources.len()
    &&& forall|e: Seq<char>| #[trigger] g.resources_by_element_id.contains_key(e) ==> g.resources_by_element_id[e].0 < g.resources.len()
    &&& forall|r: u32| #[trigger] g.resource_owners.contains_key(r) ==> r < g.resources.len()
}

/// The second pass adds at most one resource per node, and files only ids
/// of resources it added.
pub proof fn lemma_resource_pass_ids(g: ResourceGraphModel, s: Seq<SVGResourceGraphNode>)
    requires
        ids_name_resources(g),
        g.resources.len() + s.len() < u32::MAX,
    ensures
        ids_name_resources(resource_pass(g, s)),
        resource_pass(g, s).resources.len() <= g.resources.len() + s.len(),
    decreases s.len(),
{
    if s.len() > 0 {
        lemma_resource_pass_ids(g, s.drop_last());
    }
}

/// The first pass files no resource.
pub proof fn lemma_structure_pass_ids(g: ResourceGraphModel, s: Seq<SVGResourceGraphNode>)
    ensures
        structure_pass(g, s).resource_ids_by_node == g.resource_ids_by_node,
        structure_pass(g, s).resources_by_element_id == g.resources_by_element_id,
        structure_pass(g, s).resource_owners == g.resource_owners,
    decreases s.len(),
{
    if s.len() > 0 {
        lemma_structure_pass_ids(g, s.drop_last());
    }
}

/// The fourth pass adds at most one resource per node, and files only ids
/// of resources it added.
pub proof fn lemma_reference_pass_ids(g: ResourceGraphModel, s: Seq<SVGResourceGraphNode>)
    requires
        ids_name_resources(g),
        g.resources.len() + s.len() < u32::MAX,
    ensures
        ids_name_resources(reference_pass(g, s)),
        reference_pass(g, s).resources.len() <= g.resources.len() + s.len(),
    decreases s.len(),
{
    if s.len() > 0 {
        let t = s.drop_last();
        let n = s.last();
        lemma_reference_pass_ids(g, t);
        let a = reference_pass(g, t);
        let a1 = use_step(a, n);
        if n.kind == SVGLayoutNodeKind::Use {
            match resolve_node(a, n.href) {
                Some(referenced) => {
                    let id = SVGResourceId(a.resources.len() as u32);
                    let a0 = ResourceGraphModel {
                        resources: a.resources.push(SVGResourceKind::UseInstanceSource),
                        resource_owners: a.resource_owners.insert(id.0, n.node),
                        resource_ids_by_node: a.resource_ids_by_node.insert(n.node.0, id),
                        ..a
                    };
                    assert(ids_name_resources(a0));
                    let ab = push_dep(
                        a0,
                        SVGDependencySource::Node(referenced),
                        SVGDependencyKind::UseSource,
                        SVGDependencyTarget::Resource(id),
                    );
                    lemma_push_dep(
                        a0,
                        SVGDependencySource::Node(referenced),
                        SVGDependencyKind::UseSource,
                        SVGDependencyTarget::Resource(id),
                    );
                    lemma_push_dep(ab, SVGDependencySource::Resource(id), SVGDependencyKind::UseSource, SVGDependencyTarget::Node(n.node));
                },
                None => {},
            }
        }
        assert(ids_name_resources(a1));
        let r = resolved_references(a, n);
        let a2 = ResourceGraphModel { node_resources: a1.node_resources.insert(n.node.0, r), ..a1 };
        let h1 = push_optional_dep(a2, n.node, r.paint_servers.fill, SVGDependencyKind::PaintServer);
        let h2 = push_optional_dep(h1, n.node, r.paint_servers.stroke, SVGDependencyKind::PaintServer);
        let h3 = push_optional_dep(h2, n.node, r.resources.clip_path, SVGDependencyKind::ClipPath);
        let h4 = push_optional_dep(h3, n.node, r.resources.mask, SVGDependencyKind::Mask);
        let h5 = push_optional_dep(h4, n.node, r.resources.filter, SVGDependencyKind::Filter);
        let h6 = push_optional_dep(h5, n.node, r.resources.marker_start, SVGDependencyKind::Marker);
        let h7 = push_optional_dep(h6, n.node, r.resources.marker_mid, SVGDependencyKind::Marker);
        lemma_push_optional_dep_ids(a2, n.node, r.paint_servers.fill, SVGDependencyKind::PaintServer);
        lemma_push_optional_dep_ids(h1, n.node, r.paint_servers.stroke, SVGDependencyKind::PaintServer);
        lemma_push_optional_dep_ids(h2, n.node, r.resources.clip_path, SVGDependencyKind::ClipPath);
        lemma_push_optional_dep_ids(h3, n.node, r.resources.mask, SVGDependencyKind::Mask);
        lemma_push_optional_dep_ids(h4, n.node, r.resources.filter, SVGDependencyKind::Filter);
        lemma_push_optional_dep_ids(h5, n.node, r.resources.marker_start, SVGDependencyKind::Marker);
        lemma_push_optional_dep_ids(h6, n.node, r.resources.marker_mid, SVGDependencyKind::Marker);
        lemma_push_optional_dep_ids(h7, n.node, r.resources.marker_end, SVGDependencyKind::Marker);
        let h8 = reference_deps(a2, n, r);
        if n.kind == SVGLayoutNodeKind::Gradient || n.kind == SVGLayoutNodeKind::Pattern {
            if h8.resource_ids_by_node.contains_key(n.node.0) {
                let owner = h8.resource_ids_by_node[n.node.0];
                let kind = if n.kind == SVGLayoutNodeKind::Gradient {
                    SVGDependencyKind::GradientTemplate
                } else {
                    SVGDependencyKind::Pattern
                };
                match resolve_resource(h8, n.href) {
                    Some(t) => lemma_push_dep(h8, SVGDependencySource::Resource(t), kind, SVGDependencyTarget::Resource(owner)),
                    None => {},
                }
            }
        } else if n.kind == SVGLayoutNodeKind::TextPath {
            match resolve_node(h8, n.href) {
                Some(path) => lemma_push_dep(
                    h8,
                    SVGDependencySource::Node(path),
                    SVGDependencyKind::TextPathSource,
                    SVGDependencyTarget::Node(n.node),
                ),
                None => {},
            }
        }
    }
}

/// Recording an optional dependency leaves the resources and their ids
/// alone.
proof fn lemma_push_optional_dep_ids(
    g: ResourceGraphModel,
    node: OpaqueNode,
    resource: Option<SVGResourceId>,
    kind: SVGDependencyKind,
)
    ensures
        push_optional_dep(g, node, resource, kind).resources == g.resources,
        push_optional_dep(g, node, resource, kind).resource_ids_by_node == g.resource_ids_by_node,
        push_optional_dep(g, node, resource, kind).resource_owners == g.resource_owners,
        push_optional_dep(g, node, resource, kind).resources_by_element_id == g.resources_by_element_id,
{
    match resource {
        Some(r) => lemma_push_dep(g, SVGDependencySource::Resource(r), kind, SVGDependencyTarget::Node(node)),
        None => {},
    }
}

/// Every resource id that a built graph files under a node, an element id
/// or an owner names a resource of the graph, so `resource` finds it.
pub proof fn lemma_build_ids_name_resources(nodes: Seq<SVGResourceGraphNode>)
    requires
        nodes.len() < 0x7fff_ffff,
    ensures
        ids_name_resources(build_model(nodes)),
{
    let g1 = structure_pass(empty_model(), nodes);
    lemma_structure_pass_ids(empty_model(), nodes);
    lemma_structure_pass(empty_model(), nodes);
    assert(ids_name_resources(g1));
    let g2 = resource_pass(g1, nodes);
    lemma_resource_pass_ids(g1, nodes);
    lemma_content_pass(g2, nodes, nodes.len());
    let g3 = content_model(nodes);
    assert(ids_name_resources(g3)) by {
        assert(g3.resources_by_element_id == g2.resources_by_element_id);
    }
    lemma_reference_pass_ids(g3, nodes);
}

// ---------------------------------------------------------------------------
// How resources are numbered
// ---------------------------------------------------------------------------

/// The nodes that define a resource, in input order.
pub open spec fn defining_owners(nodes: Seq<SVGResourceGraphNode>) -> Seq<OpaqueNode>
    decreases nodes.len(),
{
    if nodes.len() == 0 {
        Seq::empty()
    } else {
        let p = defining_owners(nodes.drop_last());
        if defined_resource_of(nodes.last()) is Some {
            p.push(nodes.last().node)
        } else {
            p
        }
    }
}

/// Whether `n` is a `<use>` element whose `href` names a node of `g`.
pub open spec fn makes_use_instance(g: ResourceGraphModel, n: SVGResourceGraphNode) -> bool {
    n.kind == SVGLayoutNodeKind::Use && resolve_node(g, n.href) is Some
}

/// The `<use>` elements of `nodes` whose `href` names a node of `g`, in
/// input order.
pub open spec fn use_owners(g: ResourceGraphModel, nodes: Seq<SVGResourceGraphNode>) -> Seq<OpaqueNode>
    decreases nodes.len(),
{
    if nodes.len() == 0 {
        Seq::empty()
    } else {
        let p = use_owners(g, nodes.drop_last());
        if makes_use_instance(g, nodes.last()) {
            p.push(nodes.last().node)
        } else {
            p
        }
    }
}

/// The owners of the resources of the graph built from `nodes`, in id
/// order: the nodes that define a resource, then the `<use>` elements that
/// reference a node by element id, each in input order.
pub open spec fn resource_owner_order(nodes: Seq<SVGResourceGraphNode>) -> Seq<OpaqueNode> {
    defining_owners(nodes) + use_owners(structure_pass(empty_model(), nodes), nodes)
}

/// The resources of `g` are those of `owners`, numbered in order: resource
/// `k` is owned by `owners[k]`, and each owner's resource id is `k`.
pub open spec fn numbered_by(g: ResourceGraphModel, owners: Seq<OpaqueNode>) -> bool {
    &&& g.resources.len() == owners.len()
    &&& forall|k: u32| #[trigger] g.resource_owners.contains_key(k) <==> k < owners.len()
    &&& forall|k: u32| k < owners.len() ==> #[trigger] g.resource_owners[k] == owners[k as int]
    &&& forall|m: usize| #[trigger] g.resource_ids_by_node.contains_key(m) <==> exists|k: int|
        0 <= k < owners.len() && (#[trigger] owners[k]).0 == m
    &&& forall|k: int| 0 <= k < owners.len() ==> g.resource_ids_by_node[(#[trigger] owners[k]).0] == SVGResourceId(
        k as u32,
    )
}

/// No two nodes share a handle.
pub open spec fn distinct_handles(nodes: Seq<SVGResourceGraphNode>) -> bool {
    forall|i: int, j: int| 0 <= i < j < nodes.len() ==> (#[trigger] nodes[i]).node != (#[trigger] nodes[j]).node
}

/// Filing one more resource, owned by a node that owns none yet.
proof fn lemma_numbered_push(
    g: ResourceGraphModel,
    h: ResourceGraphModel,
    owners: Seq<OpaqueNode>,
    node: OpaqueNode,
    r: SVGResourceKind,
)
    requires
        numbered_by(g, owners),
        owners.len() < u32::MAX,
        forall|k: int| 0 <= k < owners.len() ==> (#[trigger] owners[k]).0 != node.0,
        h.resources == g.resources.push(r),
        h.resource_owners == g.resource_owners.insert(owners.len() as u32, node),
        h.resource_ids_by_node == g.resource_ids_by_node.insert(node.0, SVGResourceId(owners.len() as u32)),
    ensures
        numbered_by(h, owners.push(node)),
{
    let o = owners.push(node);
    assert forall|m: usize| #[trigger] h.resource_ids_by_node.contains_key(m) <==> exists|k: int|
        0 <= k < o.len() && (#[trigger] o[k]).0 == m by {
        if h.resource_ids_by_node.contains_key(m) {
            if m == node.0 {
                assert(o[owners.len() as int].0 == m);
            } else {
                let k = choose|k: int| 0 <= k < owners.len() && (#[trigger] owners[k]).0 == m;
                assert(o[k] == owners[k]);
            }
        }
        if exists|k: int| 0 <= k < o.len() && (#[trigger] o[k]).0 == m {
            let k = choose|k: int| 0 <= k < o.len() && (#[trigger] o[k]).0 == m;
            if k < owners.len() {
                assert(o[k] == owners[k]);
            }
        }
    }
    assert forall|k: int| 0 <= k < o.len() implies h.resource_ids_by_node[(#[trigger] o[k]).0] == SVGResourceId(
        k as u32,
    ) by {
        if k < owners.len() {
            assert(o[k] == owners[k]);
        }
    }
    assert forall|k: u32| k < o.len() implies #[trigger] h.resource_owners[k] == o[k as int] by {
        if k < owners.len() {
            assert(o[k as int] == owners[k as int]);
        }
    }
}

/// The nodes that define a resource come from `s`, once each, and define one.
proof fn lemma_defining_owners_from(s: Seq<SVGResourceGraphNode>)
    ensures
        defining_owners(s).len() <= s.len(),
        forall|k: int| 0 <= k < defining_owners(s).len() ==> exists|i: int|
            0 <= i < s.len() && s[i].node == #[trigger] defining_owners(s)[k] && defined_resource_of(s[i]) is Some,
    decreases s.len(),
{
    if s.len() > 0 {
        let t = s.drop_last();
        lemma_defining_owners_from(t);
        let d = defining_owners(s);
        assert forall|k: int| 0 <= k < defining_owners(s).len() implies exists|i: int|
            0 <= i < s.len() && s[i].node == #[trigger] defining_owners(s)[k] && defined_resource_of(s[i]) is Some by {
            let dt = defining_owners(t);
            if defined_resource_of(s.last()) is Some {
                assert(d == dt.push(s.last().node));
            } else {
                assert(d == dt);
            }
            if k < dt.len() {
                assert(d[k] == dt[k]);
                let i = choose|i: int| 0 <= i < t.len() && t[i].node == #[trigger] dt[k] && defined_resource_of(t[i]) is Some;
                assert(s[i] == t[i]);
            } else {
                assert(s[s.len() - 1] == s.last());
                assert(d[k] == s[s.len() - 1].node);
                assert(0 <= s.len() - 1 < s.len());
            }
        }
    }
}

/// The `<use>` elements that get a resource come from `s`, once each.
proof fn lemma_use_owners_from(g: ResourceGraphModel, s: Seq<SVGResourceGraphNode>)
    ensures
        use_owners(g, s).len() <= s.len(),
        forall|k: int| 0 <= k < use_owners(g, s).len() ==> is_use_owner_in(g, s, #[trigger] use_owners(g, s)[k]),
    decreases s.len(),
{
    if s.len() > 0 {
        let t = s.drop_last();
        lemma_use_owners_from(g, t);
        let d = use_owners(g, s);
        let dt = use_owners(g, t);
        if makes_use_instance(g, s.last()) {
            assert(d == dt.push(s.last().node));
        } else {
            assert(d == dt);
        }
        assert forall|k: int| 0 <= k < d.len() implies is_use_owner_in(g, s, #[trigger] d[k]) by {
            if k < dt.len() {
                assert(d[k] == dt[k]);
                assert(is_use_owner_in(g, t, dt[k]));
                let i = choose|i: int| 0 <= i < t.len() && t[i].node == dt[k] && makes_use_instance(g, t[i]);
                assert(s[i] == t[i]);
            } else {
                assert(s[s.len() - 1] == s.last());
                assert(d[k] == s[s.len() - 1].node);
            }
        }
    }
}

/// Whether `m` is the handle of a `<use>` element of `s` that references a
/// node of `g`.
spec fn is_use_owner_in(g: ResourceGraphModel, s: Seq<SVGResourceGraphNode>, m: OpaqueNode) -> bool {
    exists|i: int| 0 <= i < s.len() && s[i].node == m && makes_use_instance(g, s[i])
}

/// The second pass numbers the resources that nodes define in input order.
proof fn lemma_resource_pass_numbered(g: ResourceGraphModel, s: Seq<SVGResourceGraphNode>)
    requires
        numbered_by(g, Seq::empty()),
        distinct_handles(s),
        s.len() < u32::MAX,
    ensures
        numbered_by(resource_pass(g, s), defining_owners(s)),
        defining_owners(s).no_duplicates(),
    decreases s.len(),
{
    if s.len() > 0 {
        let t = s.drop_last();
        let n = s.last();
        assert(distinct_handles(t)) by {
            assert forall|i: int, j: int| 0 <= i < j < t.len() implies (#[trigger] t[i]).node != (#[trigger] t[j]).node by {
                assert(t[i] == s[i] && t[j] == s[j]);
            }
        }
        lemma_resource_pass_numbered(g, t);
        lemma_defining_owners_from(t);
        let a = resource_pass(g, t);
        let d = defining_owners(t);
        match defined_resource_of(n) {
            Some(r) => {
                assert forall|k: int| 0 <= k < d.len() implies (#[trigger] d[k]).0 != n.node.0 by {
                    let i = choose|i: int| 0 <= i < t.len() && t[i].node == #[trigger] d[k] && defined_resource_of(t[i]) is Some;
                    assert(s[i] == t[i]);
                    assert(s[i].node != s[s.len() - 1].node);
                }
                let id = SVGResourceId(a.resources.len() as u32);
                let a1 = ResourceGraphModel {
                    resources: a.resources.push(r),
                    resource_owners: a.resource_owners.insert(id.0, n.node),
                    resource_ids_by_node: a.resource_ids_by_node.insert(n.node.0, id),
                    ..a
                };
                lemma_numbered_push(a, a1, d, n.node, r);
                assert(defining_owners(s) == d.push(n.node));
                assert(resource_pass(g, s).resources == a1.resources);
                assert(resource_pass(g, s).resource_owners == a1.resource_owners);
                assert(resource_pass(g, s).resource_ids_by_node == a1.resource_ids_by_node);
                assert forall|i: int, j: int| 0 <= i < j < d.push(n.node).len() implies d.push(n.node)[i]
                    != d.push(n.node)[j] by {
                    if j == d.len() {
                        assert(d.push(n.node)[i] == d[i]);
                    } else {
                        assert(d.push(n.node)[i] == d[i] && d.push(n.node)[j] == d[j]);
                    }
                }
            },
            None => {
                assert(defining_owners(s) == d);
            },
        }
    }
}

/// A reference step changes the resource tables only by the `<use>`
/// resource it adds, and keeps the element-id tables.
proof fn lemma_reference_step_tables(g: ResourceGraphModel, n: SVGResourceGraphNode)
    ensures
        reference_step(g, n).resources == use_step(g, n).resources,
        reference_step(g, n).resource_owners == use_step(g, n).resource_owners,
        reference_step(g, n).resource_ids_by_node == use_step(g, n).resource_ids_by_node,
        reference_step(g, n).nodes_by_element_id == g.nodes_by_element_id,
{
    lemma_reference_step(g, n);
    let g1 = use_step(g, n);
    let r = resolved_references(g, n);
    let g2 = ResourceGraphModel { node_resources: g1.node_resources.insert(n.node.0, r), ..g1 };
    let h1 = push_optional_dep(g2, n.node, r.paint_servers.fill, SVGDependencyKind::PaintServer);
    let h2 = push_optional_dep(h1, n.node, r.paint_servers.stroke, SVGDependencyKind::PaintServer);
    let h3 = push_optional_dep(h2, n.node, r.resources.clip_path, SVGDependencyKind::ClipPath);
    let h4 = push_optional_dep(h3, n.node, r.resources.mask, SVGDependencyKind::Mask);
    let h5 = push_optional_dep(h4, n.node, r.resources.filter, SVGDependencyKind::Filter);
    let h6 = push_optional_dep(h5, n.node, r.resources.marker_start, SVGDependencyKind::Marker);
    let h7 = push_optional_dep(h6, n.node, r.resources.marker_mid, SVGDependencyKind::Marker);
    let h8 = push_optional_dep(h7, n.node, r.resources.marker_end, SVGDependencyKind::Marker);
    lemma_push_optional_dep(g2, n.node, r.paint_servers.fill, SVGDependencyKind::PaintServer);
    lemma_push_optional_dep(h1, n.node, r.paint_servers.stroke, SVGDependencyKind::PaintServer);
    lemma_push_optional_dep(h2, n.node, r.resources.clip_path, SVGDependencyKind::ClipPath);
    lemma_push_optional_dep(h3, n.node, r.resources.mask, SVGDependencyKind::Mask);
    lemma_push_optional_dep(h4, n.node, r.resources.filter, SVGDependencyKind::Filter);
    lemma_push_optional_dep(h5, n.node, r.resources.marker_start, SVGDependencyKind::Marker);
    lemma_push_optional_dep(h6, n.node, r.resources.marker_mid, SVGDependencyKind::Marker);
    lemma_push_optional_dep(h7, n.node, r.resources.marker_end, SVGDependencyKind::Marker);
    assert(reference_deps(g2, n, r) == h8);
    if n.kind == SVGLayoutNodeKind::Gradient || n.kind == SVGLayoutNodeKind::Pattern {
        if h8.resource_ids_by_node.contains_key(n.node.0) {
            let owner = h8.resource_ids_by_node[n.node.0];
            let kind = if n.kind == SVGLayoutNodeKind::Gradient {
                SVGDependencyKind::GradientTemplate
            } else {
                SVGDependencyKind::Pattern
            };
            match resolve_resource(h8, n.href) {
                Some(template) => lemma_push_dep(
                    h8,
                    SVGDependencySource::Resource(template),
                    kind,
                    SVGDependencyTarget::Resource(owner),
                ),
                None => {},
            }
        }
    } else if n.kind == SVGLayoutNodeKind::TextPath {
        match resolve_node(h8, n.href) {
            Some(path) => lemma_push_dep(
                h8,
                SVGDependencySource::Node(path),
                SVGDependencyKind::TextPathSource,
                SVGDependencyTarget::Node(n.node),
            ),
            None => {},
        }
    }
    if makes_use_instance(g, n) {
        let referenced = resolve_node(g, n.href)->0;
        let id = SVGResourceId(g.resources.len() as u32);
        let u1 = ResourceGraphModel {
            resources: g.resources.push(SVGResourceKind::UseInstanceSource),
            resource_owners: g.resource_owners.insert(id.0, n.node),
            resource_ids_by_node: g.resource_ids_by_node.insert(n.node.0, id),
            ..g
        };
        let u2 = push_dep(u1, SVGDependencySource::Node(referenced), SVGDependencyKind::UseSource, SVGDependencyTarget::Resource(id));
        lemma_push_dep(u1, SVGDependencySource::Node(referenced), SVGDependencyKind::UseSource, SVGDependencyTarget::Resource(id));
        lemma_push_dep(u2, SVGDependencySource::Resource(id), SVGDependencyKind::UseSource, SVGDependencyTarget::Node(n.node));
    }
}

/// The fourth pass numbers the resources of the `<use>` elements that
/// reference a node after those already filed, in input order.
proof fn lemma_reference_pass_numbered(
    g: ResourceGraphModel,
    s: Seq<SVGResourceGraphNode>,
    d: Seq<OpaqueNode>,
    g1: ResourceGraphModel,
)
    requires
        numbered_by(g, d),
        d.no_duplicates(),
        g.nodes_by_element_id == g1.nodes_by_element_id,
        distinct_handles(s),
        forall|i: int, k: int|
            0 <= i < s.len() && 0 <= k < d.len() && (#[trigger] s[i]).kind == SVGLayoutNodeKind::Use ==> (#[trigger] d[k])
                != s[i].node,
        d.len() + s.len() < u32::MAX,
    ensures
        numbered_by(reference_pass(g, s), d + use_owners(g1, s)),
        (d + use_owners(g1, s)).no_duplicates(),
        reference_pass(g, s).nodes_by_element_id == g1.nodes_by_element_id,
    decreases s.len(),
{
    if s.len() > 0 {
        let t = s.drop_last();
        let n = s.last();
        assert(distinct_handles(t)) by {
            assert forall|i: int, j: int| 0 <= i < j < t.len() implies (#[trigger] t[i]).node != (#[trigger] t[j]).node by {
                assert(t[i] == s[i] && t[j] == s[j]);
            }
        }
        assert forall|i: int, k: int|
            0 <= i < t.len() && 0 <= k < d.len() && (#[trigger] t[i]).kind == SVGLayoutNodeKind::Use implies (#[trigger] d[k])
                != t[i].node by {
            assert(t[i] == s[i]);
        }
        lemma_reference_pass_numbered(g, t, d, g1);
        lemma_use_owners_from(g1, t);
        let a = reference_pass(g, t);
        let o = d + use_owners(g1, t);
        lemma_reference_step_tables(a, n);
        assert(resolve_node(a, n.href) == resolve_node(g1, n.href));
        if makes_use_instance(g1, n) {
            assert forall|k: int| 0 <= k < o.len() implies (#[trigger] o[k]).0 != n.node.0 by {
                if k < d.len() {
                    assert(o[k] == d[k]);
                    assert(s[s.len() - 1] == n);
                } else {
                    let u = use_owners(g1, t);
                    assert(o[k] == u[k - d.len()]);
                    assert(is_use_owner_in(g1, t, u[k - d.len()]));
                    let i = choose|i: int| 0 <= i < t.len() && t[i].node == u[k - d.len()] && makes_use_instance(g1, t[i]);
                    assert(s[i] == t[i]);
                    assert(s[i].node != s[s.len() - 1].node);
                }
            }
            let id = SVGResourceId(a.resources.len() as u32);
            let u1 = ResourceGraphModel {
                resources: a.resources.push(SVGResourceKind::UseInstanceSource),
                resource_owners: a.resource_owners.insert(id.0, n.node),
                resource_ids_by_node: a.resource_ids_by_node.insert(n.node.0, id),
                ..a
            };
            lemma_numbered_push(a, u1, o, n.node, SVGResourceKind::UseInstanceSource);
            assert(use_owners(g1, s) == use_owners(g1, t).push(n.node));
            assert(d + use_owners(g1, s) =~= o.push(n.node));
            assert forall|i: int, j: int| 0 <= i < j < o.push(n.node).len() implies o.push(n.node)[i]
                != o.push(n.node)[j] by {
                if j == o.len() {
                    assert(o.push(n.node)[i] == o[i]);
                } else {
                    assert(o.push(n.node)[i] == o[i] && o.push(n.node)[j] == o[j]);
                }
            }
        } else {
            assert(use_owners(g1, s) == use_owners(g1, t));
        }
    }
}

/// Resource numbering: where no two nodes share a handle and no `<use>`
/// element names a resource of its own, the graph built from `nodes` holds
/// one resource per node that defines one, with ids `0, 1, ...` in input
/// order, then one per `<use>` element whose `href` names a node by element
/// id, with the following ids in input order; `resource_owner` and
/// `resource_id_for_node` agree: resource `id` is owned by `m` exactly when
/// `m`'s resource is `id`.
pub proof fn lemma_build_numbers_resources(nodes: Seq<SVGResourceGraphNode>)
    requires
        nodes.len() < 0x7fff_ffff,
        distinct_handles(nodes),
        forall|i: int| 0 <= i < nodes.len() && (#[trigger] nodes[i]).kind == SVGLayoutNodeKind::Use ==> nodes[i].defined_resource is None,
    ensures
        ({
            let g = build_model(nodes);
            let defs = defining_owners(nodes);
            let uses = use_owners(structure_pass(empty_model(), nodes), nodes);
            &&& numbered_by(g, resource_owner_order(nodes))
            &&& g.resources.len() == defs.len() + uses.len()
            &&& forall|k: int| 0 <= k < defs.len() ==> g.resource_ids_by_node[(#[trigger] defs[k]).0] == SVGResourceId(k as u32)
            &&& forall|j: int| 0 <= j < uses.len() ==> g.resource_ids_by_node[(#[trigger] uses[j]).0] == SVGResourceId(
                (defs.len() + j) as u32,
            )
            &&& forall|id: u32, m: OpaqueNode|
                (g.resource_owners.contains_key(id) && #[trigger] g.resource_owners[id] == m) <==> (
                #[trigger] g.resource_ids_by_node.contains_key(m.0) && g.resource_ids_by_node[m.0] == SVGResourceId(id))
        }),
{
    let e = empty_model();
    let g1 = structure_pass(e, nodes);
    lemma_structure_pass_ids(e, nodes);
    lemma_structure_pass(e, nodes);
    assert(numbered_by(g1, Seq::empty())) by {
        assert(g1.resource_owners == Map::<u32, OpaqueNode>::empty());
        assert(g1.resource_ids_by_node == Map::<usize, SVGResourceId>::empty());
    }
    let g2 = resource_pass(g1, nodes);
    lemma_resource_pass_numbered(g1, nodes);
    lemma_resource_pass(g1, nodes);
    let g3 = content_pass(g2, nodes, nodes.len());
    lemma_content_pass(g2, nodes, nodes.len());
    let defs = defining_owners(nodes);
    lemma_defining_owners_from(nodes);
    assert(numbered_by(g3, defs));
    assert forall|i: int, k: int|
        0 <= i < nodes.len() && 0 <= k < defs.len() && (#[trigger] nodes[i]).kind == SVGLayoutNodeKind::Use implies (
        #[trigger] defs[k]) != nodes[i].node by {
        let j = choose|j: int| 0 <= j < nodes.len() && nodes[j].node == #[trigger] defs[k] && defined_resource_of(nodes[j]) is Some;
        if j != i {
            if j < i {
                assert(nodes[j].node != nodes[i].node);
            } else {
                assert(nodes[i].node != nodes[j].node);
            }
        }
    }
    lemma_reference_pass_numbered(g3, nodes, defs, g1);
    let g = build_model(nodes);
    let o = resource_owner_order(nodes);
    let uses = use_owners(g1, nodes);
    lemma_use_owners_from(g1, nodes);
    assert(o == defs + uses);
    assert(o.len() < u32::MAX);
    assert forall|k: int| 0 <= k < defs.len() implies g.resource_ids_by_node[(#[trigger] defs[k]).0] == SVGResourceId(
        k as u32,
    ) by {
        assert(o[k] == defs[k]);
    }
    assert forall|j: int| 0 <= j < uses.len() implies g.resource_ids_by_node[(#[trigger] uses[j]).0] == SVGResourceId(
        (defs.len() + j) as u32,
    ) by {
        assert(o[defs.len() + j] == uses[j]);
    }
    assert forall|id: u32, m: OpaqueNode|
        (g.resource_owners.contains_key(id) && #[trigger] g.resource_owners[id] == m) <==> (
        #[trigger] g.resource_ids_by_node.contains_key(m.0) && g.resource_ids_by_node[m.0] == SVGResourceId(id)) by {
        if g.resource_owners.contains_key(id) && g.resource_owners[id] == m {
            assert(o[id as int] == m);
            assert(o[id as int].0 == m.0);
        }
        if g.resource_ids_by_node.contains_key(m.0) && g.resource_ids_by_node[m.0] == SVGResourceId(id) {
            let k = choose|k: int| 0 <= k < o.len() && (#[trigger] o[k]).0 == m.0;
            assert(g.resource_ids_by_node[o[k].0] == SVGResourceId(k as u32));
            assert(o[k] == m);
            assert(k == id);
        }
    }
}

} // verus!
