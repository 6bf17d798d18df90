//! The resources that an SVG subtree depends on: the paint servers and
//! effects its nodes' references resolve to, and the resources its nodes
//! define, in id order, each once.
use vstd::prelude::*;

use crate::svg_paint::resolved_node_resources;
use crate::svg_resources::{
    empty_resolved, OpaqueNode, ResourceGraphModel, SVGResolvedNodeResources, SVGResourceGraph, SVGResourceId,
};

verus! {

/// The ids in a list of resource ids.
pub open spec fn id_set(s: Seq<SVGResourceId>) -> Set<u32> {
    Set::new(|x: u32| exists|i: int| 0 <= i < s.len() && s[i].0 == x)
}

/// Whether ids rise strictly along the list.
pub open spec fn strictly_rising(s: Seq<SVGResourceId>) -> bool {
    forall|i: int, j: int| 0 <= i < j < s.len() ==> s[i].0 < s[j].0
}

/// The id of an optional resource, as a set.
pub open spec fn opt_ids(r: Option<SVGResourceId>) -> Set<u32> {
    match r {
        Some(id) => set![id.0],
        None => Set::empty(),
    }
}

/// What the references of `node` resolve to in the graph.
pub open spec fn resolved_of(g: ResourceGraphModel, node: OpaqueNode) -> SVGResolvedNodeResources {
    if g.node_resources.contains_key(node.0) {
        g.node_resources[node.0]
    } else {
        empty_resolved()
    }
}

/// The ids of the resources that `node` depends on: its fill and stroke
/// paint servers, its clip path, mask, filter and markers, and the
/// resource it defines.
pub open spec fn node_dependency_ids(g: ResourceGraphModel, node: OpaqueNode) -> Set<u32> {
    let r = resolved_of(g, node);
    opt_ids(r.paint_servers.fill) + opt_ids(r.paint_servers.stroke) + opt_ids(r.resources.clip_path) + opt_ids(
        r.resources.mask,
    ) + opt_ids(r.resources.filter) + opt_ids(r.resources.marker_start) + opt_ids(r.resources.marker_mid)
        + opt_ids(r.resources.marker_end) + (if g.resource_ids_by_node.contains_key(node.0) {
        set![g.resource_ids_by_node[node.0].0]
    } else {
        Set::empty()
    })
}

/// The ids of the resources that the nodes depend on.
pub open spec fn subtree_dependency_ids(g: ResourceGraphModel, nodes: Seq<OpaqueNode>) -> Set<u32>
    decreases nodes.len(),
{
    if nodes.len() == 0 {
        Set::empty()
    } else {
        subtree_dependency_ids(g, nodes.drop_last()) + node_dependency_ids(g, nodes.last())
    }
}

/// Adds `id` to a list of ids that rise strictly, keeping it so.
fn insert_id(acc: &mut Vec<SVGResourceId>, id: SVGResourceId)
    requires
        strictly_rising(old(acc)@),
    ensures
        strictly_rising(final(acc)@),
        id_set(final(acc)@) == id_set(old(acc)@).insert(id.0),
{
    let mut i: usize = 0;
    while i < acc.len()
        invariant
            i <= acc.len(),
            strictly_rising(acc@),
            forall|k: int| 0 <= k < i ==> acc@[k].0 < id.0,
        ensures
            i <= acc.len(),
            strictly_rising(acc@),
            forall|k: int| 0 <= k < i ==> acc@[k].0 < id.0,
            i < acc.len() ==> acc@[i as int].0 > id.0,
        decreases acc.len() - i,
    {
        if acc[i].0 == id.0 {
            proof {
                assert(id_set(acc@) =~= id_set(acc@).insert(id.0));
            }
            return;
        }
        if acc[i].0 > id.0 {
            break;
        }
        i = i + 1;
    }
    let ghost before = acc@;
    acc.insert(i, id);
    proof {
        assert forall|a: int, b: int| 0 <= a < b < acc@.len() implies acc@[a].0 < acc@[b].0 by {
            if b < i {
                assert(acc@[a] == before[a] && acc@[b] == before[b]);
            } else if b == i {
                assert(acc@[a] == before[a]);
            } else if a < i {
                assert(acc@[a] == before[a] && acc@[b] == before[b - 1]);
                if i < before.len() {
                    assert(before[i as int].0 > id.0);
                    if b - 1 > i {
                        assert(before[i as int].0 < before[b - 1].0);
                    }
                }
            } else if a == i {
                assert(acc@[b] == before[b - 1]);
                assert(before[i as int].0 > id.0);
                if b - 1 > i {
                    assert(before[i as int].0 < before[b - 1].0);
                }
            } else {
                assert(acc@[a] == before[a - 1] && acc@[b] == before[b - 1]);
            }
        }
        assert forall|x: u32| #[trigger] id_set(acc@).contains(x) <==> id_set(before).insert(id.0).contains(x) by {
            if id_set(before).contains(x) {
                let k = choose|k: int| 0 <= k < before.len() && before[k].0 == x;
                if k < i {
                    assert(acc@[k] == before[k]);
                } else {
                    assert(acc@[k + 1] == before[k]);
                }
            }
            if x == id.0 {
                assert(acc@[i as int] == id);
            }
            if id_set(acc@).contains(x) {
                let k = choose|k: int| 0 <= k < acc@.len() && acc@[k].0 == x;
                if k < i {
                    assert(acc@[k] == before[k]);
                } else if k > i {
                    assert(acc@[k] == before[k - 1]);
                }
            }
        }
        assert(id_set(acc@) =~= id_set(before).insert(id.0));
    }
}

/// Adds an optional id.
fn insert_opt(acc: &mut Vec<SVGResourceId>, id: Option<SVGResourceId>)
    requires
        strictly_rising(old(acc)@),
    ensures
        strictly_rising(final(acc)@),
        id_set(final(acc)@) == id_set(old(acc)@) + opt_ids(id),
{
    match id {
        Some(id) => {
            insert_id(acc, id);
            proof {
                assert(id_set(old(acc)@).insert(id.0) =~= id_set(old(acc)@) + opt_ids(Some(id)));
            }
        },
        None => {
            proof {
                assert(id_set(acc@) =~= id_set(acc@) + opt_ids(None));
            }
        },
    }
}

/// The ids of the resources that the nodes of a subtree depend on, in id
/// order, each once; `nodes` are the subtree's nodes that resolve as SVG.
pub fn collect_subtree_resource_dependencies(resource_graph: &SVGResourceGraph, nodes: &Vec<OpaqueNode>) -> (r: Vec<
    SVGResourceId,
>)
    ensures
        strictly_rising(r@),
        id_set(r@) == subtree_dependency_ids(resource_graph@, nodes@),
{
    let mut acc: Vec<SVGResourceId> = Vec::new();
    proof {
        assert(id_set(acc@) =~= Set::<u32>::empty());
    }
    let mut i: usize = 0;
    while i < nodes.len()
        invariant
            i <= nodes.len(),
            strictly_rising(acc@),
            id_set(acc@) == subtree_dependency_ids(resource_graph@, nodes@.take(i as int)),
        decreases nodes.len() - i,
    {
        let node = nodes[i];
        let ghost before = id_set(acc@);
        let resolved = resolved_node_resources(resource_graph, node);
        insert_opt(&mut acc, resolved.paint_servers.fill);
        insert_opt(&mut acc, resolved.paint_servers.stroke);
        insert_opt(&mut acc, resolved.resources.clip_path);
        insert_opt(&mut acc, resolved.resources.mask);
        insert_opt(&mut acc, resolved.resources.filter);
        insert_opt(&mut acc, resolved.resources.marker_start);
        insert_opt(&mut acc, resolved.resources.marker_mid);
        insert_opt(&mut acc, resolved.resources.marker_end);
        let own = resource_graph.resource_id_for_node(node);
        insert_opt(&mut acc, own);
        proof {
            assert(nodes@.take(i + 1).drop_last() =~= nodes@.take(i as int));
            assert(nodes@.take(i + 1).last() == node);
            let g = resource_graph@;
            assert(opt_ids(own) =~= (if g.resource_ids_by_node.contains_key(node.0) {
                set![g.resource_ids_by_node[node.0].0]
            } else {
                Set::<u32>::empty()
            }));
            assert(id_set(acc@) =~= before + node_dependency_ids(g, node));
        }
        i = i + 1;
    }
    proof {
        assert(nodes@.take(nodes.len() as int) =~= nodes@);
    }
    acc
}

} // verus!
