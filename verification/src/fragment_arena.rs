//! Flattening a fragment tree into an arena: each fragment gets one slot,
//! reserved before its children are built, so that a parent always comes
//! before its children; a fragment reached twice keeps its first slot.

use std::collections::HashMap;

use vstd::prelude::*;

use crate::canvas_background::FragmentTag;

verus! {

broadcast use vstd::std_specs::hash::group_hash_axioms;

/// A fragment of the tree as the arena builder reads it: the key that
/// identifies it (none for the fragments that are not published, absolutely
/// or fixed positioned ones), the indices of its children in the tree, the
/// tag under which it is found for its node (if any), and the out-of-flow
/// placement it is the target of (if any).
#[derive(Clone, Debug)]
pub struct FragmentShape {
    pub key: Option<usize>,
    pub children: Vec<usize>,
    pub mapping_tag: Option<FragmentTag>,
    pub placement: Option<u32>,
}

/// A slot of the arena: its parent's id, the key of its fragment and the ids
/// of its children, in order.
#[derive(Clone, Debug, PartialEq, Eq)]
pub struct ArenaNode {
    pub parent: Option<usize>,
    pub key: usize,
    pub children: Vec<usize>,
}

/// The content of a slot.
pub struct ArenaNodeView {
    pub parent: Option<usize>,
    pub key: usize,
    pub children: Seq<usize>,
}

impl View for ArenaNode {
    type V = ArenaNodeView;

    open spec fn view(&self) -> ArenaNodeView {
        ArenaNodeView { parent: self.parent, key: self.key, children: self.children@ }
    }
}

/// The slots of an arena.
pub open spec fn arena_view(nodes: Seq<ArenaNode>) -> Seq<ArenaNodeView> {
    nodes.map_values(|n: ArenaNode| n@)
}

/// The builder's state: the slots so far, the slot of each key, the slots
/// recorded under each fragment tag, and the slots recorded as targets of
/// out-of-flow placements, each in the order recorded.
pub struct ArenaState {
    pub nodes: Seq<ArenaNodeView>,
    pub ids: Map<usize, usize>,
    pub mapped: Seq<(FragmentTag, usize)>,
    pub placed: Seq<(u32, usize)>,
}

/// The arena of a fragment tree: its slots, the slots of its roots, the
/// slots recorded under each fragment tag, and the slots recorded as targets
/// of out-of-flow placements, each in the order recorded.
#[derive(Clone, Debug)]
pub struct FragmentArena {
    pub nodes: Vec<ArenaNode>,
    pub roots: Vec<usize>,
    pub node_fragments: Vec<(FragmentTag, usize)>,
    pub placement_targets: Vec<(u32, usize)>,
}

/// The children of a fragment come after it in the tree, so that building
/// ends.
pub open spec fn tree_well_formed(tree: Seq<FragmentShape>) -> bool {
    forall|i: int, k: int|
        0 <= i < tree.len() && 0 <= k < tree[i].children@.len() ==> i < #[trigger] tree[i].children@[k] < tree.len()
}

/// Builds fragment `i` under `parent`: a fragment without a key gets no
/// slot; a key that has a slot keeps it; otherwise the fragment's slot is
/// reserved at the end of the arena, recorded under its tag (where
/// `record` asks for that) and as the target of its placement, then its
/// children are built under it and their ids recorded in order.
pub open spec fn build_at(tree: Seq<FragmentShape>, i: int, parent: Option<usize>, record: bool, st: ArenaState) -> (ArenaState, Option<usize>)
    decreases tree.len() - i, 1int, 0int,
{
    if !(0 <= i < tree.len()) {
        (st, None)
    } else {
        match tree[i].key {
            None => (st, None),
            Some(k) => if st.ids.contains_key(k) {
                (st, Some(st.ids[k]))
            } else {
                let id = st.nodes.len() as usize;
                let st1 = reserve(st, parent, k, record, tree[i].mapping_tag, tree[i].placement);
                let (st2, kids) = build_children(tree, i, id, record, tree[i].children@.len() as int, st1);
                (
                    ArenaState {
                        nodes: st2.nodes.update(id as int, ArenaNodeView { parent, key: k, children: kids }),
                        ..st2
                    },
                    Some(id),
                )
            },
        }
    }
}

/// Builds the first `n` children of fragment `i` under slot `id`, and gives
/// the ids of those that got one.
pub open spec fn build_children(tree: Seq<FragmentShape>, i: int, id: usize, record: bool, n: int, st: ArenaState) -> (ArenaState, Seq<usize>)
    decreases tree.len() - i, 0int, n,
{
    if n <= 0 || !(0 <= i < tree.len()) || n > tree[i].children@.len() {
        (st, Seq::empty())
    } else {
        let (st1, acc) = build_children(tree, i, id, record, n - 1, st);
        let c = tree[i].children@[n - 1] as int;
        if i < c < tree.len() {
            let (st2, r) = build_at(tree, c, Some(id), record, st1);
            (
                st2,
                match r {
                    Some(x) => acc.push(x),
                    None => acc,
                },
            )
        } else {
            (st1, acc)
        }
    }
}

/// Builds the first `n` roots, without parents, and gives the ids of those
/// that got one.
pub open spec fn build_roots(tree: Seq<FragmentShape>, roots: Seq<usize>, n: int, st: ArenaState) -> (ArenaState, Seq<usize>)
    decreases n,
{
    if n <= 0 || n > roots.len() {
        (st, Seq::empty())
    } else {
        let (st1, acc) = build_roots(tree, roots, n - 1, st);
        let (st2, r) = build_at(tree, roots[n - 1] as int, None, true, st1);
        (
            st2,
            match r {
                Some(x) => acc.push(x),
                None => acc,
            },
        )
    }
}

/// The state with nothing built.
pub open spec fn empty_state() -> ArenaState {
    ArenaState { nodes: Seq::empty(), ids: Map::empty(), mapped: Seq::empty(), placed: Seq::empty() }
}

/// The state after the slot of a fragment with key `k` is reserved at the
/// end, under `parent`: it is recorded under its tag where `record` asks for
/// that, and as the target of its placement, if any.
pub open spec fn reserve(
    st: ArenaState,
    parent: Option<usize>,
    k: usize,
    record: bool,
    tag: Option<FragmentTag>,
    placement: Option<u32>,
) -> ArenaState {
    let id = st.nodes.len() as usize;
    ArenaState {
        nodes: st.nodes.push(ArenaNodeView { parent, key: k, children: Seq::empty() }),
        ids: st.ids.insert(k, id),
        mapped: match tag {
            Some(t) => if record {
                st.mapped.push((t, id))
            } else {
                st.mapped
            },
            None => st.mapped,
        },
        placed: match placement {
            Some(p) => st.placed.push((p, id)),
            None => st.placed,
        },
    }
}

/// The arena of a tree built from its roots, and the ids of the roots.
pub open spec fn arena_of(tree: Seq<FragmentShape>, roots: Seq<usize>) -> (ArenaState, Seq<usize>) {
    build_roots(tree, roots, roots.len() as int, empty_state())
}

/// The builder's state is consistent: each key names the slot that holds
/// it, each slot's key names it (so no key has two slots), every parent
/// comes before its child, and every child id names a slot.
pub open spec fn arena_inv(st: ArenaState) -> bool {
    &&& forall|k: usize| #[trigger] st.ids.contains_key(k) ==> st.ids[k] < st.nodes.len() && st.nodes[st.ids[k] as int].key == k
    &&& forall|j: int| 0 <= j < st.nodes.len() ==> st.ids.contains_key((#[trigger] st.nodes[j]).key) && st.ids[st.nodes[j].key] == j
    &&& forall|j: int| 0 <= j < st.nodes.len() && (#[trigger] st.nodes[j]).parent is Some ==> st.nodes[j].parent->0 < j
    &&& forall|j: int, m: int|
        0 <= j < st.nodes.len() && 0 <= m < st.nodes[j].children.len() ==> #[trigger] st.nodes[j].children[m] < st.nodes.len()
    &&& forall|m: int| 0 <= m < st.mapped.len() ==> (#[trigger] st.mapped[m]).1 < st.nodes.len()
    &&& forall|m: int| 0 <= m < st.placed.len() ==> (#[trigger] st.placed[m]).1 < st.nodes.len()
}

/// The builder's state over an arena and its tables.
pub open spec fn state_of(
    nodes: Seq<ArenaNode>,
    ids: Map<usize, usize>,
    mapped: Seq<(FragmentTag, usize)>,
    placed: Seq<(u32, usize)>,
) -> ArenaState {
    ArenaState { nodes: arena_view(nodes), ids, mapped, placed }
}

/// Builds fragment `i` of the tree under `parent` into the arena (see
/// `build_at`).
fn build_geometry(
    tree: &Vec<FragmentShape>,
    i: usize,
    parent: Option<usize>,
    record_mapping: bool,
    nodes: &mut Vec<ArenaNode>,
    ids: &mut HashMap<usize, usize>,
    mapped: &mut Vec<(FragmentTag, usize)>,
    placed: &mut Vec<(u32, usize)>,
) -> (r: Option<usize>)
    requires
        tree_well_formed(tree@),
        i < tree.len(),
        arena_inv(state_of(old(nodes)@, old(ids)@, old(mapped)@, old(placed)@)),
        parent matches Some(p) ==> p < old(nodes).len(),
    ensures
        (state_of(final(nodes)@, final(ids)@, final(mapped)@, final(placed)@), r) == build_at(
            tree@,
            i as int,
            parent,
            record_mapping,
            state_of(old(nodes)@, old(ids)@, old(mapped)@, old(placed)@),
        ),
        arena_inv(state_of(final(nodes)@, final(ids)@, final(mapped)@, final(placed)@)),
        final(nodes).len() >= old(nodes).len(),
        r matches Some(x) ==> x < final(nodes).len(),
        forall|j: int|
            0 <= j < old(nodes).len() ==> (#[trigger] final(nodes)@[j]).key == old(nodes)@[j].key
                && final(nodes)@[j].parent == old(nodes)@[j].parent,
    decreases tree.len() - i,
{
    let ghost st0 = state_of(nodes@, ids@, mapped@, placed@);
    let k = match tree[i].key {
        Some(k) => k,
        None => {
            return None;
        },
    };
    match ids.get(&k) {
        Some(id) => {
            return Some(*id);
        },
        None => {},
    }
    let id = nodes.len();
    let ghost old_nodes = nodes@;
    nodes.push(ArenaNode { parent, key: k, children: Vec::new() });
    ids.insert(k, id);
    if record_mapping {
        match tree[i].mapping_tag {
            Some(tag) => {
                mapped.push((tag, id));
            },
            None => {},
        }
    }
    match tree[i].placement {
        Some(placement_id) => {
            placed.push((placement_id, id));
        },
        None => {},
    }
    let ghost st1 = reserve(st0, parent, k, record_mapping, tree@[i as int].mapping_tag, tree@[i as int].placement);
    proof {
        let s = state_of(nodes@, ids@, mapped@, placed@);
        assert(s.nodes =~= st1.nodes);
        assert(s.mapped =~= st1.mapped);
        assert(s.placed =~= st1.placed);
        assert forall|j: int| 0 <= j < s.nodes.len() implies s.ids.contains_key((#[trigger] s.nodes[j]).key)
            && s.ids[s.nodes[j].key] == j by {
            if j < id {
                assert(s.nodes[j] == st0.nodes[j]);
                assert(st0.ids.contains_key(st0.nodes[j].key));
            }
        }
        assert forall|j: int, m: int| 0 <= j < s.nodes.len() && 0 <= m < s.nodes[j].children.len() implies #[trigger] s.nodes[j].children[m]
            < s.nodes.len() by {
            if j < id {
                assert(s.nodes[j] == st0.nodes[j]);
            }
        }
        assert forall|m: int| 0 <= m < s.mapped.len() implies (#[trigger] s.mapped[m]).1 < s.nodes.len() by {
            if m < st0.mapped.len() {
                assert(s.mapped[m] == st0.mapped[m]);
            }
        }
        assert forall|m: int| 0 <= m < s.placed.len() implies (#[trigger] s.placed[m]).1 < s.nodes.len() by {
            if m < st0.placed.len() {
                assert(s.placed[m] == st0.placed[m]);
            }
        }
    }
    let mut kids: Vec<usize> = Vec::new();
    let mut j: usize = 0;
    let n = tree[i].children.len();
    while j < n
        invariant
            tree_well_formed(tree@),
            i < tree.len(),
            n == tree@[i as int].children@.len(),
            j <= n,
            id < nodes.len(),
            id == old_nodes.len(),
            (state_of(nodes@, ids@, mapped@, placed@), kids@) == build_children(
                tree@,
                i as int,
                id,
                record_mapping,
                j as int,
                st1,
            ),
            arena_inv(state_of(nodes@, ids@, mapped@, placed@)),
            forall|m: int| 0 <= m < kids@.len() ==> #[trigger] kids@[m] < nodes.len(),
            forall|q: int|
                0 <= q <= id ==> (#[trigger] nodes@[q]).key == st1.nodes[q].key && nodes@[q].parent == st1.nodes[q].parent,
        decreases n - j,
    {
        let c = tree[i].children[j];
        assert(i < c < tree.len());
        let ghost before = state_of(nodes@, ids@, mapped@, placed@);
        let ghost acc = kids@;
        let ghost len_before = nodes.len();
        let r = build_geometry(tree, c, Some(id), record_mapping, nodes, ids, mapped, placed);
        proof {
            assert(build_children(tree@, i as int, id, record_mapping, j + 1, st1) == ({
                let (st2, r2) = build_at(tree@, c as int, Some(id), record_mapping, before);
                (
                    st2,
                    match r2 {
                        Some(x) => acc.push(x),
                        None => acc,
                    },
                )
            }));
        }
        match r {
            Some(x) => {
                kids.push(x);
            },
            None => {},
        }
        proof {
            assert forall|q: int| 0 <= q <= id implies (#[trigger] nodes@[q]).key == st1.nodes[q].key && nodes@[q].parent
                == st1.nodes[q].parent by {
                assert(q < len_before);
            }
        }
        j = j + 1;
    }
    let ghost st2 = state_of(nodes@, ids@, mapped@, placed@);
    let ghost kv = kids@;
    nodes.set(id, ArenaNode { parent, key: k, children: kids });
    proof {
        let s = state_of(nodes@, ids@, mapped@, placed@);
        assert(s.nodes =~= st2.nodes.update(id as int, ArenaNodeView { parent, key: k, children: kv }));
        assert(st2.nodes[id as int].key == k);
        assert forall|q: int| 0 <= q < s.nodes.len() && (#[trigger] s.nodes[q]).parent is Some implies s.nodes[q].parent->0
            < q by {
            if q != id {
                assert(s.nodes[q] == st2.nodes[q]);
            }
        }
        assert forall|q: int| 0 <= q < s.nodes.len() implies s.ids.contains_key((#[trigger] s.nodes[q]).key) && s.ids[s.nodes[q].key]
            == q by {
            if q != id {
                assert(s.nodes[q] == st2.nodes[q]);
            }
        }
        assert forall|q: int, m: int| 0 <= q < s.nodes.len() && 0 <= m < s.nodes[q].children.len() implies #[trigger] s.nodes[q].children[m]
            < s.nodes.len() by {
            if q != id {
                assert(s.nodes[q] == st2.nodes[q]);
            }
        }
        assert forall|q: int| 0 <= q < old_nodes.len() implies (#[trigger] nodes@[q]).key == old_nodes[q].key
            && nodes@[q].parent == old_nodes[q].parent by {
            assert(st1.nodes[q] == st0.nodes[q]);
        }
    }
    Some(id)
}

/// Flattens the tree below `roots` into an arena: the roots, in order, are
/// built without a parent, recording each fragment under its tag (see
/// `build_at`). Every key gets one slot, every parent comes before its
/// children, and every id that the arena and its tables hold names one of
/// its slots.
pub fn build_arena(tree: &Vec<FragmentShape>, roots: &Vec<usize>) -> (r: FragmentArena)
    requires
        tree_well_formed(tree@),
        forall|k: int| 0 <= k < roots.len() ==> #[trigger] roots@[k] < tree.len(),
    ensures
        (state_of(r.nodes@, arena_of(tree@, roots@).0.ids, r.node_fragments@, r.placement_targets@), r.roots@)
            == arena_of(tree@, roots@),
        forall|a: int, b: int| 0 <= a < b < r.nodes.len() ==> (#[trigger] r.nodes@[a]).key != (#[trigger] r.nodes@[b]).key,
        forall|j: int| 0 <= j < r.nodes.len() && (#[trigger] r.nodes@[j]).parent is Some ==> r.nodes@[j].parent->0 < j,
        forall|j: int, m: int|
            0 <= j < r.nodes.len() && 0 <= m < r.nodes@[j].children@.len() ==> #[trigger] r.nodes@[j].children@[m] < r.nodes.len(),
        forall|k: int| 0 <= k < r.roots.len() ==> #[trigger] r.roots@[k] < r.nodes.len(),
        forall|m: int| 0 <= m < r.node_fragments.len() ==> (#[trigger] r.node_fragments@[m]).1 < r.nodes.len(),
        forall|m: int| 0 <= m < r.placement_targets.len() ==> (#[trigger] r.placement_targets@[m]).1 < r.nodes.len(),
{
    let mut nodes: Vec<ArenaNode> = Vec::new();
    let mut ids: HashMap<usize, usize> = HashMap::new();
    let mut mapped: Vec<(FragmentTag, usize)> = Vec::new();
    let mut placed: Vec<(u32, usize)> = Vec::new();
    let mut out: Vec<usize> = Vec::new();
    let ghost st0 = empty_state();
    proof {
        let s = state_of(nodes@, ids@, mapped@, placed@);
        assert(s.nodes =~= st0.nodes);
        assert(s.ids =~= st0.ids);
        assert(s.mapped =~= st0.mapped);
        assert(s.placed =~= st0.placed);
    }
    let mut k: usize = 0;
    while k < roots.len()
        invariant
            tree_well_formed(tree@),
            forall|q: int| 0 <= q < roots.len() ==> #[trigger] roots@[q] < tree.len(),
            k <= roots.len(),
            (state_of(nodes@, ids@, mapped@, placed@), out@) == build_roots(tree@, roots@, k as int, st0),
            arena_inv(state_of(nodes@, ids@, mapped@, placed@)),
            forall|m: int| 0 <= m < out@.len() ==> #[trigger] out@[m] < nodes.len(),
        decreases roots.len() - k,
    {
        let ghost before = state_of(nodes@, ids@, mapped@, placed@);
        let ghost acc = out@;
        let r = build_geometry(tree, roots[k], None, true, &mut nodes, &mut ids, &mut mapped, &mut placed);
        proof {
            assert(build_roots(tree@, roots@, k + 1, st0) == ({
                let (st2, r2) = build_at(tree@, roots@[k as int] as int, None, true, before);
                (
                    st2,
                    match r2 {
                        Some(x) => acc.push(x),
                        None => acc,
                    },
                )
            }));
        }
        match r {
            Some(x) => {
                out.push(x);
            },
            None => {},
        }
        k = k + 1;
    }
    proof {
        let s = state_of(nodes@, ids@, mapped@, placed@);
        assert(roots@.len() == k);
        assert forall|a: int, b: int| 0 <= a < b < nodes.len() implies (#[trigger] nodes@[a]).key != (#[trigger] nodes@[b]).key by {
            assert(s.nodes[a].key == nodes@[a].key);
            assert(s.nodes[b].key == nodes@[b].key);
            assert(s.ids[s.nodes[a].key] == a);
            assert(s.ids[s.nodes[b].key] == b);
        }
        assert forall|j: int| 0 <= j < nodes.len() && (#[trigger] nodes@[j]).parent is Some implies nodes@[j].parent->0 < j by {
            assert(s.nodes[j].parent == nodes@[j].parent);
        }
        assert forall|j: int, m: int| 0 <= j < nodes.len() && 0 <= m < nodes@[j].children@.len() implies #[trigger] nodes@[j].children@[m]
            < nodes.len() by {
            assert(s.nodes[j].children == nodes@[j].children@);
        }
        assert forall|m: int| 0 <= m < mapped.len() implies (#[trigger] mapped@[m]).1 < nodes.len() by {
            assert(s.mapped[m] == mapped@[m]);
        }
        assert forall|m: int| 0 <= m < placed.len() implies (#[trigger] placed@[m]).1 < nodes.len() by {
            assert(s.placed[m] == placed@[m]);
        }
    }
    FragmentArena { nodes, roots: out, node_fragments: mapped, placement_targets: placed }
}

/// The slots recorded under `tag`, in the order recorded.
pub open spec fn fragments_for(mapped: Seq<(FragmentTag, usize)>, tag: FragmentTag) -> Seq<usize>
    decreases mapped.len(),
{
    if mapped.len() == 0 {
        Seq::empty()
    } else {
        let rest = fragments_for(mapped.drop_last(), tag);
        if mapped.last().0 == tag {
            rest.push(mapped.last().1)
        } else {
            rest
        }
    }
}

/// The slot last recorded as the target of placement `id`, if any.
pub open spec fn placement_target(placed: Seq<(u32, usize)>, id: u32) -> Option<usize>
    decreases placed.len(),
{
    if placed.len() == 0 {
        None
    } else if placed.last().0 == id {
        Some(placed.last().1)
    } else {
        placement_target(placed.drop_last(), id)
    }
}

impl FragmentArena {
    /// The slots of the fragments generated for `tag`, in the order they
    /// were built.
    pub fn fragments_for_node(&self, tag: FragmentTag) -> (r: Vec<usize>)
        ensures
            r@ == fragments_for(self.node_fragments@, tag),
    {
        let mut r: Vec<usize> = Vec::new();
        let mut i: usize = 0;
        while i < self.node_fragments.len()
            invariant
                i <= self.node_fragments.len(),
                r@ == fragments_for(self.node_fragments@.take(i as int), tag),
            decreases self.node_fragments.len() - i,
        {
            let (t, id) = self.node_fragments[i];
            proof {
                assert(self.node_fragments@.take(i + 1).drop_last() =~= self.node_fragments@.take(i as int));
            }
            if t == tag {
                r.push(id);
            }
            i = i + 1;
        }
        proof {
            assert(self.node_fragments@.take(i as int) =~= self.node_fragments@);
        }
        r
    }

    /// The slot of the fragment that out-of-flow placement `id` places: the
    /// one last recorded for it.
    pub fn placement_target(&self, id: u32) -> (r: Option<usize>)
        ensures
            r == placement_target(self.placement_targets@, id),
    {
        let mut i: usize = self.placement_targets.len();
        proof {
            assert(self.placement_targets@.take(i as int) =~= self.placement_targets@);
        }
        while i > 0
            invariant
                i <= self.placement_targets.len(),
                placement_target(self.placement_targets@, id) == placement_target(self.placement_targets@.take(i as int), id),
            decreases i,
        {
            let (p, target) = self.placement_targets[i - 1];
            proof {
                assert(self.placement_targets@.take(i as int).drop_last() =~= self.placement_targets@.take(i - 1));
            }
            if p == id {
                return Some(target);
            }
            i = i - 1;
        }
        None
    }
}

} // verus!
