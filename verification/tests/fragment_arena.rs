use havi::canvas_background::FragmentTag;
use havi::fragment_arena::{build_arena, ArenaNode, FragmentShape};

fn shape(key: Option<usize>, children: Vec<usize>) -> FragmentShape {
    FragmentShape { key, children, mapping_tag: None, placement: None }
}

fn tag(node: u64) -> FragmentTag {
    FragmentTag { node, pseudo: None }
}

#[test]
fn slots_are_reserved_before_children_and_shared_fragments_keep_one() {
    let tree = vec![
        shape(Some(100), vec![1, 2, 3]),
        shape(Some(101), vec![3]),
        shape(None, vec![]),
        shape(Some(103), vec![]),
        shape(Some(104), vec![]),
    ];
    let arena = build_arena(&tree, &vec![0, 4, 0, 2]);
    assert_eq!(
        arena.nodes,
        vec![
            ArenaNode { parent: None, key: 100, children: vec![1, 2] },
            ArenaNode { parent: Some(0), key: 101, children: vec![2] },
            ArenaNode { parent: Some(1), key: 103, children: vec![] },
            ArenaNode { parent: None, key: 104, children: vec![] },
        ]
    );
    assert_eq!(arena.roots, vec![0, 3, 0]);
}

#[test]
fn fragments_are_found_by_tag_and_placements_by_id() {
    let mut tree = vec![
        shape(Some(1), vec![1, 2, 3]),
        shape(Some(2), vec![]),
        shape(Some(3), vec![]),
        shape(Some(4), vec![]),
    ];
    tree[0].mapping_tag = Some(tag(7));
    tree[1].mapping_tag = Some(tag(8));
    tree[2].mapping_tag = Some(tag(7));
    tree[2].placement = Some(40);
    tree[3].placement = Some(41);
    let arena = build_arena(&tree, &vec![0]);
    assert_eq!(arena.node_fragments, vec![(tag(7), 0), (tag(8), 1), (tag(7), 2)]);
    assert_eq!(arena.fragments_for_node(tag(7)), vec![0, 2]);
    assert_eq!(arena.fragments_for_node(tag(9)), Vec::<usize>::new());
    assert_eq!(arena.placement_target(40), Some(2));
    assert_eq!(arena.placement_target(41), Some(3));
    assert_eq!(arena.placement_target(42), None);
}

#[test]
fn an_empty_forest_gives_an_empty_arena() {
    let arena = build_arena(&vec![shape(None, vec![])], &vec![0]);
    assert!(arena.nodes.is_empty());
    assert!(arena.roots.is_empty());
    let arena = build_arena(&vec![], &vec![]);
    assert!(arena.nodes.is_empty() && arena.roots.is_empty());
}
