use path_tracer::scene_graph::{load_nodes, SceneNode};

fn leaf(meshes: Vec<u32>) -> SceneNode {
    SceneNode { meshes, children: vec![] }
}

#[test]
fn instances_follow_preorder() {
    let root = SceneNode {
        meshes: vec![7],
        children: vec![
            SceneNode { meshes: vec![1, 2], children: vec![leaf(vec![3])] },
            leaf(vec![]),
            leaf(vec![4]),
        ],
    };
    let got: Vec<(usize, usize)> = load_nodes(&root).iter().map(|i| (i.node, i.mesh_idx)).collect();
    // nodes in pre-order: root 0, first child 1, its child 2, second child 3, third child 4
    assert_eq!(got, vec![(0, 7), (1, 1), (1, 2), (2, 3), (4, 4)]);
}

#[test]
fn lone_root_without_meshes_has_no_instances() {
    assert!(load_nodes(&leaf(vec![])).is_empty());
}
