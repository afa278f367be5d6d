use path_tracer::scene::{layout_meshes, mesh_data, Mesh, MeshGeometry};

#[test]
fn meshes_are_laid_out_back_to_back() {
    let geoms = vec![
        MeshGeometry { vertex_count: 3, faces: vec![[0, 1, 2]] },
        MeshGeometry { vertex_count: 4, faces: vec![[0, 1, 2], [2, 3, 0]] },
        MeshGeometry { vertex_count: 0, faces: vec![] },
    ];
    let (indices, meshes) = layout_meshes(&geoms);
    assert_eq!(indices, vec![0, 1, 2, 0, 1, 2, 2, 3, 0]);
    assert_eq!(meshes.len(), 3);
    assert_eq!(meshes[0].indices, 0..3);
    assert_eq!(meshes[0].positions, 0..3);
    assert_eq!(meshes[1].indices, 3..9);
    assert_eq!(meshes[1].positions, 3..7);
    assert_eq!(meshes[2].indices, 9..9);
    assert_eq!(meshes[2].positions, 7..7);
}

#[test]
fn empty_scene_has_no_meshes() {
    let (indices, meshes) = layout_meshes(&vec![]);
    assert!(indices.is_empty());
    assert!(meshes.is_empty());
}

#[test]
fn mesh_data_copies_ranges() {
    let meshes = vec![
        Mesh { indices: 0..6, positions: 0..4 },
        Mesh { indices: 6..9, positions: 4..7 },
    ];
    let data = mesh_data(&meshes);
    assert_eq!(data.len(), 2);
    assert_eq!((data[1].indices.start, data[1].indices.end), (6, 9));
    assert_eq!((data[1].positions.start, data[1].positions.end), (4, 7));
    assert_eq!((data[0].indices.start, data[0].positions.end), (0, 4));
    let copy = meshes[1].clone();
    assert_eq!(copy.indices, 6..9);
}
