use asset_importer_rs::gltf2::mesh_document::{
    AccessorBounds, AccessorData, AttributeSemantic, MeshDoc, MeshExportInput, TargetInput, export_meshes,
};
use asset_importer_rs::gltf2::mesh_export::ViewTarget;
use asset_importer_rs::gltf_v1::asset::PrimitiveMode;
use asset_importer_rs::gltf_v1::names::UniqueNames;
use asset_importer_rs::scene::PrimitiveTypes;

fn data(n: usize, components: usize) -> AccessorData<(f32, f32)> {
    AccessorData { bytes: vec![1; n], component_size: 4, components, bounds: (0.0, 1.0) }
}

fn mesh(name: &str, positions: usize) -> MeshExportInput<(f32, f32), f32> {
    MeshExportInput {
        name: name.to_string(),
        positions: data(positions, 3),
        normals: data(0, 3),
        tangents: data(0, 4),
        tex_coords: vec![],
        colors: vec![],
        faces: vec![],
        primitive_types: PrimitiveTypes { point: false, line: false, triangle: true, polygon: false },
        material_index: 0,
        joint_groups: vec![],
        weight_groups: vec![],
        targets: vec![],
    }
}

#[test]
fn meshes_become_primitives_merged_per_node() {
    let mut a = mesh("box", 36);
    a.tex_coords = vec![None, Some(data(24, 2))];
    a.faces = vec![vec![0, 1, 2]];
    a.material_index = 2;
    let skipped = mesh("empty", 0);
    let mut c = mesh("box", 12);
    c.targets = vec![TargetInput { positions: data(12, 3), normals: None, weight: 0.5 }];
    c.joint_groups = vec![vec![[0, 1, 0, 0]]];
    c.weight_groups = vec![data(16, 4)];
    let mut doc: MeshDoc<(f32, f32)> = MeshDoc { views: vec![], accessors: vec![] };
    let mut buffer: Vec<u8> = vec![];
    let mut names = UniqueNames::new();
    let out = export_meshes(&vec![a, skipped, c], &vec![vec![0, 1], vec![], vec![5]], &mut doc, &mut buffer, &mut names);
    assert_eq!(out.names, vec!["box", "box_0"]);
    let p0 = &out.primitives[0];
    assert_eq!(p0.attributes, vec![(AttributeSemantic::Positions, 0), (AttributeSemantic::TexCoords(1), 1)]);
    assert_eq!(p0.indices, Some(2));
    assert_eq!((p0.material, p0.mode), (2, PrimitiveMode::Triangles));
    assert!(p0.targets.is_none());
    let p1 = &out.primitives[1];
    assert_eq!(
        p1.attributes,
        vec![(AttributeSemantic::Positions, 3), (AttributeSemantic::Joints(0), 4), (AttributeSemantic::Weights(0), 5)]
    );
    assert_eq!(p1.indices, None);
    assert_eq!(p1.targets, Some(vec![(6, None)]));
    assert_eq!(out.weights[1], Some(vec![0.5]));
    assert_eq!(doc.accessors.len(), 7);
    assert_eq!(doc.views[2].target, ViewTarget::ElementArrayBuffer);
    assert!(matches!(doc.accessors[2].bounds, AccessorBounds::Unsigned(0, 2)));
    assert_eq!(buffer.len(), 36 + 24 + 12 + 12 + 16 + 16 + 12);
    assert_eq!(out.merged.len(), 1);
    assert_eq!((out.merged[0].source, out.merged[0].primitives.clone()), (0, vec![0, 1]));
    assert_eq!(out.node_mesh, vec![Some(0), None, None]);
    assert_eq!(out.node_skin, vec![true, false, false]);
}
