use std::io::{self, Cursor, Read};
use std::path::Path;

use asset_importer_rs::dae::animation::{AnimationTarget, TargetComponent};
use asset_importer_rs::dae::importer::DaeImporter;
use asset_importer_rs::dae::instance::{InstanceMaterialInfo, MeshInstance};
use asset_importer_rs::dae::mesh::{
    DaeMeshError, DocumentMesh, GeometryInfo, InputChannel, InputType, Mesh, MeshIndexError,
    PrimitiveElement, PrimitiveType, SourceInfo, VerticesInfo, geometry_in_range, import_mesh_library,
};
use asset_importer_rs::textmap::TextMap;

fn dummy_loader(_path: &Path) -> io::Result<Cursor<Vec<u8>>> {
    Ok(Cursor::new(Vec::new()))
}

fn collada_loader(_path: &Path) -> io::Result<Cursor<Vec<u8>>> {
    Ok(Cursor::new(
        b"<?xml version=\"1.0\"?><COLLADA xmlns=\"http://www.collada.org/2005/11/COLLADASchema\" version=\"1.4.1\">"
            .to_vec(),
    ))
}

/// Opens the file with `loader`, reads its first (up to 200) bytes and
/// asks the importer, as the importer's file-based entry point does.
fn can_read_with(
    importer: &DaeImporter,
    path: &str,
    loader: fn(&Path) -> io::Result<Cursor<Vec<u8>>>,
) -> bool {
    let head = match loader(Path::new(path)) {
        Ok(mut reader) => {
            let mut buf = [0u8; 200];
            match reader.read(&mut buf) {
                Ok(n) => Some(buf[..n].to_vec()),
                Err(_) => None,
            }
        }
        Err(_) => None,
    };
    importer.can_read(path, head.as_deref())
}

#[test]
fn test_dae_can_read_extension() {
    let importer = DaeImporter::new();
    assert!(can_read_with(&importer, "model.dae", collada_loader));
    assert!(!can_read_with(&importer, "model.dae", dummy_loader));
    assert!(!can_read_with(&importer, "model.obj", collada_loader));
    assert!(!can_read_with(&importer, "model", collada_loader));
}

#[test]
fn dae_can_read_ignores_letter_case_of_the_tag() {
    let importer = DaeImporter::new();
    assert!(importer.can_read("a/b.dae", Some(b"  <CoLLaDa>")));
    assert!(!importer.can_read("a/b.dae", Some(b"<collad")));
    assert!(!importer.can_read("a/b.dae", None));
    assert_eq!(importer.extensions(), vec!["dae".to_string()]);
}

#[test]
fn parses_channel_target() {
    let target = AnimationTarget::try_from("Root/translate").unwrap();
    assert_eq!(
        target,
        AnimationTarget {
            node: "Root".to_string(),
            property: "translate".to_string(),
            component: TargetComponent::Whole,
        }
    );
}

#[test]
fn parses_channel_target_components() {
    assert_eq!(
        AnimationTarget::try_from("Root/location.X")
            .unwrap()
            .component,
        TargetComponent::X
    );
    assert_eq!(
        AnimationTarget::try_from("Root/rotation.ANGLE")
            .unwrap()
            .component,
        TargetComponent::Angle
    );
    assert_eq!(
        AnimationTarget::try_from("Root/matrix(2)(3)")
            .unwrap()
            .component,
        TargetComponent::Matrix(14)
    );
    assert!(AnimationTarget::try_from("Root/location.W").is_err());
}

#[test]
fn channel_targets_with_missing_or_extra_segments_are_refused() {
    assert!(AnimationTarget::try_from("Root").is_err());
    assert!(AnimationTarget::try_from("/translate").is_err());
    assert!(AnimationTarget::try_from("Root/").is_err());
    assert!(AnimationTarget::try_from("Root/a/b").is_err());
    assert!(AnimationTarget::try_from("Root/matrix(4)(0)").is_err());
    assert!(AnimationTarget::try_from("Root/matrix(1)").is_err());
    assert_eq!(
        AnimationTarget::try_from("Root/matrix(0)(0)").unwrap().component,
        TargetComponent::Matrix(0)
    );
}

#[test]
fn semantic_names_map_to_input_types() {
    assert_eq!(InputType::from_semantic_str("VERTEX"), InputType::Vertex);
    assert_eq!(InputType::from_semantic_str("UV"), InputType::Texcoord);
    assert_eq!(InputType::from_semantic_str("TEXCOORD"), InputType::Texcoord);
    assert_eq!(InputType::from_semantic_str("TEXBINORMAL"), InputType::Bitangent);
    assert_eq!(InputType::from_semantic_str("TEXTANGENT"), InputType::Tangent);
    assert_eq!(InputType::from_semantic_str("vertex"), InputType::Invalid);
    assert_eq!(InputType::from_semantic_str("WEIGHT"), InputType::Invalid);
}

/// The twelve triangles of the test cube, four corners per face.
fn cube_indices() -> Vec<u32> {
    let mut p = Vec::new();
    for face in 0..6u32 {
        let b = face * 4;
        p.extend_from_slice(&[b, b + 1, b + 2, b, b + 2, b + 3]);
    }
    p
}

fn cube_geometry() -> GeometryInfo {
    let triangles = PrimitiveElement {
        kind: PrimitiveType::Triangles,
        material: Some("geometryElement5".to_string()),
        count: 12,
        inputs: vec![InputChannel::new(
            InputType::Vertex,
            None,
            0,
            "cube-vertices".to_string(),
        )],
        prim: cube_indices(),
        vcount: vec![],
    };
    GeometryInfo {
        id: Some("F1".to_string()),
        name: Some("Face1Geometry".to_string()),
        mesh: Some(DocumentMesh {
            vertices: Some(VerticesInfo {
                id: "cube-vertices".to_string(),
                inputs: vec![(InputType::Position, "cube-vertex-positions".to_string())],
                position_source: "cube-vertex-positions".to_string(),
            }),
            sources: vec![SourceInfo {
                id: Some("cube-vertex-positions".to_string()),
                xyz_count: Some(24),
            }],
            elements: vec![triangles],
        }),
    }
}

#[test]
fn try_from_geometry_sets_identity_and_vertices() {
    let mesh = Mesh::try_from(&cube_geometry()).expect("mesh from geometry");

    assert_eq!(mesh.id, "F1");
    assert_eq!(mesh.name, "Face1Geometry");
    assert_eq!(mesh.vertex_id, "cube-vertices");
    assert_eq!(mesh.per_vertex_data.len(), 1);
    assert_eq!(mesh.per_vertex_data[0].type_, InputType::Position);
    assert_eq!(mesh.per_vertex_data[0].accessor, "cube-vertex-positions");
    assert_eq!(mesh.per_vertex_data[0].offset, 0);
    assert_eq!(mesh.per_vertex_data[0].index, 0);
}

#[test]
fn try_from_geometry_assembles_triangle_submesh() {
    let mesh = Mesh::try_from(&cube_geometry()).expect("mesh from geometry");

    assert_eq!(mesh.sub_meshes.len(), 1);
    assert_eq!(mesh.sub_meshes[0].material, "geometryElement5");
    assert_eq!(mesh.sub_meshes[0].num_faces, 12);
    assert_eq!(mesh.face_size, vec![3; 12]);
    assert_eq!(mesh.face_pos_indices.len(), 36);
    assert_eq!(
        mesh.face_pos_indices,
        vec![
            0, 1, 2, 0, 2, 3, 4, 5, 6, 4, 6, 7, 8, 9, 10, 8, 10, 11, 12, 13, 14, 12, 14, 15, 16,
            17, 18, 16, 18, 19, 20, 21, 22, 20, 22, 23,
        ]
    );
}

#[test]
fn geometry_without_mesh_is_a_missing_entry() {
    let g = GeometryInfo { id: Some("G".to_string()), name: None, mesh: None };
    match Mesh::try_from(&g) {
        Err(DaeMeshError::MissingLocalMapEntry(s)) => assert_eq!(s, "mesh"),
        other => panic!("unexpected {:?}", other.map(|m| m.id)),
    }
}

#[test]
fn triangles_without_vertex_input_are_refused() {
    let mut g = cube_geometry();
    if let Some(dm) = g.mesh.as_mut() {
        dm.elements[0].inputs = vec![InputChannel::new(InputType::Normal, None, 0, "n".to_string())];
    }
    match Mesh::try_from(&g) {
        Err(DaeMeshError::MissingLocalMapEntry(s)) => assert_eq!(s, "VERTEX"),
        other => panic!("unexpected {:?}", other.map(|m| m.id)),
    }
}

#[test]
fn triangles_with_too_few_indices_are_refused() {
    let mut g = cube_geometry();
    if let Some(dm) = g.mesh.as_mut() {
        dm.elements[0].prim.truncate(35);
    }
    match Mesh::try_from(&g) {
        Err(DaeMeshError::InvalidMeshIndices(MeshIndexError::TooFewIndices { required, found })) => {
            assert_eq!(required, 36);
            assert_eq!(found, 35);
        }
        other => panic!("unexpected {:?}", other.map(|m| m.id)),
    }
}

#[test]
fn out_of_range_position_is_refused_at_the_first_bad_corner() {
    let mut g = cube_geometry();
    if let Some(dm) = g.mesh.as_mut() {
        dm.elements[0].prim[4] = 30;
        dm.elements[0].prim[7] = 40;
    }
    match Mesh::try_from(&g) {
        Err(DaeMeshError::InvalidMeshIndices(MeshIndexError::PositionOutOfBounds { index, count })) => {
            assert_eq!(index, 30);
            assert_eq!(count, 24);
        }
        other => panic!("unexpected {:?}", other.map(|m| m.id)),
    }
}

#[test]
fn triangle_requirement_counts_the_stride_twice() {
    // Two inputs (offsets 0 and 1) make a stride of 2; one triangle then
    // asks for 1 * (3 * 2) * 2 = 12 indices.
    let tri = PrimitiveElement {
        kind: PrimitiveType::Triangles,
        material: None,
        count: 1,
        inputs: vec![
            InputChannel::new(InputType::Vertex, None, 0, "v".to_string()),
            InputChannel::new(InputType::Normal, None, 1, "n".to_string()),
        ],
        prim: vec![0, 9, 1, 9, 2, 9],
        vcount: vec![],
    };
    let g = GeometryInfo {
        id: Some("T".to_string()),
        name: None,
        mesh: Some(DocumentMesh {
            vertices: Some(VerticesInfo {
                id: "v".to_string(),
                inputs: vec![],
                position_source: "p".to_string(),
            }),
            sources: vec![SourceInfo { id: Some("p".to_string()), xyz_count: Some(3) }],
            elements: vec![tri],
        }),
    };
    match Mesh::try_from(&g) {
        Err(DaeMeshError::InvalidMeshIndices(MeshIndexError::TooFewIndices { required, found })) => {
            assert_eq!(required, 12);
            assert_eq!(found, 6);
        }
        other => panic!("unexpected {:?}", other.map(|m| m.id)),
    }
}

#[test]
fn polylist_faces_follow_vcount() {
    let poly = PrimitiveElement {
        kind: PrimitiveType::Polylist,
        material: Some("m".to_string()),
        count: 2,
        inputs: vec![InputChannel::new(InputType::Vertex, None, 0, "v".to_string())],
        prim: vec![0, 1, 2, 3, 1, 2, 3],
        vcount: vec![4, 3, 5],
    };
    let g = GeometryInfo {
        id: Some("P".to_string()),
        name: None,
        mesh: Some(DocumentMesh {
            vertices: Some(VerticesInfo {
                id: "v".to_string(),
                inputs: vec![],
                position_source: "p".to_string(),
            }),
            sources: vec![SourceInfo { id: Some("p".to_string()), xyz_count: Some(4) }],
            elements: vec![poly],
        }),
    };
    let mesh = Mesh::try_from(&g).expect("polylist mesh");
    assert_eq!(mesh.face_size, vec![4, 3]);
    assert_eq!(mesh.face_pos_indices, vec![0, 1, 2, 3, 1, 2, 3]);
    assert_eq!(mesh.sub_meshes[0].num_faces, 2);
    assert_eq!(mesh.id, "P");
    assert_eq!(mesh.name, "");
}

fn cube_mesh_instance() -> MeshInstance {
    MeshInstance::new(
        "F1".to_string(),
        &vec![InstanceMaterialInfo {
            symbol: "geometryElement5".to_string(),
            target: "Blue".to_string(),
            bind_vertex_input: vec![],
        }],
    )
}

#[test]
fn mesh_instance_binds_material_symbol() {
    let instance = cube_mesh_instance();

    assert_eq!(instance.mesh_or_controller, "F1");
    assert_eq!(instance.materials.len(), 1);
    let table = instance
        .material_for_symbol("geometryElement5")
        .expect("bound subgroup");
    assert_eq!(table.mat_name, "Blue");
    assert_eq!(table.map.len(), 0);
    // an unbound symbol falls back to the first table
    assert_eq!(instance.material_for_symbol("other").unwrap().mat_name, "Blue");
}

#[test]
fn import_mesh_library_indexes_cube_geometry() {
    let library = import_mesh_library(&vec![cube_geometry()]);

    assert_eq!(library.entries.len(), 1);
    let mesh = library.get(&"F1".to_string()).expect("F1 mesh");
    assert_eq!(mesh.name, "Face1Geometry");
    assert_eq!(mesh.sub_meshes[0].num_faces, 12);
}

#[test]
fn mesh_library_skips_duplicate_empty_and_unreadable_geometries() {
    let mut nameless = cube_geometry();
    nameless.id = None;
    let mut empty = cube_geometry();
    empty.id = Some(String::new());
    let broken = GeometryInfo { id: Some("B".to_string()), name: None, mesh: None };
    let mut second = cube_geometry();
    second.name = Some("Second".to_string());
    let library = import_mesh_library(&vec![nameless, empty, broken, cube_geometry(), second]);
    assert_eq!(library.entries.len(), 1);
    assert_eq!(library.get(&"F1".to_string()).unwrap().name, "Face1Geometry");
    assert!(library.get(&"B".to_string()).is_none());
}

#[test]
fn build_meshes_for_node_emits_ai_mesh() {
    let importer = DaeImporter::new();
    let library = import_mesh_library(&vec![cube_geometry()]);
    let mut material_index_map = TextMap::new();
    material_index_map.insert("Blue".to_string(), 0usize);
    let controllers: TextMap<String> = TextMap::new();

    let (meshes, name_map) = importer.build_meshes_for_node(
        &vec![cube_mesh_instance()],
        &library,
        &controllers,
        &material_index_map,
    );

    assert_eq!(meshes.len(), 1);
    assert_eq!(name_map.get("F1"), Some(&0));
    let mesh = &meshes[0];
    assert_eq!(mesh.name, "F1");
    assert_eq!(mesh.vertex_pos_indices.len(), 36);
    assert_eq!(mesh.faces.len(), 12);
    assert_eq!(mesh.faces[0], vec![0, 1, 2]);
    assert_eq!(mesh.faces[1], vec![3, 4, 5]);
    assert_eq!(mesh.material_index, 0);
    assert!(mesh.primitive_types.triangle);
    assert_eq!(mesh.vertex_pos_indices[0], 0);
    assert_eq!(mesh.vertex_pos_indices[3], 0);
    assert_eq!(mesh.vertex_pos_indices[5], 3);
}

#[test]
fn controller_instance_resolves_through_its_source() {
    let importer = DaeImporter { use_collada_name: true, ignore_unit_size: false, ignore_up_direction: false };
    let library = import_mesh_library(&vec![cube_geometry()]);
    let mut controllers = TextMap::new();
    controllers.insert("skin".to_string(), "F1".to_string());
    let instance = MeshInstance::new("skin".to_string(), &vec![]);
    let missing = MeshInstance::new("nothing".to_string(), &vec![]);
    let (meshes, name_map) =
        importer.build_meshes_for_node(&vec![missing, instance], &library, &controllers, &TextMap::new());
    assert_eq!(meshes.len(), 1);
    assert_eq!(meshes[0].name, "Face1Geometry");
    assert_eq!(meshes[0].material_index, 0);
    assert_eq!(name_map.get("skin"), Some(&0));
    assert_eq!(name_map.get("nothing"), None);
}

#[test]
fn new_importer_applies_unit_size_and_up_direction() {
    let d = DaeImporter::new();
    assert!(!d.use_collada_name && !d.ignore_unit_size && !d.ignore_up_direction);
}

#[test]
fn try_from_geometry_resolves_verbose_positions() {
    let mesh = Mesh::try_from(&cube_geometry()).expect("mesh from geometry");
    // Corners name positions by index: (-50, 50, 50), (-50, -50, 50), (50, -50, 50), ...
    assert_eq!(mesh.face_pos_indices[0], 0);
    assert_eq!(mesh.face_pos_indices[1], 1);
    assert_eq!(mesh.face_pos_indices[2], 2);
    // First corner of the second triangle reuses index 0.
    assert_eq!(mesh.face_pos_indices[3], mesh.face_pos_indices[0]);
    assert_eq!(mesh.face_pos_indices[4], mesh.face_pos_indices[2]);
    assert_eq!(mesh.face_pos_indices[5], 3);
}

#[test]
fn matrix_selectors_accept_any_decimal_spelling() {
    let target = AnimationTarget::try_from("Root/transform(+1)(02)").unwrap();
    assert_eq!(target.node, "Root");
    assert_eq!(target.property, "transform");
    assert_eq!(target.component, TargetComponent::Matrix(9));
    assert!(AnimationTarget::try_from("Root/transform(-1)(2)").is_err());
    assert!(AnimationTarget::try_from("Root/trans.form(1)(2)").is_ok());
    assert!(AnimationTarget::try_from("Root/trans.form.X").is_err());
}

fn polylist_geometry(offset: u32, vcount: Vec<usize>, count: usize) -> GeometryInfo {
    GeometryInfo {
        id: Some("g".to_string()),
        name: None,
        mesh: Some(DocumentMesh {
            vertices: None,
            sources: Vec::new(),
            elements: vec![PrimitiveElement {
                kind: PrimitiveType::Polylist,
                material: None,
                count,
                inputs: vec![InputChannel::new(InputType::Vertex, None, offset, "v".to_string())],
                prim: Vec::new(),
                vcount,
            }],
        }),
    }
}

#[test]
fn geometry_range_check_refuses_overflowing_index_arithmetic() {
    assert!(geometry_in_range(&GeometryInfo { id: None, name: None, mesh: None }));
    assert!(geometry_in_range(&polylist_geometry(2, vec![3, 4], 2)));
    assert!(!geometry_in_range(&polylist_geometry(0, vec![usize::MAX, 1], 2)));
    // Only the first `count` polygons are summed.
    assert!(geometry_in_range(&polylist_geometry(0, vec![usize::MAX, 1], 1)));
}
