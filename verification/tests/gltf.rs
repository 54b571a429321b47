use asset_importer_rs::gltf_v1::asset::{Buffer, BufferType, ComponentType, LightType, PrimitiveMode, SEncodedRegion, Value};
use asset_importer_rs::gltf_v1::exporter::{
    AccessorLayout, BufferViewTarget, ExportRoot, GltfExporter, Output, export_data, export_short,
    face_indices, primitive_mode,
};
use asset_importer_rs::gltf_v1::importer::GltfImporter;
use asset_importer_rs::gltf_v1::names::{UniqueNames, generate_unique_name};
use asset_importer_rs::scene::PrimitiveTypes;

#[test]
fn component_sizes_and_counts() {
    assert_eq!(ComponentType::Byte.size(), 1);
    assert_eq!(ComponentType::UnsignedShort.size(), 2);
    assert_eq!(ComponentType::Float.size(), 4);
    assert_eq!(ComponentType::Float.code(), 5126);
    assert_eq!(Value::MAT3.get_num_components(), 9);
    assert_eq!(Value::from_str("VEC3"), Value::VEC3);
    assert_eq!(Value::from_str("MAT4").get_num_components(), 16);
    assert_eq!(Value::from_str("vec3"), Value::SCALAR);
    assert_eq!(Value::from_str("SCALAR"), Value::SCALAR);
}

#[test]
fn asset_vocabulary_values() {
    let b = Buffer::new();
    assert_eq!(b.buffer_type, BufferType::ArrayBuffer);
    assert!(b.regions.is_empty());
    let r = SEncodedRegion { offset: 1, length: 2, decoded_data: vec![7], decoded_length: 1, id: "r".to_string() };
    assert_eq!(r.decoded_data.len(), r.decoded_length);
    assert_ne!(LightType::Spot, LightType::Point);
}

#[test]
fn exporter_and_importer_construction() {
    assert_eq!(GltfExporter::new(Output::Binary).output_type, Output::Binary);
    assert_eq!(GltfExporter::default().output_type, Output::Standard);
    assert_eq!(Output::default(), Output::Standard);
    let importer = GltfImporter::new();
    assert!(importer.can_read("scene.gltf", true));
    assert!(importer.can_read("scene.glb", true));
    assert!(!importer.can_read("scene.gltf", false));
    assert!(!importer.can_read("scene.obj", true));
    assert_eq!(importer.extensions(), vec!["gltf".to_string(), "glb".to_string()]);
}

#[test]
fn test_export_data_short() {
    let mut root = ExportRoot::new();
    let mut buffer_data = Vec::new();
    let mut unique_names_map = UniqueNames::new();

    let test_data = vec![0u16, 1u16, 2u16, 3u16];

    let (name, bounds) = export_short(&mut root, &mut buffer_data, &test_data, &mut unique_names_map);

    assert!(!buffer_data.is_empty());
    assert!(root.buffer_views.len() > 0);
    assert!(root.accessors.len() > 0);

    let accessor = root.accessors.get(&name).unwrap();
    assert_eq!(accessor.count, 4);
    assert_eq!(accessor.component_type, ComponentType::UnsignedShort);
    assert_eq!(accessor.type_, Value::SCALAR);
    assert_eq!(bounds, Some((0, 3)));
}

#[test]
fn export_data_writes_one_byte_per_component_after_padding() {
    let mut root = ExportRoot::new();
    let mut buffer = vec![9u8];
    let mut names = UniqueNames::new();
    let layout = AccessorLayout {
        target: BufferViewTarget::ArrayBuffer,
        type_in: Value::VEC2,
        type_out: Value::VEC3,
        component_type: ComponentType::UnsignedShort,
        count: 2,
    };
    // 2 elements * 2 components * 2 bytes of input
    let data = vec![1u8, 2, 3, 4, 5, 6, 7, 8];
    let name = export_data(&mut root, &mut buffer, &data, &mut names, layout);
    assert_eq!(name, "accessor");
    // one zero byte of padding (1 % 2), then for element i and component
    // j < 2 the data byte i * 3 + j, and a zero for the third component
    assert_eq!(buffer, vec![9, 0, 1, 2, 0, 4, 5, 0]);
    let view = root.buffer_views.get("view").unwrap();
    assert_eq!(view.byte_offset, 2);
    assert_eq!(view.byte_length, 2 * 3 * 2);
    assert_eq!(view.buffer, "body");
    let accessor = root.accessors.get("accessor").unwrap();
    assert_eq!(accessor.buffer_view, "view");
    assert_eq!(accessor.type_, Value::VEC3);

    // the next accessor gets numbered names
    let again = export_data(&mut root, &mut buffer, &data, &mut names, layout);
    assert_eq!(again, "accessor_0");
    assert!(root.buffer_views.get("view_0").is_some());
}

#[test]
fn face_indices_follow_the_first_face_length() {
    let faces = vec![vec![0usize, 1, 2], vec![3, 4, 5, 6], vec![70000, 8, 9]];
    assert_eq!(face_indices(&faces), vec![0u16, 1, 2, 3, 4, 5, 70000u32 as u16, 8, 9]);
    assert_eq!(face_indices(&vec![]), Vec::<u16>::new());
}

#[test]
fn primitive_mode_prefers_triangles_then_lines_then_points() {
    let mut t = PrimitiveTypes::empty();
    assert_eq!(primitive_mode(&t), PrimitiveMode::Triangles);
    t.point = true;
    assert_eq!(primitive_mode(&t), PrimitiveMode::Points);
    t.line = true;
    assert_eq!(primitive_mode(&t), PrimitiveMode::Lines);
    t.triangle = true;
    assert_eq!(primitive_mode(&t), PrimitiveMode::Triangles);
}

#[test]
fn unique_names_number_repeated_bases() {
    let mut names = UniqueNames::new();
    assert_eq!(generate_unique_name("node", &mut names), "node");
    assert_eq!(generate_unique_name("node", &mut names), "node_0");
    assert_eq!(generate_unique_name("node", &mut names), "node_1");
    assert_eq!(generate_unique_name("mesh", &mut names), "mesh");
    // a base that looks numbered is a base of its own
    assert_eq!(generate_unique_name("node_2", &mut names), "node_2");
    // "node_2" is recorded, so the search goes on with the counter of
    // "node_2", which numbers the base again: a name handed out before
    assert_eq!(generate_unique_name("node", &mut names), "node_0");
    assert!(names.contains("node"));
    assert!(names.contains("node_2"));
    assert!(!names.contains("node_0"));
    assert_eq!(names.len(), 3);
}
