use asset_importer_rs::obj::ObjImporter;
use asset_importer_rs::obj::material::{ObjMaterialInput, import_materials};
use asset_importer_rs::obj::mesh::{ObjMeshData, ObjModel, import_meshes};
use asset_importer_rs::scene::{MaterialProperty, PropertyValue, ShadingMode};

fn create_test_mesh() -> ObjMeshData<f32> {
    ObjMeshData {
        positions: vec![0.0, 0.0, 0.0, 1.0, 0.0, 0.0, 0.0, 1.0, 0.0],
        normals: vec![0.0, 0.0, 1.0, 0.0, 0.0, 1.0, 0.0, 0.0, 1.0],
        texcoords: vec![0.0, 0.0, 1.0, 0.0, 0.0, 1.0],
        vertex_color: vec![1.0, 0.0, 0.0, 0.0, 1.0, 0.0, 0.0, 0.0, 1.0],
        indices: vec![0, 1, 2],
        face_arities: vec![],
        material_id: Some(1),
    }
}

fn create_test_model(name: &str) -> ObjModel<f32> {
    ObjModel { mesh: create_test_mesh(), name: name.to_string() }
}

#[test]
fn test_importer_obj_can_read() {
    let importer = ObjImporter::new();
    assert!(importer.can_read("assets/spider.obj", true));
    assert!(!importer.can_read("assets/spider.obj", false));
    assert!(!importer.can_read("assets/spider.mtl", true));
    assert_eq!(importer.extensions(), vec!["obj".to_string()]);
}

#[test]
fn test_import_meshes_empty() {
    let models: Vec<ObjModel<f32>> = vec![];
    let (ai_meshes, ai_nodes) = import_meshes(&models);

    assert_eq!(ai_meshes.len(), 0);
    assert_eq!(ai_nodes.len(), 0);
}

#[test]
fn test_import_meshes_single_triangle() {
    let models = vec![create_test_model("test_mesh")];
    let (ai_meshes, ai_nodes) = import_meshes(&models);

    assert_eq!(ai_meshes.len(), 1);
    assert_eq!(ai_nodes.len(), 1);

    let mesh = &ai_meshes[0];
    let node = &ai_nodes[0];

    assert_eq!(mesh.name, "test_mesh");
    assert_eq!(mesh.material_index, 1);
    assert!(mesh.primitive_types.triangle);

    assert_eq!(mesh.vertices.len(), 3);
    assert_eq!(mesh.vertices[0], (0.0, 0.0, 0.0));
    assert_eq!(mesh.vertices[1], (1.0, 0.0, 0.0));
    assert_eq!(mesh.vertices[2], (0.0, 1.0, 0.0));

    assert_eq!(mesh.normals.len(), 3);
    assert_eq!(mesh.normals[0], (0.0, 0.0, 1.0));
    assert_eq!(mesh.normals[1], (0.0, 0.0, 1.0));
    assert_eq!(mesh.normals[2], (0.0, 0.0, 1.0));

    assert!(mesh.texture_coords.is_some());
    let texcoords = mesh.texture_coords.as_ref().unwrap();
    assert_eq!(texcoords.len(), 3);
    assert_eq!(texcoords[0], (0.0, 0.0));
    assert_eq!(texcoords[1], (1.0, 0.0));
    assert_eq!(texcoords[2], (0.0, 1.0));

    assert!(mesh.colors.is_some());
    let colors = mesh.colors.as_ref().unwrap();
    assert_eq!(colors.len(), 3);
    assert_eq!(colors[0], (1.0, 0.0, 0.0));
    assert_eq!(colors[1], (0.0, 1.0, 0.0));
    assert_eq!(colors[2], (0.0, 0.0, 1.0));

    assert_eq!(mesh.faces.len(), 1);
    assert_eq!(mesh.faces[0], vec![0, 1, 2]);

    assert_eq!(node.name, "test_mesh");
    assert_eq!(node.mesh_indexes, vec![0]);
}

#[test]
fn test_import_meshes_multiple_models() {
    let models = vec![create_test_model("mesh1"), create_test_model("mesh2")];
    let (ai_meshes, ai_nodes) = import_meshes(&models);

    assert_eq!(ai_meshes.len(), 2);
    assert_eq!(ai_nodes.len(), 2);

    assert_eq!(ai_meshes[0].name, "mesh1");
    assert_eq!(ai_meshes[1].name, "mesh2");
    assert_eq!(ai_nodes[0].name, "mesh1");
    assert_eq!(ai_nodes[1].name, "mesh2");
    assert_eq!(ai_nodes[0].mesh_indexes, vec![0]);
    assert_eq!(ai_nodes[1].mesh_indexes, vec![1]);
}

#[test]
fn test_import_meshes_with_face_arities() {
    let mut mesh = create_test_mesh();
    mesh.face_arities = vec![3, 4];
    mesh.indices = vec![0, 1, 2, 3, 4, 5, 6];

    let model = ObjModel { mesh, name: "test_mesh".to_string() };

    let (ai_meshes, _) = import_meshes(&vec![model]);
    let mesh = &ai_meshes[0];

    assert!(mesh.primitive_types.triangle);
    assert!(mesh.primitive_types.polygon);

    assert_eq!(mesh.faces.len(), 2);
    assert_eq!(mesh.faces[0], vec![0, 1, 2]);
    assert_eq!(mesh.faces[1], vec![3, 4, 5, 6]);
}

#[test]
fn test_import_meshes_primitive_types() {
    let cases: Vec<(Vec<u32>, Vec<u32>, &str)> = vec![
        (vec![1], vec![0], "points"),
        (vec![2], vec![0, 1], "lines"),
        (vec![3], vec![0, 1, 2], "triangles"),
        (vec![5], vec![0, 1, 2, 3, 4], "polygons"),
    ];
    for (arities, indices, name) in cases {
        let mut mesh = create_test_mesh();
        mesh.face_arities = arities;
        mesh.indices = indices;
        let model = ObjModel { mesh, name: name.to_string() };
        let (ai_meshes, _) = import_meshes(&vec![model]);
        let t = ai_meshes[0].primitive_types;
        match name {
            "points" => assert!(t.point),
            "lines" => assert!(t.line),
            "triangles" => assert!(t.triangle),
            _ => assert!(t.polygon),
        }
    }
}

#[test]
fn test_import_meshes_mixed_primitive_types() {
    let mut mesh = create_test_mesh();
    mesh.face_arities = vec![1, 2, 3, 4];
    mesh.indices = vec![0, 1, 2, 3, 4, 5, 6, 7, 8, 9];

    let model = ObjModel { mesh, name: "mixed".to_string() };

    let (ai_meshes, _) = import_meshes(&vec![model]);
    let mesh = &ai_meshes[0];

    assert!(mesh.primitive_types.point);
    assert!(mesh.primitive_types.line);
    assert!(mesh.primitive_types.triangle);
    assert!(mesh.primitive_types.polygon);

    assert_eq!(mesh.faces.len(), 4);
    assert_eq!(mesh.faces[0], vec![0]);
    assert_eq!(mesh.faces[1], vec![1, 2]);
    assert_eq!(mesh.faces[2], vec![3, 4, 5]);
    assert_eq!(mesh.faces[3], vec![6, 7, 8, 9]);
}

#[test]
fn test_import_meshes_no_material_id() {
    let mut mesh = create_test_mesh();
    mesh.material_id = None;

    let model = ObjModel { mesh, name: "no_material".to_string() };

    let (ai_meshes, _) = import_meshes(&vec![model]);
    assert_eq!(ai_meshes[0].material_index, 0);
}

#[test]
fn test_import_meshes_empty_attributes() {
    let mesh: ObjMeshData<f32> = ObjMeshData {
        positions: vec![],
        normals: vec![],
        texcoords: vec![],
        vertex_color: vec![],
        indices: vec![],
        face_arities: vec![],
        material_id: None,
    };

    let model = ObjModel { mesh, name: "empty".to_string() };

    let (ai_meshes, _) = import_meshes(&vec![model]);
    let mesh = &ai_meshes[0];

    assert_eq!(mesh.vertices.len(), 0);
    assert_eq!(mesh.normals.len(), 0);
    assert!(mesh.texture_coords.is_none());
    assert!(mesh.colors.is_none());
    assert_eq!(mesh.faces.len(), 0);
    assert!(mesh.primitive_types.triangle);
}

#[test]
fn test_import_meshes_partial_attributes() {
    let mesh = ObjMeshData {
        positions: vec![0.0, 0.0, 0.0, 1.0, 0.0, 0.0],
        normals: vec![],
        texcoords: vec![0.0, 0.0, 1.0, 0.0],
        vertex_color: vec![],
        indices: vec![0, 1],
        face_arities: vec![2],
        material_id: Some(5),
    };

    let model = ObjModel { mesh, name: "partial".to_string() };

    let (ai_meshes, _) = import_meshes(&vec![model]);
    let mesh = &ai_meshes[0];

    assert_eq!(mesh.vertices.len(), 2);
    assert_eq!(mesh.normals.len(), 0);
    assert!(mesh.texture_coords.is_some());
    assert_eq!(mesh.texture_coords.as_ref().unwrap().len(), 2);
    assert!(mesh.colors.is_none());
    assert_eq!(mesh.faces.len(), 1);
    assert_eq!(mesh.faces[0], vec![0, 1]);
    assert_eq!(mesh.material_index, 5);
    assert!(mesh.primitive_types.line);
}

#[test]
fn test_import_meshes_complex_face_arities() {
    let mut mesh = create_test_mesh();
    mesh.face_arities = vec![3, 4, 5, 3];
    mesh.indices = vec![0, 1, 2, 3, 4, 5, 6, 7, 8, 9, 10, 11, 12, 13, 14];

    let model = ObjModel { mesh, name: "complex".to_string() };

    let (ai_meshes, _) = import_meshes(&vec![model]);
    let mesh = &ai_meshes[0];

    assert_eq!(mesh.faces.len(), 4);
    assert_eq!(mesh.faces[0], vec![0, 1, 2]);
    assert_eq!(mesh.faces[1], vec![3, 4, 5, 6]);
    assert_eq!(mesh.faces[2], vec![7, 8, 9, 10, 11]);
    assert_eq!(mesh.faces[3], vec![12, 13, 14]);

    assert!(mesh.primitive_types.triangle);
    assert!(mesh.primitive_types.polygon);
}

#[test]
fn obj_faces_cover_the_index_list_in_order() {
    let mut mesh = create_test_mesh();
    mesh.face_arities = vec![0, 2, 1];
    mesh.indices = vec![7, 8, 9, 10];
    let (ai_meshes, _) = import_meshes(&vec![ObjModel { mesh, name: "m".to_string() }]);
    let m = &ai_meshes[0];
    assert_eq!(m.faces, vec![vec![], vec![7, 8], vec![9]]);
    // a face of no corners adds no primitive kind
    assert!(!m.primitive_types.polygon && m.primitive_types.line && m.primitive_types.point);
    assert_eq!(m.primitive_types.bits(), 3);
}

fn material(name: &str) -> ObjMaterialInput {
    ObjMaterialInput {
        name: name.to_string(),
        ambient: None,
        diffuse: None,
        specular: None,
        shininess: None,
        dissolve: None,
        optical_density: None,
        illumination_model: None,
        ambient_texture: None,
        diffuse_texture: None,
        specular_texture: None,
        normal_texture: None,
        dissolve_texture: None,
        shininess_texture: None,
    }
}

fn color(r: f32, g: f32, b: f32) -> Option<Vec<u8>> {
    let mut v = Vec::new();
    for x in [r, g, b, 1.0] {
        v.extend_from_slice(&x.to_le_bytes());
    }
    Some(v)
}

fn number(x: f32) -> Option<Vec<u8>> {
    Some(x.to_le_bytes().to_vec())
}

fn full_material(name: &str, illum: Option<u8>) -> ObjMaterialInput {
    let mut m = material(name);
    m.ambient = color(0.1, 0.2, 0.3);
    m.diffuse = color(0.4, 0.5, 0.6);
    m.specular = color(0.7, 0.8, 0.9);
    m.shininess = number(32.0);
    m.dissolve = number(0.8);
    m.optical_density = number(1.5);
    m.illumination_model = illum;
    m
}

fn with_key<'a>(props: &'a [MaterialProperty], key: &str) -> Vec<&'a MaterialProperty> {
    props.iter().filter(|p| p.key == key).collect()
}

#[test]
fn test_import_materials_empty() {
    let (ai_materials, textures) = import_materials(&vec![]);
    assert_eq!(ai_materials.len(), 0);
    assert_eq!(textures.names().len(), 0);
}

#[test]
fn test_import_materials_basic() {
    let (ai_materials, textures) = import_materials(&vec![full_material("test_material", Some(2))]);
    assert_eq!(ai_materials.len(), 1);
    assert_eq!(textures.names().len(), 0);

    let properties = &ai_materials[0];
    assert!(!properties.is_empty());
    assert_eq!(with_key(properties, "?mat.name").len(), 1);
    assert_eq!(with_key(properties, "$clr.ambient").len(), 1);
}

#[test]
fn test_import_materials_with_textures() {
    let mut m = full_material("textured_material", Some(1));
    m.ambient_texture = Some("ambient.png".to_string());
    m.diffuse_texture = Some("diffuse.png".to_string());
    m.specular_texture = Some("specular.png".to_string());
    m.normal_texture = Some("normal.png".to_string());
    m.dissolve_texture = Some("opacity.png".to_string());
    m.shininess_texture = Some("shininess.png".to_string());

    let (ai_materials, textures) = import_materials(&vec![m]);
    assert_eq!(ai_materials.len(), 1);
    assert_eq!(textures.names().len(), 6);

    let names: std::collections::HashSet<_> = textures.names().iter().cloned().collect();
    assert_eq!(names.len(), 6);
    let files: Vec<String> = with_key(&ai_materials[0], "$tex.file")
        .iter()
        .map(|p| match &p.value {
            PropertyValue::Text(t) => t.clone(),
            _ => String::new(),
        })
        .collect();
    assert_eq!(files, vec!["*0", "*1", "*2", "*3", "*4", "*5"]);
}

#[test]
fn test_import_materials_duplicate_textures() {
    let mut material1 = full_material("material1", Some(1));
    material1.ambient_texture = Some("shared.png".to_string());
    material1.diffuse_texture = Some("shared.png".to_string());
    let mut material2 = full_material("material2", Some(2));
    material2.ambient_texture = Some("shared.png".to_string());

    let (ai_materials, textures) = import_materials(&vec![material1, material2]);
    assert_eq!(ai_materials.len(), 2);
    assert_eq!(textures.names().len(), 1);
    assert_eq!(textures.names()[0], "shared.png");
}

#[test]
fn test_import_materials_shading_modes() {
    let test_cases = vec![
        (Some(0), ShadingMode::Flat),
        (Some(1), ShadingMode::Gouraud),
        (Some(2), ShadingMode::Phong),
        (Some(3), ShadingMode::Gouraud),
        (None, ShadingMode::Gouraud),
    ];

    for (illum_model, expected_shading_mode) in test_cases {
        let (ai_materials, _) = import_materials(&vec![full_material("m", illum_model)]);
        assert_eq!(ai_materials.len(), 1);
        let shading_props = with_key(&ai_materials[0], "$mat.shadingm");
        assert_eq!(shading_props.len(), 1);
        match &shading_props[0].value {
            PropertyValue::Byte(b) => assert_eq!(*b, expected_shading_mode.code()),
            _ => panic!("Shading model property should be one byte"),
        }
    }
}

#[test]
fn test_import_materials_optional_properties() {
    let (ai_materials, textures) = import_materials(&vec![material("minimal_material")]);
    assert_eq!(ai_materials.len(), 1);
    assert_eq!(textures.names().len(), 0);

    let properties = &ai_materials[0];
    assert!(properties.len() >= 3);
    assert_eq!(with_key(properties, "?mat.name").len(), 1);
}

#[test]
fn test_import_materials_multiple_materials() {
    let (ai_materials, textures) =
        import_materials(&vec![full_material("material1", Some(1)), full_material("material2", Some(2))]);
    assert_eq!(ai_materials.len(), 2);
    assert_eq!(textures.names().len(), 0);

    let names: Vec<String> = ai_materials
        .iter()
        .map(|m| match &with_key(m, "?mat.name")[0].value {
            PropertyValue::Text(t) => t.clone(),
            _ => String::new(),
        })
        .collect();
    assert_eq!(names[0], "material1");
    assert_eq!(names[1], "material2");
}
