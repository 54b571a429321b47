use asset_importer_rs::gltf2::material_export::{
    AlphaMode, ExtensionFeatures, MaterialExport, MaterialNameError, SceneTexture, export_material, export_materials,
};
use asset_importer_rs::gltf_v1::names::UniqueNames;
use asset_importer_rs::scene::{MaterialProperty, PropertyValue, TextureType};

fn text(key: &str, value: &str) -> MaterialProperty {
    MaterialProperty { key: key.to_string(), semantic: TextureType::NoTexture, index: 0, value: PropertyValue::Text(value.to_string()) }
}

fn bytes(key: &str, value: Vec<u8>) -> MaterialProperty {
    MaterialProperty { key: key.to_string(), semantic: TextureType::NoTexture, index: 0, value: PropertyValue::Bytes(value) }
}

#[test]
fn material_is_exported_with_name_factors_and_extensions() {
    let features = ExtensionFeatures { specular: true, transmission: true, volume: true, ior: true, emissive_strength: true, specular_glossiness: true };
    let props = vec![
        text("?mat.name", "Steel"),
        bytes("$mat.twosided", vec![1]),
        bytes("$mat.metallicFactor", 0.25f32.to_le_bytes().to_vec()),
        bytes("$mat.transmission.factor", 0.5f32.to_le_bytes().to_vec()),
    ];
    let textures: Vec<SceneTexture> = vec![];
    let mut st = MaterialExport::new(UniqueNames::new());
    let mut used = vec![];
    let m = match export_material(&mut st, &textures, &props, features, false, false, &mut used) {
        Ok(m) => m,
        Err(_) => panic!("export"),
    };
    assert_eq!(m.name, "Steel");
    assert!(m.double_sided);
    assert_eq!(m.alpha_mode, AlphaMode::Opaque);
    assert_eq!(m.factors.metallic, Some(0.25f32.to_le_bytes().to_vec()));
    assert!(m.textures.base_color.is_none());
    assert!(m.extensions.transmission);
    assert_eq!(used, vec!["KHR_materials_transmission", "KHR_materials_ior", "KHR_materials_emissive_strength"]);
    let again = match export_material(&mut st, &textures, &props, features, false, false, &mut used) {
        Ok(m) => m,
        Err(_) => panic!("export"),
    };
    assert_eq!(again.name, "Steel_0");
}

#[test]
fn material_with_unreadable_name_changes_nothing() {
    let features = ExtensionFeatures { specular: false, transmission: false, volume: false, ior: false, emissive_strength: false, specular_glossiness: false };
    let props = vec![bytes("?mat.name", vec![0x4b, 0xff])];
    let textures: Vec<SceneTexture> = vec![];
    let mut st = MaterialExport::new(UniqueNames::new());
    let mut used = vec!["x".to_string()];
    assert!(matches!(
        export_material(&mut st, &textures, &props, features, false, false, &mut used),
        Err(MaterialNameError::NotUtf8)
    ));
    assert_eq!(used, vec!["x".to_string()]);
    assert!(st.images.is_empty());
}

#[test]
fn materials_are_exported_in_order_until_an_unreadable_name() {
    let none = ExtensionFeatures { specular: false, transmission: false, volume: false, ior: false, emissive_strength: false, specular_glossiness: false };
    let textures: Vec<SceneTexture> = vec![];
    let unlit = MaterialProperty { key: "$mat.shadingm".to_string(), semantic: TextureType::NoTexture, index: 0, value: PropertyValue::Byte(9) };
    let materials = vec![vec![text("?mat.name", "A")], vec![], vec![text("?mat.name", "A"), unlit]];
    let mut st = MaterialExport::new(UniqueNames::new());
    let mut used = vec![];
    let out = match export_materials(&mut st, &textures, &materials, none, false, false, &mut used) {
        Ok(v) => v,
        Err(_) => panic!("export"),
    };
    let names: Vec<&str> = out.iter().map(|m| m.name.as_str()).collect();
    assert_eq!(names, vec!["A", "material", "A_0"]);
    assert_eq!(used, vec!["KHR_materials_unlit"]);
    let broken = vec![vec![text("?mat.name", "B")], vec![bytes("?mat.name", vec![0xff])], vec![]];
    let mut st2 = MaterialExport::new(UniqueNames::new());
    let mut used2 = vec![];
    assert!(matches!(
        export_materials(&mut st2, &textures, &broken, none, false, false, &mut used2),
        Err(MaterialNameError::NotUtf8)
    ));
}
