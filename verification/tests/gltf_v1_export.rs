use asset_importer_rs::gltf_v1::anim_export::{
    AnimationPath, channel_name, channel_samplers, num_keyframes, resample,
};
use asset_importer_rs::gltf_v1::exporter::{BufferEntry, Output, frame_document, plan_output, register_body_buffer};
use asset_importer_rs::gltf_v1::material_export::{
    EmbeddedTextureExport, MaterialTextureExport, SamplerEntry, SamplerWrap, export_material_texture,
};
use asset_importer_rs::gltf_v1::names::UniqueNames;
use asset_importer_rs::scene::{MaterialProperty, PropertyValue, TextureType};
use asset_importer_rs::textmap::TextMap;

fn text(key: &str, semantic: TextureType, value: &str) -> MaterialProperty {
    MaterialProperty { key: key.to_string(), semantic, index: 0, value: PropertyValue::Text(value.to_string()) }
}

#[test]
fn material_slot_gets_texture_sampler_and_image() {
    let props = vec![
        text("$tex.file", TextureType::Diffuse, "test_texture.png"),
        MaterialProperty { key: "$tex.mapmodeu".to_string(), semantic: TextureType::Diffuse, index: 0, value: PropertyValue::Bytes(vec![1]) },
        MaterialProperty { key: "$tex.mapmodev".to_string(), semantic: TextureType::Diffuse, index: 0, value: PropertyValue::Bytes(vec![2]) },
    ];
    let mut st = MaterialTextureExport::new();
    let values: TextMap<u8> = TextMap::new();
    let r = export_material_texture(&mut st, &vec![], &props, &values, "$clr.diffuse", TextureType::Diffuse);
    assert_eq!(r, Some("texture".to_string()));
    assert_eq!(st.textures.get("texture").map(|t| (t.source.clone(), t.sampler.clone())), Some(("image".to_string(), "sampler".to_string())));
    assert_eq!(st.samplers.get("sampler"), Some(&SamplerEntry { wrap_s: SamplerWrap::ClampToEdge, wrap_t: SamplerWrap::MirroredRepeat }));
    assert_eq!(st.images.get("image").map(|i| (i.name.clone(), i.uri.clone())), Some((None, "test_texture.png".to_string())));
    assert_eq!(st.textures_by_path.get("test_texture.png"), Some(&"texture".to_string()));
    // the same path again still makes new objects
    let again = export_material_texture(&mut st, &vec![], &props, &values, "$clr.diffuse", TextureType::Diffuse);
    assert_eq!(again, Some("texture_0".to_string()));
    assert_eq!(st.samplers.get("sampler_0").map(|s| s.wrap_s), Some(SamplerWrap::ClampToEdge));
    assert!(st.images.get("image_0").is_some());
    // a slot without a texture path
    assert_eq!(export_material_texture(&mut st, &vec![], &props, &values, "$clr.specular", TextureType::Specular), None);
}

#[test]
fn embedded_texture_becomes_a_data_uri() {
    let props = vec![text("$tex.file", TextureType::Diffuse, "*0")];
    let textures = vec![EmbeddedTextureExport {
        filename: "embedded_texture.png".to_string(),
        exported: Some(("image/png".to_string(), vec![1, 2, 3])),
    }];
    let mut st = MaterialTextureExport::new();
    let values: TextMap<u8> = TextMap::new();
    let r = export_material_texture(&mut st, &textures, &props, &values, "$clr.diffuse", TextureType::Diffuse);
    assert_eq!(r, Some("texture".to_string()));
    let image = st.images.get("image").unwrap();
    assert_eq!(image.name, Some("embedded_texture.png".to_string()));
    assert_eq!(image.uri, "data:image/png;baseW64,AQID");
    // an index with no texture
    let far = vec![text("$tex.file", TextureType::Diffuse, "*4")];
    export_material_texture(&mut st, &textures, &far, &values, "$clr.diffuse", TextureType::Diffuse);
    let image = st.images.get("image_0").unwrap();
    assert_eq!(image.name, None);
    assert_eq!(image.uri, "");
}

#[test]
fn slot_colour_key_already_set_reuses_the_recorded_texture() {
    let props = vec![text("$tex.file", TextureType::Diffuse, "wood.png")];
    let mut st = MaterialTextureExport::new();
    let mut values: TextMap<u8> = TextMap::new();
    assert_eq!(export_material_texture(&mut st, &vec![], &props, &values, "$clr.diffuse", TextureType::Diffuse), Some("texture".to_string()));
    values.insert("$clr.diffuse".to_string(), 1);
    assert_eq!(export_material_texture(&mut st, &vec![], &props, &values, "$clr.diffuse", TextureType::Diffuse), Some("texture".to_string()));
    assert_eq!(st.textures.len(), 1);
}

#[test]
fn animation_keys_are_resampled_to_the_longest_list() {
    assert_eq!(num_keyframes(2, 5, 3), 5);
    assert_eq!(resample(&vec!['a', 'b'], 5), vec!['a', 'a', 'a', 'b', 'b']);
    assert_eq!(resample(&vec![1, 2, 3], 3), vec![1, 2, 3]);
}

#[test]
fn animation_channels_are_named_after_the_animation() {
    let mut names = UniqueNames::new();
    assert_eq!(channel_name(&"".to_string(), 0, &mut names), "anim_0");
    assert_eq!(channel_name(&"walk".to_string(), 2, &mut names), "walk_2");
    assert_eq!(channel_name(&"walk".to_string(), 2, &mut names), "walk_2_0");
    let s = channel_samplers(&"walk_2".to_string(), 3, 0, 1);
    assert_eq!(s.len(), 2);
    assert_eq!(s[0].sampler_name, "walk_2_translation");
    assert_eq!(s[0].path, AnimationPath::Translation);
    assert_eq!(s[1].sampler_name, "walk_2_scale");
    assert_eq!(s[1].path, AnimationPath::Scale);
}

#[test]
fn body_buffer_is_registered_by_output_kind() {
    let mut buffers: TextMap<BufferEntry> = TextMap::new();
    register_body_buffer(&mut buffers, Output::Standard, Some("scene.bin".to_string()), 12);
    let body = buffers.get("body").unwrap();
    assert_eq!((body.uri.as_str(), body.byte_length, body.name.as_str()), ("scene.bin", 12, "body"));
    let mut fallback: TextMap<BufferEntry> = TextMap::new();
    register_body_buffer(&mut fallback, Output::Standard, None, 0);
    assert_eq!(fallback.get("body").unwrap().uri, "0.bin");
    register_body_buffer(&mut buffers, Output::Binary, None, 40);
    assert_eq!(buffers.get("body").unwrap().uri, "binary_glTF");
    assert_eq!(buffers.get("body").unwrap().byte_length, 12);
    let glb = buffers.get("binary_glTF").unwrap();
    assert_eq!((glb.uri.as_str(), glb.byte_length, glb.name.as_str()), ("data:,", 40, "binary_glTF"));
    assert_eq!(buffers.len(), 2);
}

use asset_importer_rs::gltf2::material_export::MaterialNameError;
use asset_importer_rs::gltf_v1::material_export::{MaterialInput, ParamValue, export_materials};

fn create_test_material() -> MaterialInput<[f32; 4], f32> {
    MaterialInput {
        props: vec![text("?mat.name", TextureType::NoTexture, "TestMaterial")],
        ambient: None,
        diffuse: Some([1.0, 0.5, 0.25, 1.0]),
        specular: None,
        emissive: None,
        two_sided: Some(true),
        opacity: None,
        shininess: None,
    }
}

#[test]
fn test_export_materials_basic() {
    let mut st = MaterialTextureExport::new();
    let result = export_materials(&mut st, &vec![], &vec![create_test_material()]);
    assert!(result.is_ok());
    let materials = result.unwrap();
    assert!(!materials.is_empty());
    let material = &materials[0];
    assert_eq!(material.name, "TestMaterial");
    match material.values.get("diffuse") {
        Some(ParamValue::Color(color)) => {
            assert_eq!(color[0], 1.0);
            assert_eq!(color[1], 0.5);
            assert_eq!(color[2], 0.25);
            assert_eq!(color[3], 1.0);
        }
        _ => panic!("Diffuse color not found or wrong type"),
    }
    match material.values.get("doubleSided") {
        Some(ParamValue::Flag(value)) => assert!(*value),
        _ => panic!("Two-sided property not found or wrong type"),
    }
}

#[test]
fn test_export_materials_with_texture() {
    let mut material = create_test_material();
    material.props.push(text("$tex.file", TextureType::Diffuse, "test_texture.png"));
    material.props.push(MaterialProperty { key: "$tex.mapmodeu".to_string(), semantic: TextureType::Diffuse, index: 0, value: PropertyValue::Bytes(vec![1]) });
    material.props.push(MaterialProperty { key: "$tex.mapmodev".to_string(), semantic: TextureType::Diffuse, index: 0, value: PropertyValue::Bytes(vec![2]) });
    let mut st = MaterialTextureExport::new();
    let materials = export_materials(&mut st, &vec![], &vec![material]).unwrap();
    assert!(st.textures.len() > 0);
    assert!(st.samplers.len() > 0);
    assert!(st.images.len() > 0);
    let material = &materials[0];
    match material.values.get("diffuse") {
        Some(ParamValue::Texture(texture_name)) => assert!(st.textures.get(texture_name).is_some()),
        _ => panic!("Diffuse texture reference not found or wrong type"),
    }
}

#[test]
fn material_names_and_numeric_parameters() {
    let mut a = create_test_material();
    a.opacity = Some((0.5, true));
    a.shininess = Some(8.0);
    let mut b = create_test_material();
    b.props = vec![];
    b.opacity = Some((1.0, false));
    let mut st = MaterialTextureExport::new();
    let materials = export_materials(&mut st, &vec![], &vec![a, create_test_material(), b]).unwrap();
    assert_eq!(materials[0].name, "TestMaterial");
    assert_eq!(materials[1].name, "TestMaterial_0");
    assert_eq!(materials[2].name, "material");
    assert!(matches!(materials[0].values.get("transparency"), Some(ParamValue::Number(x)) if *x == 0.5));
    assert!(matches!(materials[0].values.get("transparent"), Some(ParamValue::Flag(true))));
    assert!(matches!(materials[0].values.get("shininess"), Some(ParamValue::Number(x)) if *x == 8.0));
    assert!(matches!(materials[2].values.get("transparency"), Some(ParamValue::Number(x)) if *x == 1.0));
    assert!(materials[2].values.get("transparent").is_none());
}

#[test]
fn export_stops_at_a_name_that_is_not_utf8() {
    let mut broken = create_test_material();
    broken.props = vec![MaterialProperty {
        key: "?mat.name".to_string(),
        semantic: TextureType::NoTexture,
        index: 0,
        value: PropertyValue::Bytes(vec![0xe2, 0x82]),
    }];
    let mut st = MaterialTextureExport::new();
    let result = export_materials(&mut st, &vec![], &vec![create_test_material(), broken, create_test_material()]);
    assert_eq!(result.err(), Some(MaterialNameError::NotUtf8));
    let mut fresh = MaterialTextureExport::new();
    let again = export_materials(&mut fresh, &vec![], &vec![create_test_material()]).unwrap();
    assert_eq!(again[0].name, "TestMaterial");
}

#[test]
fn output_files_follow_the_output_type() {
    let p = plan_output(Output::Standard, "out/scene.dae", 12);
    assert_eq!(p.gltf_file.as_deref(), Some("out/scene.gltf"));
    assert_eq!(p.bin_file.as_deref(), Some("out/scene.bin"));
    assert_eq!(p.glb_file, None);
    assert_eq!((p.body_uri.as_str(), p.body_byte_length), ("scene.bin", 12));
    let b = plan_output(Output::Binary, "out/scene", 40);
    assert_eq!((b.gltf_file, b.bin_file), (None, None));
    assert_eq!(b.glb_file.as_deref(), Some("out/scene.glb"));
    assert_eq!((b.body_uri.as_str(), b.body_byte_length), ("data:,", 40));
}

#[test]
fn test_export_materials_with_embedded_texture() {
    let mut material = create_test_material();
    let mut img = image::RgbaImage::new(2, 2);
    img.put_pixel(0, 0, image::Rgba([255, 0, 0, 255]));
    img.put_pixel(1, 0, image::Rgba([0, 255, 0, 255]));
    img.put_pixel(0, 1, image::Rgba([0, 0, 255, 255]));
    img.put_pixel(1, 1, image::Rgba([255, 255, 255, 255]));
    let mut png = std::io::Cursor::new(Vec::new());
    img.write_to(&mut png, image::ImageFormat::Png).unwrap();
    let textures = vec![EmbeddedTextureExport {
        filename: "embedded_texture.png".to_string(),
        exported: Some(("image/png".to_string(), png.into_inner())),
    }];
    material.props.push(MaterialProperty {
        key: "$tex.file".to_string(),
        semantic: TextureType::Diffuse,
        index: 0,
        value: PropertyValue::Bytes("*0".as_bytes().to_vec()),
    });
    let mut st = MaterialTextureExport::new();
    let result = export_materials(&mut st, &textures, &vec![material]);
    assert!(result.is_ok());
    assert!(st.images.len() > 0);
    let image = st.images.get("image").unwrap();
    assert!(image.uri.starts_with("data:image/png;baseW64,"));
}

#[test]
fn document_frame_names_the_scene_and_registers_the_body() {
    let mut buffers: TextMap<BufferEntry> = TextMap::new();
    let f = frame_document(&"Scene".to_string(), Some("me".to_string()), Some("node".to_string()), Output::Standard, "out/model.gltf", 24, &mut buffers);
    assert_eq!(f.scene_name, "Scene");
    assert_eq!(f.scene_nodes, vec!["node".to_string()]);
    assert_eq!(f.copyright, Some("me".to_string()));
    assert_eq!(f.plan.body_uri, "model.bin");
    let body = buffers.get("body").unwrap();
    assert_eq!(body.uri, "model.bin");
    assert_eq!(body.byte_length, 24);
    let mut bin: TextMap<BufferEntry> = TextMap::new();
    let g = frame_document(&"S".to_string(), None, None, Output::Binary, "m.glb", 8, &mut bin);
    assert!(g.scene_nodes.is_empty());
    assert_eq!(bin.get("binary_glTF").unwrap().uri, "data:,");
}
