use asset_importer_rs::gltf2::animation_export::{AnimationChannelInfo, AnimationInfo, export_animation_names};
use asset_importer_rs::gltf2::material_export::{
    AlphaMode, ExportSampler, Filter, MaterialExport, SceneTexture, TextureInfo, Wrap, alpha_mode,
    ExtensionFeatures, MaterialExtensions, MaterialNameError, double_sided, material_extensions, material_factor_bytes, export_material_textures, get_material_texture, is_unlit,
    material_name, sampler_for, texture_coordinate, texture_file,
};
use asset_importer_rs::gltf2::mesh_export::{
    AccessorPlace, ViewEntry, ViewTarget, export_data, export_u32, export_usize_4, u32_bytes, face_index_data, merge_node_meshes, needs_skin, skinned_nodes,
};
use asset_importer_rs::gltf2::node_import::{
    JointWeightSet, SceneNode, bone_name, build_bones, group_joint_weights, hierarchy_readable, import_hierarchy, node_order,
};
use asset_importer_rs::gltf_v1::names::UniqueNames;
use asset_importer_rs::scene::{MaterialProperty, PropertyValue, TextureType};

fn node(mesh: Option<usize>, camera: Option<usize>, children: Vec<usize>) -> SceneNode {
    SceneNode { mesh, skin: None, camera, children }
}

fn text(key: &str, semantic: TextureType, index: u32, value: &str) -> MaterialProperty {
    MaterialProperty { key: key.to_string(), semantic, index, value: PropertyValue::Text(value.to_string()) }
}

fn bytes(key: &str, semantic: TextureType, index: u32, value: Vec<u8>) -> MaterialProperty {
    MaterialProperty { key: key.to_string(), semantic, index, value: PropertyValue::Bytes(value) }
}

fn scene_texture(filename: &str) -> SceneTexture {
    SceneTexture {
        filename: filename.to_string(),
        hint_mime: "image/png".to_string(),
        hint_extension: "png".to_string(),
        export_mime: "image/png".to_string(),
        export_bytes: vec![1, 2, 3],
    }
}

#[test]
fn hierarchy_is_read_breadth_first_with_parent_positions() {
    // 0 -> [1, 2], 1 -> [3], 2 -> [], 3 -> []
    let nodes = vec![
        node(None, None, vec![1, 2]),
        node(Some(0), None, vec![3]),
        node(None, None, vec![]),
        node(Some(1), None, vec![]),
    ];
    let order = node_order(&nodes, 0);
    assert_eq!(order, vec![(0, None), (1, Some(0)), (2, Some(0)), (3, Some(1))]);
    // a subtree root
    assert_eq!(node_order(&nodes, 1), vec![(1, None), (3, Some(0))]);
}

#[test]
fn shared_node_is_read_once_for_each_parent() {
    // 0 -> [1, 2], 1 -> [3], 2 -> [3]: node 3 has two parents
    let nodes = vec![
        node(None, None, vec![1, 2]),
        node(None, None, vec![3]),
        node(None, None, vec![3]),
        node(None, None, vec![]),
    ];
    assert!(hierarchy_readable(&nodes, 0));
    let order = node_order(&nodes, 0);
    assert_eq!(order, vec![(0, None), (1, Some(0)), (2, Some(0)), (3, Some(1)), (3, Some(2))]);
}

#[test]
fn hierarchy_with_a_missing_node_is_not_readable() {
    let nodes = vec![node(None, None, vec![1]), node(None, None, vec![7])];
    assert!(!hierarchy_readable(&nodes, 0));
    assert!(!hierarchy_readable(&nodes, 2));
    assert!(hierarchy_readable(&vec![node(None, None, vec![])], 0));
}

#[test]
fn hierarchy_meshes_come_from_the_offsets_and_cameras_lose_their_names() {
    let nodes = vec![
        node(None, Some(0), vec![1]),
        node(Some(1), None, vec![]),
    ];
    let offsets = vec![0u32, 2, 5];
    let mut cameras = vec!["cam".to_string(), "other".to_string()];
    let arena = import_hierarchy(&nodes, 0, &offsets, &mut cameras);
    assert_eq!(arena.len(), 2);
    assert_eq!(arena[0].node, 0);
    assert_eq!(arena[0].parent, None);
    assert!(arena[0].mesh_indexes.is_empty());
    assert_eq!(arena[1].node, 1);
    assert_eq!(arena[1].parent, Some(0));
    assert_eq!(arena[1].mesh_indexes, vec![2, 3, 4]);
    assert_eq!(cameras, vec!["".to_string(), "other".to_string()]);
}

#[test]
fn joint_weights_are_grouped_by_bone() {
    let set = JointWeightSet {
        joints: vec![[0, 1, 5, 0], [1, 1, 0, 0]],
        weights: vec![[10u32, 20, 30, 0], [40, 50, 0, 0]],
        positive: vec![[true, true, true, false], [true, true, false, false]],
    };
    let w = group_joint_weights(2, &vec![set]);
    assert_eq!(w, vec![vec![(0, 10)], vec![(0, 20), (1, 40), (1, 50)]]);
    // only as many vertices as both accessors have
    let short = JointWeightSet {
        joints: vec![[0, 0, 0, 0], [0, 0, 0, 0]],
        weights: vec![[7u32, 0, 0, 0]],
        positive: vec![[true, false, false, false]],
    };
    assert_eq!(group_joint_weights(1, &vec![short]), vec![vec![(0, 7)]]);
}

#[test]
fn bones_are_named_and_never_without_weights() {
    assert_eq!(bone_name(&None, 3), "bone_3");
    assert_eq!(bone_name(&Some("hip".to_string()), 3), "hip");
    let bones = build_bones(&vec![Some("hip".to_string()), None], vec![vec![(2, 9u32)], vec![]], 0u32);
    assert_eq!(bones.len(), 2);
    assert_eq!(bones[0].name, "hip");
    assert_eq!(bones[0].weights, vec![(2, 9)]);
    assert_eq!(bones[1].name, "bone_1");
    assert_eq!(bones[1].weights, vec![(0, 0)]);
}

#[test]
fn material_texture_is_exported_once_per_file_name() {
    let props = vec![
        text("$tex.file", TextureType::Diffuse, 0, "*wood.png"),
        bytes("$tex.uvwsrc", TextureType::Diffuse, 0, vec![2, 0, 0, 0]),
        text("$tex.file", TextureType::BaseColor, 0, "*wood.png"),
    ];
    let textures = vec![scene_texture("stone.png"), scene_texture("wood.png")];
    let mut st = MaterialExport::new(UniqueNames::new());
    let first = get_material_texture(&mut st, &textures, &props, TextureType::Diffuse, 0, false);
    assert_eq!(first, Some(TextureInfo { index: 0, tex_coord: 2 }));
    assert_eq!(st.images.len(), 1);
    assert_eq!(st.images[0].uri, Some("wood.png.png".to_string()));
    assert_eq!(st.images[0].name, "wood.png");
    assert_eq!(st.images[0].buffer_view, None);
    assert_eq!(st.textures.len(), 1);
    assert_eq!(st.textures[0].source, 0);
    assert_eq!(st.textures[0].sampler, None);
    // the same file name from another slot finds the same texture
    let again = get_material_texture(&mut st, &textures, &props, TextureType::BaseColor, 0, false);
    assert_eq!(again, Some(TextureInfo { index: 0, tex_coord: 0 }));
    assert_eq!(st.textures.len(), 1);
    assert_eq!(st.images.len(), 1);
    // a slot without a file
    assert_eq!(get_material_texture(&mut st, &textures, &props, TextureType::Normals, 0, false), None);
}

#[test]
fn binary_export_writes_the_image_into_the_body() {
    let props = vec![text("$tex.file", TextureType::Diffuse, 0, "*a.png")];
    let textures = vec![scene_texture("a.png")];
    let mut st = MaterialExport::new(UniqueNames::new());
    st.buffer = vec![9, 9];
    let r = get_material_texture(&mut st, &textures, &props, TextureType::Diffuse, 0, true);
    assert_eq!(r, Some(TextureInfo { index: 0, tex_coord: 0 }));
    assert_eq!(st.buffer, vec![9, 9, 1, 2, 3]);
    assert_eq!(st.views.len(), 1);
    assert_eq!(st.views[0].offset, 2);
    assert_eq!(st.views[0].length, 3);
    assert_eq!(st.views[0].name, "imgdata");
    assert_eq!(st.images[0].buffer_view, Some(0));
    assert_eq!(st.images[0].uri, None);
    // a file name no scene texture ends: nothing
    let missing = vec![text("$tex.file", TextureType::Diffuse, 0, "*b.png")];
    assert_eq!(get_material_texture(&mut st, &textures, &missing, TextureType::Diffuse, 0, true), None);
    assert_eq!(st.images.len(), 1);
}

#[test]
fn samplers_are_found_by_mapping_id_or_added() {
    let props = vec![
        bytes("$tex.mappingid", TextureType::Diffuse, 0, vec![7, 0, 0, 0]),
        text("$tex.mappingname", TextureType::Diffuse, 0, "smp"),
        MaterialProperty { key: "$tex.mappingfiltermag".to_string(), semantic: TextureType::Diffuse, index: 0, value: PropertyValue::Byte(2) },
        bytes("$tex.mappingfiltermin", TextureType::Diffuse, 0, vec![1]),
        bytes("$tex.mapmodeu", TextureType::Diffuse, 0, vec![2]),
        bytes("$tex.mapmodev", TextureType::Diffuse, 0, vec![3]),
    ];
    let mut samplers: Vec<ExportSampler> = Vec::new();
    assert_eq!(sampler_for(&mut samplers, &props, TextureType::Diffuse, 0), Some(0));
    assert_eq!(samplers.len(), 1);
    assert_eq!(samplers[0].name, Some("smp".to_string()));
    assert_eq!(samplers[0].mag_filter, Some(Filter::Linear));
    assert_eq!(samplers[0].min_filter, Some(Filter::Nearest));
    assert_eq!(samplers[0].wrap_s, Wrap::MirroredRepeat);
    assert_eq!(samplers[0].wrap_t, Wrap::Repeat);
    // the new sampler is named after its mapping name, not its id, so the
    // id `7` is looked up in vain and another sampler is added
    assert_eq!(sampler_for(&mut samplers, &props, TextureType::Diffuse, 0), Some(1));
    // a sampler named by the id is found
    let mut named = vec![ExportSampler { name: Some("7".to_string()), mag_filter: None, min_filter: None, wrap_s: Wrap::ClampToEdge, wrap_t: Wrap::ClampToEdge }];
    assert_eq!(sampler_for(&mut named, &props, TextureType::Diffuse, 0), Some(0));
    assert_eq!(named.len(), 1);
    // no mapping id: no sampler
    assert_eq!(sampler_for(&mut named, &props, TextureType::Specular, 0), None);
}

#[test]
fn material_textures_ask_every_slot_in_order() {
    let props = vec![
        text("$tex.file", TextureType::Diffuse, 0, "*d.png"),
        text("$tex.file", TextureType::Metalness, 0, "*m.png"),
        text("$tex.file", TextureType::Normals, 0, "*n.png"),
        bytes("$tex.scale", TextureType::Normals, 0, vec![0, 0, 128, 63]),
    ];
    let textures = vec![scene_texture("d.png"), scene_texture("m.png"), scene_texture("n.png")];
    let mut st = MaterialExport::new(UniqueNames::new());
    let m = export_material_textures(&mut st, &textures, &props, false);
    assert_eq!(m.base_color, Some(TextureInfo { index: 0, tex_coord: 0 }));
    assert_eq!(m.metallic_roughness, Some(TextureInfo { index: 1, tex_coord: 0 }));
    assert_eq!(m.normal, Some(TextureInfo { index: 2, tex_coord: 0 }));
    assert_eq!(m.occlusion, Some(TextureInfo { index: 2, tex_coord: 0 }));
    assert_eq!(m.emissive, Some(TextureInfo { index: 2, tex_coord: 0 }));
    assert_eq!(m.normal_scale, Some(vec![0, 0, 128, 63]));
    assert_eq!(m.occlusion_strength, None);
    assert_eq!(st.textures.len(), 3);
}

#[test]
fn material_flags_and_names() {
    let props = vec![
        text("?mat.name", TextureType::NoTexture, 0, "Steel"),
        bytes("$mat.twosided", TextureType::NoTexture, 0, vec![1]),
        bytes("$mat.opacity", TextureType::NoTexture, 0, vec![0, 0, 0, 63]),
        MaterialProperty { key: "$mat.shadingm".to_string(), semantic: TextureType::NoTexture, index: 0, value: PropertyValue::Byte(9) },
    ];
    assert!(double_sided(&props));
    assert!(is_unlit(&props));
    assert_eq!(alpha_mode(&props), AlphaMode::Blend);
    let mut names = UniqueNames::new();
    assert_eq!(material_name(&props, &mut names), Ok("Steel".to_string()));
    assert_eq!(material_name(&props, &mut names), Ok("Steel_0".to_string()));
    assert_eq!(material_name(&vec![], &mut names), Ok("material".to_string()));
    let named = vec![text("$mat.gltf.alphaCutoff", TextureType::NoTexture, 0, "MASK")];
    assert_eq!(alpha_mode(&named), AlphaMode::Mask);
    assert_eq!(alpha_mode(&vec![]), AlphaMode::Opaque);
    assert!(!double_sided(&vec![]));
    assert!(!is_unlit(&vec![]));
    assert_eq!(texture_coordinate(&vec![bytes("$tex.uvwsrc", TextureType::Diffuse, 0, vec![1, 1, 0, 0])], TextureType::Diffuse, 0), 257);
}

#[test]
fn face_indices_and_skins() {
    let faces = vec![vec![0, 1, 2], vec![2, 3, 0, 9]];
    assert_eq!(face_index_data(&faces), vec![0, 1, 2, 2, 3, 0]);
    assert_eq!(face_index_data(&vec![]), Vec::<u32>::new());
    assert!(needs_skin(&vec![0, 2]));
    assert!(!needs_skin(&vec![0, 0]));
    assert_eq!(skinned_nodes(&vec![vec![1], vec![0, 5], vec![]], &vec![false, true]), vec![true, false, false]);
}

#[test]
fn node_meshes_merge_into_one() {
    let meshes = vec![vec!['a'], vec!['b', 'c'], vec!['d']];
    // node 0 merges meshes 0 and 1; node 1 has none; node 2 starts with mesh 1,
    // whose primitives node 0 took, and adds mesh 2
    let (merged, node_mesh) = merge_node_meshes(&vec![vec![0, 1], vec![], vec![1, 2]], meshes);
    assert_eq!(node_mesh, vec![Some(0), None, Some(1)]);
    assert_eq!(merged.len(), 2);
    assert_eq!(merged[0].source, 0);
    assert_eq!(merged[0].primitives, vec!['a', 'b', 'c']);
    assert_eq!(merged[1].source, 1);
    assert_eq!(merged[1].primitives, vec!['d']);
}

#[test]
fn animations_get_unique_names() {
    let anims = vec![
        AnimationInfo { name: "walk".to_string(), channels: vec![AnimationChannelInfo { node_name: "ghost".to_string(), position_keys: 3, rotation_keys: 0, scaling_keys: 0 }] },
        AnimationInfo { name: "walk".to_string(), channels: vec![] },
    ];
    let mut names = UniqueNames::new();
    let r = export_animation_names(&anims, &vec![Some("root".to_string())], &mut names);
    assert_eq!(r, vec!["walk".to_string(), "walk_0".to_string()]);
}

use asset_importer_rs::gltf2::node_export::{NodeSource, export_nodes};
use asset_importer_rs::textmap::TextMap;

#[test]
fn nodes_export_in_arena_order_with_cameras_by_name() {
    let nodes = vec![
        NodeSource { name: "cam".to_string(), children: vec![1, 2], mesh_indexes: vec![] },
        NodeSource { name: "cam".to_string(), children: vec![], mesh_indexes: vec![0, 3] },
        NodeSource { name: "leaf".to_string(), children: vec![], mesh_indexes: vec![] },
    ];
    let mut cameras: TextMap<usize> = TextMap::new();
    cameras.insert("cam".to_string(), 4);
    let mut names = UniqueNames::new();
    let (out, meshes) = export_nodes(&nodes, &mut names, &cameras);
    assert_eq!(out.len(), 3);
    assert_eq!(out[0].name, "cam");
    assert_eq!(out[0].children, Some(vec![1, 2]));
    assert_eq!(out[0].camera, Some(4));
    assert_eq!(out[1].name, "cam_0");
    assert_eq!(out[1].children, None);
    assert_eq!(out[1].camera, None);
    assert_eq!(out[2].camera, None);
    assert_eq!(meshes, vec![vec![], vec![0, 3], vec![]]);
}

#[test]
fn names_and_paths_stored_as_bytes_are_read_as_utf8() {
    let mut names = UniqueNames::new();
    let stored = vec![bytes("?mat.name", TextureType::NoTexture, 0, "Kupfer\u{e4}".as_bytes().to_vec())];
    assert_eq!(material_name(&stored, &mut names), Ok("Kupfer\u{e4}".to_string()));
    let broken = vec![bytes("?mat.name", TextureType::NoTexture, 0, vec![0x4b, 0xff, 0x41])];
    assert_eq!(material_name(&broken, &mut names), Err(MaterialNameError::NotUtf8));
    assert_eq!(material_name(&stored, &mut names), Ok("Kupfer\u{e4}_0".to_string()));
    let path = vec![bytes("$tex.file", TextureType::Diffuse, 0, b"*0".to_vec())];
    assert_eq!(texture_file(&path, TextureType::Diffuse, 0), Some("*0".to_string()));
    let bad_path = vec![bytes("$tex.file", TextureType::Diffuse, 0, vec![0xc0, 0x80])];
    assert_eq!(texture_file(&bad_path, TextureType::Diffuse, 0), None);
    let cutoff = vec![bytes("$mat.gltf.alphaCutoff", TextureType::NoTexture, 0, b"MASK".to_vec())];
    assert_eq!(alpha_mode(&cutoff), AlphaMode::Mask);
}

#[test]
fn factor_bytes_follow_the_stored_lengths_and_fallbacks() {
    let mut props = vec![
        bytes("$clr.base", TextureType::NoTexture, 0, vec![1; 12]),
        bytes("$clr.diffuse", TextureType::NoTexture, 0, vec![2; 16]),
        bytes("$mat.metallicFactor", TextureType::NoTexture, 0, 0.25f32.to_le_bytes().to_vec()),
        bytes("$mat.shininess", TextureType::NoTexture, 0, 250.0f32.to_le_bytes().to_vec()),
        bytes("$clr.specular", TextureType::NoTexture, 0, vec![3; 12]),
        bytes("$clr.emissive", TextureType::NoTexture, 0, vec![4; 16]),
        bytes("$mat.opacity", TextureType::NoTexture, 0, 0.5f32.to_le_bytes().to_vec()),
    ];
    let f = material_factor_bytes(&props);
    assert_eq!(f.base_color, Some(vec![2; 16]));
    assert_eq!(f.metallic, Some(0.25f32.to_le_bytes().to_vec()));
    assert_eq!(f.roughness, None);
    assert_eq!(f.shininess_specular, Some((250.0f32.to_le_bytes().to_vec(), vec![3; 12])));
    assert_eq!(f.emissive, None);
    assert_eq!(f.alpha_cutoff, None);
    assert_eq!(f.opacity, Some(0.5f32.to_le_bytes().to_vec()));
    props.push(bytes("$mat.roughnessFactor", TextureType::NoTexture, 0, 0.75f32.to_le_bytes().to_vec()));
    let g = material_factor_bytes(&props);
    assert_eq!(g.roughness, Some(0.75f32.to_le_bytes().to_vec()));
    assert_eq!(g.shininess_specular, None);
}

#[test]
fn accessor_data_is_appended_after_padding() {
    let mut views: Vec<ViewEntry> = vec![];
    let mut buffer = vec![9u8; 5];
    assert_eq!(export_data(&mut views, &mut buffer, vec![], 4, 1, ViewTarget::ArrayBuffer), None);
    assert_eq!(buffer.len(), 5);
    let place = export_data(&mut views, &mut buffer, vec![1, 2, 3, 4, 5, 6, 7, 8], 4, 1, ViewTarget::ElementArrayBuffer);
    assert_eq!(place, Some(AccessorPlace { view: 0, count: 2 }));
    assert_eq!(buffer, vec![9, 9, 9, 9, 9, 0, 1, 2, 3, 4, 5, 6, 7, 8]);
    assert_eq!(views, vec![ViewEntry { byte_offset: 6, byte_length: 8, target: ViewTarget::ElementArrayBuffer }]);
    let vec3 = export_data(&mut views, &mut buffer, vec![0; 24], 4, 3, ViewTarget::ArrayBuffer);
    assert_eq!(vec3, Some(AccessorPlace { view: 1, count: 2 }));
    assert_eq!(views[1].byte_offset, 16);
}

#[test]
fn indices_are_written_little_endian_with_their_bounds() {
    assert_eq!(u32_bytes(&vec![]), (vec![], None));
    let (bytes, bounds) = u32_bytes(&vec![0x0403_0201, 7, 0xffff_ffff]);
    assert_eq!(bytes, vec![1, 2, 3, 4, 7, 0, 0, 0, 255, 255, 255, 255]);
    assert_eq!(bounds, Some((7, 0xffff_ffff)));
    let mut views: Vec<ViewEntry> = vec![];
    let mut buffer = vec![0u8; 2];
    let r = export_u32(&mut views, &mut buffer, &vec![5, 3, 9]);
    assert_eq!(r, Some((AccessorPlace { view: 0, count: 3 }, (3, 9))));
    assert_eq!(buffer.len(), 4 + 12);
    assert_eq!(views[0], ViewEntry { byte_offset: 4, byte_length: 12, target: ViewTarget::ElementArrayBuffer });
    assert_eq!(export_u32(&mut views, &mut buffer, &vec![]), None);
}

#[test]
fn joint_groups_are_written_as_four_u32_each() {
    let mut views: Vec<ViewEntry> = vec![];
    let mut buffer: Vec<u8> = vec![];
    assert_eq!(export_usize_4(&mut views, &mut buffer, &vec![]), None);
    let r = export_usize_4(&mut views, &mut buffer, &vec![[1, 0, 0, 0], [2, 3, 0, 0]]);
    assert_eq!(r, Some((AccessorPlace { view: 0, count: 2 }, (0, 3))));
    assert_eq!(buffer.len(), 32);
    assert_eq!(&buffer[16..20], &[2, 0, 0, 0]);
    assert_eq!(views[0].byte_length, 32);
}

#[test]
fn material_extensions_follow_stored_values_and_build_features() {
    let all = ExtensionFeatures { specular: true, transmission: true, volume: true, ior: true, emissive_strength: true, specular_glossiness: true };
    let white: Vec<u8> = [1.0f32, 1.0, 1.0].iter().flat_map(|x| x.to_le_bytes()).collect();
    let props = vec![
        bytes("$clr.specular", TextureType::NoTexture, 0, white.clone()),
        bytes("$mat.specularFactor", TextureType::NoTexture, 0, 0.0f32.to_le_bytes().to_vec()),
        bytes("$mat.transmission.factor", TextureType::NoTexture, 0, 0.5f32.to_le_bytes().to_vec()),
    ];
    let mut used = vec!["KHR_texture_transform".to_string()];
    let e = material_extensions(&props, all, false, &mut used);
    assert_eq!(e, MaterialExtensions { specular_glossiness: false, unlit: false, specular: false, transmission: true, volume: false, ior: true, emissive_strength: true });
    assert_eq!(used, vec!["KHR_texture_transform", "KHR_materials_transmission", "KHR_materials_ior", "KHR_materials_emissive_strength"]);
    let with_factor = vec![
        bytes("$clr.specular", TextureType::NoTexture, 0, white.clone()),
        bytes("$mat.specularFactor", TextureType::NoTexture, 0, 0.5f32.to_le_bytes().to_vec()),
    ];
    let mut used2 = vec![];
    assert!(material_extensions(&with_factor, all, false, &mut used2).specular);
    let mut used3 = vec![];
    let sg = material_extensions(&with_factor, all, true, &mut used3);
    assert!(sg.specular_glossiness && !sg.specular && !sg.ior);
    assert_eq!(used3, vec!["KHR_materials_pbrSpecularGlossiness"]);
    let none = ExtensionFeatures { specular: false, transmission: false, volume: false, ior: false, emissive_strength: false, specular_glossiness: false };
    let unlit = vec![MaterialProperty { key: "$mat.shadingm".to_string(), semantic: TextureType::NoTexture, index: 0, value: PropertyValue::Byte(9) }];
    let mut used4 = vec![];
    let u = material_extensions(&unlit, none, false, &mut used4);
    assert!(u.unlit);
    assert_eq!(used4, vec!["KHR_materials_unlit"]);
}
