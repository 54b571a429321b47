use asset_importer_rs::dae::texture::{
    EffectSampler, EmbeddedImages, ImageInfo, ImageSourceInfo, ParamTarget, TEX_OP_ADD,
    TEX_OP_MULTIPLY, TEX_OP_SUBTRACT, TextureFileError, TextureMapMode, add_texture,
    apply_texture_extra_flag, blend_op, find_filename_for_effect_texture, image_file,
    resolve_image_name, trim, uv_source,
};
use asset_importer_rs::imaging::ImageFormat;
use asset_importer_rs::scene::{MaterialProperty, PropertyValue, TextureType};
use asset_importer_rs::textmap::TextMap;

fn chars(s: &str) -> Vec<char> {
    s.chars().collect()
}

fn empty_images() -> EmbeddedImages {
    EmbeddedImages { ids: TextMap::new(), textures: Vec::new() }
}

/// The parameters of the common test effect: `sampler` reads `surface`,
/// which is initialised from `diffuse-image`.
fn textured_params() -> TextMap<ParamTarget> {
    let mut params = TextMap::new();
    params.insert("surface".to_string(), ParamTarget::Surface(Some("diffuse-image".to_string())));
    params.insert("sampler".to_string(), ParamTarget::Sampler("surface".to_string()));
    params
}

fn file_image(id: &str, init_from: &str) -> ImageInfo {
    ImageInfo {
        id: Some(id.to_string()),
        name: None,
        format: None,
        source: ImageSourceInfo::InitFrom(init_from.to_string()),
    }
}

fn sampler(name: &str, uv_channel: &str) -> EffectSampler {
    EffectSampler {
        name: name.to_string(),
        uv_channel: uv_channel.to_string(),
        uv_id: None,
        wrap_u: TextureMapMode::Wrap,
        wrap_v: TextureMapMode::Wrap,
        transform: vec![],
        op: TEX_OP_MULTIPLY,
        weighting: 1.0f32.to_le_bytes().to_vec(),
    }
}

fn prop<'a>(props: &'a [MaterialProperty], key: &str) -> &'a MaterialProperty {
    props.iter().find(|p| p.key == key).expect("property")
}

fn bytes_of(p: &MaterialProperty) -> Vec<u8> {
    match &p.value {
        PropertyValue::Bytes(b) => b.clone(),
        PropertyValue::Byte(b) => vec![*b],
        PropertyValue::Text(t) => t.as_bytes().to_vec(),
    }
}

#[test]
fn diffuse_init_from_sets_path_and_wrap() {
    let mut docs = TextMap::new();
    docs.insert(
        "diffuse-image".to_string(),
        file_image("diffuse-image", "textures/diffuse.png"),
    );
    let mut embedded = empty_images();
    let file = find_filename_for_effect_texture(
        &textured_params(),
        &docs,
        &vec![],
        &"sampler".to_string(),
        &mut embedded,
    )
    .expect("file");
    assert!(embedded.textures.is_empty());
    assert_eq!(file, "textures/diffuse.png");

    // the sampler2D wraps S by CLAMP and T by WRAP
    let mut s = sampler("sampler", "UVSET0");
    s.wrap_u = TextureMapMode::Clamp;
    let mut props = Vec::new();
    add_texture(&mut props, &s, TextureType::Diffuse, 0, &file);
    assert_eq!(bytes_of(prop(&props, "$tex.mapmodeu")), vec![TextureMapMode::Clamp.code()]);
    assert_eq!(bytes_of(prop(&props, "$tex.mapmodev")), vec![TextureMapMode::Wrap.code()]);
    let src = bytes_of(prop(&props, "$tex.uvwsrc"));
    assert_eq!(i32::from_le_bytes([src[0], src[1], src[2], src[3]]), 0);
    assert_eq!(bytes_of(prop(&props, "$tex.file")), b"textures/diffuse.png".to_vec());
}

#[test]
fn cyclic_param_resolution_does_not_loop() {
    let mut params = TextMap::new();
    params.insert("surface".to_string(), ParamTarget::Surface(Some("sampler".to_string())));
    params.insert("sampler".to_string(), ParamTarget::Sampler("surface".to_string()));
    let mut embedded = empty_images();
    let file = find_filename_for_effect_texture(
        &params,
        &TextMap::new(),
        &vec![],
        &"sampler".to_string(),
        &mut embedded,
    )
    .expect("file");
    assert_eq!(file, "sampler.jpg");
}

#[test]
fn unresolved_image_falls_back_to_jpg() {
    let mut embedded = empty_images();
    let file = find_filename_for_effect_texture(
        &textured_params(),
        &TextMap::new(),
        &vec![],
        &"missing".to_string(),
        &mut embedded,
    )
    .expect("file");
    assert_eq!(file, "missing.jpg");
}

/// A 1x1 RGBA PNG (black, opaque).
fn one_pixel_png() -> Vec<u8> {
    let hex = "89504e470d0a1a0a0000000d49484452000000010000000108060000001f15c4890000000a49444154789c63000100000500010d0a2db40000000049454e44ae426082";
    (0..hex.len() / 2)
        .map(|i| u8::from_str_radix(&hex[2 * i..2 * i + 2], 16).unwrap())
        .collect()
}

#[test]
fn embedded_data_image_uses_star_index() {
    let mut docs = TextMap::new();
    docs.insert(
        "diffuse-image".to_string(),
        ImageInfo {
            id: Some("diffuse-image".to_string()),
            name: Some("embedded".to_string()),
            format: Some("PNG".to_string()),
            source: ImageSourceInfo::Data(one_pixel_png()),
        },
    );
    let mut embedded = empty_images();
    let file = find_filename_for_effect_texture(
        &textured_params(),
        &docs,
        &vec![],
        &"sampler".to_string(),
        &mut embedded,
    )
    .expect("file");
    assert_eq!(file, "*0");
    assert_eq!(embedded.textures.len(), 1);
    assert_eq!(embedded.textures[0].filename, "embedded");
    assert_eq!(embedded.textures[0].width, 1);
    assert_eq!(embedded.textures[0].height, 1);
    assert_eq!(embedded.textures[0].format, Some(ImageFormat::Png));
    assert_eq!(embedded.textures[0].rgba.len(), 4);

    // a second reference to the same image is not decoded again
    let again = find_filename_for_effect_texture(
        &textured_params(),
        &docs,
        &vec![],
        &"sampler".to_string(),
        &mut embedded,
    )
    .expect("file");
    assert_eq!(again, "*0");
    assert_eq!(embedded.textures.len(), 1);
}

#[test]
fn undecodable_embedded_image_is_refused() {
    let mut docs = TextMap::new();
    docs.insert(
        "img".to_string(),
        ImageInfo {
            id: Some("img".to_string()),
            name: None,
            format: Some("png".to_string()),
            source: ImageSourceInfo::Data(vec![1, 2, 3]),
        },
    );
    let mut embedded = empty_images();
    match find_filename_for_effect_texture(&TextMap::new(), &docs, &vec![], &"img".to_string(), &mut embedded) {
        Err(TextureFileError::InvalidEmbeddedImage(id)) => assert_eq!(id, "img"),
        other => panic!("unexpected {:?}", other),
    }
}

#[test]
fn image_without_file_reference_is_refused() {
    let local = vec![file_image("img", "  file://  ")];
    let mut embedded = empty_images();
    match find_filename_for_effect_texture(&TextMap::new(), &TextMap::new(), &local, &"img".to_string(), &mut embedded) {
        Err(TextureFileError::NoFileReference(id)) => assert_eq!(id, "img"),
        other => panic!("unexpected {:?}", other),
    }
}

#[test]
fn init_from_paths_are_trimmed_unschemed_and_decoded() {
    assert_eq!(image_file("  file://tex/a%20b.png\n"), Some("tex/a b.png".to_string()));
    assert_eq!(image_file("FILE://x.jpg"), Some("x.jpg".to_string()));
    assert_eq!(image_file("plain.png"), Some("plain.png".to_string()));
    assert_eq!(image_file("   "), None);
    assert_eq!(trim(&chars("\u{3000} a b \t")), chars("a b"));
}

#[test]
fn import_textures_sets_uvwsrc_from_bind_vertex_input() {
    // a set bound to the sampler's channel wins over its digits
    assert_eq!(uv_source(Some(1), &"UVSET0".to_string()), 1);
    assert_eq!(uv_source(None, &"UVSET0".to_string()), 0);
    assert_eq!(uv_source(None, &"CHANNEL12b3".to_string()), 12);
    assert_eq!(uv_source(None, &"no digits".to_string()), 0);
    assert_eq!(uv_source(None, &"set99999999999".to_string()), 0);
}

#[test]
fn extras_set_wrapping_mirroring_and_blending() {
    let mut s = sampler("s", "UV0");
    apply_texture_extra_flag(&mut s, &chars("wrapU"), &chars("0"));
    assert_eq!(s.wrap_u, TextureMapMode::Clamp);
    apply_texture_extra_flag(&mut s, &chars("MIRRORV"), &chars("TRUE"));
    assert_eq!(s.wrap_v, TextureMapMode::Mirror);
    apply_texture_extra_flag(&mut s, &chars("mirroru"), &chars("0"));
    assert_eq!(s.wrap_u, TextureMapMode::Clamp);
    apply_texture_extra_flag(&mut s, &chars("blend_mode"), &chars("add"));
    assert_eq!(s.op, TEX_OP_ADD);
    assert_eq!(blend_op(&chars("Subtract")), TEX_OP_SUBTRACT);
    assert_eq!(blend_op(&chars("other")), TEX_OP_MULTIPLY);
}

#[test]
fn sampler_chain_resolves_to_the_surface_image() {
    let name = resolve_image_name(&textured_params(), &"sampler".to_string());
    assert_eq!(name, "diffuse-image");
}
