use asset_importer_rs::gltf2::image_source::{
    ImageRequest, ImageSource, ImageSourceError, PixelFormat, embedded_texture_info, finish_file_image,
    plan_image_source, try_plan_image_source,
    split_data_uri,
};
use asset_importer_rs::gltf2::mesh_error::MeshError;
use asset_importer_rs::gltf2::skin::{
    BoneInfo, SkinJoints, collect_vertex_joints, layout_joint_groups, max_joints_per_vertex,
    num_groups,
};
use asset_importer_rs::imaging::ImageFormat;

fn plan_image_source_at(source: &ImageSource, has_base: bool) -> Result<ImageRequest, ImageSourceError> {
    let base = if has_base { Some("models".to_string()) } else { None };
    plan_image_source(source, &base)
}

fn one_pixel_png() -> Vec<u8> {
    let hex = "89504e470d0a1a0a0000000d49484452000000010000000108060000001f15c4890000000a49444154789c63000100000500010d0a2db40000000049454e44ae426082";
    (0..hex.len() / 2)
        .map(|i| u8::from_str_radix(&hex[2 * i..2 * i + 2], 16).unwrap())
        .collect()
}

fn base64_of(bytes: &[u8]) -> String {
    const ALPHABET: &[u8] = b"ABCDEFGHIJKLMNOPQRSTUVWXYZabcdefghijklmnopqrstuvwxyz0123456789+/";
    let mut out = String::new();
    for chunk in bytes.chunks(3) {
        let b = [chunk[0], *chunk.get(1).unwrap_or(&0), *chunk.get(2).unwrap_or(&0)];
        let n = ((b[0] as u32) << 16) | ((b[1] as u32) << 8) | b[2] as u32;
        for i in 0..4 {
            if i <= chunk.len() {
                out.push(ALPHABET[((n >> (18 - 6 * i)) & 63) as usize] as char);
            } else {
                out.push('=');
            }
        }
    }
    out
}

fn uri(u: &str, mime: Option<&str>) -> ImageSource {
    ImageSource::Uri { uri: u.to_string(), mime_type: mime.map(|m| m.to_string()) }
}

#[test]
fn mesh_error_messages() {
    assert_eq!(MeshError::ExceedsBounds.message(), "Bounds Check Failed");
    assert_eq!(MeshError::InvalidStride.message(), "Stride is Less than Element Size");
    assert_eq!(MeshError::SizeExceedsTarget.message(), "Size provided exceeds Target");
    assert_eq!(MeshError::MissingBufferData.message(), "Missing Buffer Data");
    assert_eq!(MeshError::BrokenSparseDataAccess.message(), "Sparse Data Missing despite being expected");
    assert_eq!(MeshError::AttributeNotFound.message(), "Expected Primitive Attribute Not Found");
}

#[test]
fn data_uri_splits_mime_and_payload() {
    let chars = |s: &str| s.chars().collect::<Vec<char>>();
    let (m, p) = split_data_uri(&chars("image/png;base64,AAAA"));
    assert_eq!(m, Some(chars("image/png")));
    assert_eq!(p, chars("AAAA"));
    let (m, p) = split_data_uri(&chars("QUJD"));
    assert_eq!(m, None);
    assert_eq!(p, chars("QUJD"));
    let (m, p) = split_data_uri(&chars("a;base64,b;base64,c"));
    assert_eq!(m, Some(chars("a")));
    assert_eq!(p, chars("b"));
}

#[test]
fn embedded_png_data_uri_is_decoded() {
    let u = format!("data:image/png;base64,{}", base64_of(&one_pixel_png()));
    match plan_image_source_at(&uri(&u, None), false) {
        Ok(ImageRequest::Ready(d)) => {
            assert_eq!(d.width, 1);
            assert_eq!(d.height, 1);
            assert_eq!(d.format, PixelFormat::R8G8B8A8);
            assert_eq!(d.pixels.len(), 4);
        }
        other => panic!("unexpected {:?}", other),
    }
}

#[test]
fn data_uri_errors() {
    assert_eq!(
        plan_image_source_at(&uri("data:image/png;base64,@@@", None), true).unwrap_err(),
        ImageSourceError::Base64
    );
    let u = format!("data:image/gif;base64,{}", base64_of(&one_pixel_png()));
    assert_eq!(
        plan_image_source_at(&uri(&u, None), true).unwrap_err(),
        ImageSourceError::UnsupportedImageEncoding
    );
    let u = format!("data:image/jpeg;base64,{}", base64_of(&one_pixel_png()));
    assert_eq!(plan_image_source_at(&uri(&u, None), true).unwrap_err(), ImageSourceError::Image);
}

#[test]
fn file_and_relative_uris_ask_for_a_file() {
    match plan_image_source_at(&uri("file:///tmp/a.png", None), true) {
        Ok(ImageRequest::AbsoluteFile { path, format }) => {
            assert_eq!(path, "/tmp/a.png");
            assert_eq!(format, Some(ImageFormat::Png));
        }
        other => panic!("unexpected {:?}", other),
    }
    match plan_image_source_at(&uri("file:b.jpeg", None), true) {
        Ok(ImageRequest::AbsoluteFile { path, format }) => {
            assert_eq!(path, "b.jpeg");
            assert_eq!(format, Some(ImageFormat::Jpeg));
        }
        other => panic!("unexpected {:?}", other),
    }
    match plan_image_source_at(&uri("tex/c%20d.bin", Some("image/jpeg")), true) {
        Ok(ImageRequest::RelativeFile { path, format }) => {
            assert_eq!(std::path::Path::new(&path), std::path::Path::new("models").join("tex/c d.bin"));
            assert_eq!(format, Some(ImageFormat::Jpeg));
        }
        other => panic!("unexpected {:?}", other),
    }
    match plan_image_source_at(&uri("tex/c.tga", None), true) {
        Ok(ImageRequest::RelativeFile { format, .. }) => assert_eq!(format, None),
        other => panic!("unexpected {:?}", other),
    }
    assert_eq!(
        plan_image_source_at(&uri("tex/c.png", None), false).unwrap_err(),
        ImageSourceError::ExternalReferenceInSliceImport
    );
    assert_eq!(
        plan_image_source_at(&uri("file:c.png", None), false).unwrap_err(),
        ImageSourceError::ExternalReferenceInSliceImport
    );
    assert_eq!(
        plan_image_source_at(&uri("http://x/c.png", None), true).unwrap_err(),
        ImageSourceError::UnsupportedScheme
    );
    assert_eq!(
        finish_file_image(&one_pixel_png(), None).unwrap_err(),
        ImageSourceError::UnsupportedImageEncoding
    );
    assert_eq!(finish_file_image(&one_pixel_png(), Some(ImageFormat::Png)).unwrap().width, 1);
}

#[test]
fn buffer_view_images_need_a_known_mime_type() {
    let view = ImageSource::View { bytes: one_pixel_png(), mime_type: "image/png".to_string() };
    assert!(matches!(plan_image_source_at(&view, false), Ok(ImageRequest::Ready(_))));
    let view = ImageSource::View { bytes: one_pixel_png(), mime_type: "image/webp".to_string() };
    assert_eq!(
        plan_image_source_at(&view, false).unwrap_err(),
        ImageSourceError::UnsupportedImageEncoding
    );
}

#[test]
fn skin_joints_are_shared_and_weights_grouped_by_four() {
    let mut skin: SkinJoints<u8> = SkinJoints { joints: vec![7], inverse_bind_matrices: vec![70] };
    let bones = vec![
        BoneInfo { node_index: 3, node_exists: true, offset_matrix: 30u8, weights: vec![(0, 0.5f32), (1, 1.0)] },
        BoneInfo { node_index: 9, node_exists: false, offset_matrix: 90u8, weights: vec![(0, 0.25f32)] },
        BoneInfo { node_index: 7, node_exists: true, offset_matrix: 71u8, weights: vec![(0, 0.5f32)] },
    ];
    let pairs = collect_vertex_joints(&bones, 2, &mut skin);
    assert_eq!(skin.joints, vec![7, 3]);
    assert_eq!(skin.inverse_bind_matrices, vec![70, 30]);
    assert_eq!(pairs, vec![vec![(1, 0.5f32), (0, 0.5)], vec![(1, 1.0)]]);
    assert_eq!(max_joints_per_vertex(&pairs), 2);
    assert_eq!(num_groups(2, false), 1);
    assert_eq!(num_groups(5, false), 2);
    assert_eq!(num_groups(9, true), 1);
    let (joints, weights) = layout_joint_groups(&pairs, 2, 0.0f32);
    assert_eq!(joints, vec![[1, 0, 0, 0], [1, 0, 0, 0], [0, 0, 0, 0], [0, 0, 0, 0]]);
    assert_eq!(weights[0], [0.5, 0.5, 0.0, 0.0]);
    assert_eq!(weights[1], [1.0, 0.0, 0.0, 0.0]);
}

#[test]
fn embedded_textures_are_named_by_uri_stem_or_index() {
    let uri = ImageSource::Uri { uri: "textures/wood.diffuse.png".to_string(), mime_type: Some("image/png".to_string()) };
    assert_eq!(embedded_texture_info(&uri, 3), ("textures/wood".to_string(), Some(ImageFormat::Png)));
    let plain = ImageSource::Uri { uri: "noext".to_string(), mime_type: None };
    assert_eq!(embedded_texture_info(&plain, 0), ("noext".to_string(), None));
    let view = ImageSource::View { bytes: vec![], mime_type: "image/webp".to_string() };
    assert_eq!(embedded_texture_info(&view, 12), ("12".to_string(), Some(ImageFormat::WebP)));
    let bmp = ImageSource::View { bytes: vec![], mime_type: "image/bmp".to_string() };
    assert_eq!(embedded_texture_info(&bmp, 1), ("1".to_string(), None));
}

#[test]
fn relative_uri_that_does_not_decode_is_refused_before_planning() {
    let bad = ImageSource::Uri { uri: "tex/%ff.png".to_string(), mime_type: None };
    assert!(try_plan_image_source(&bad, &Some("models".to_string())).is_none());
    let good = ImageSource::Uri { uri: "tex/%41.png".to_string(), mime_type: None };
    match try_plan_image_source(&good, &Some("models".to_string())) {
        Some(Ok(ImageRequest::RelativeFile { path, format })) => {
            assert_eq!(std::path::Path::new(&path), std::path::Path::new("models/tex/A.png"));
            assert_eq!(format, Some(ImageFormat::Png));
        }
        other => panic!("unexpected {:?}", other),
    }
    let scheme = ImageSource::Uri { uri: "http://x/%ff.png".to_string(), mime_type: None };
    assert!(matches!(try_plan_image_source(&scheme, &None), Some(Err(ImageSourceError::UnsupportedScheme))));
}
