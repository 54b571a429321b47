use asset_importer_rs::obj::texture::{ObjTextureError, decode_texture_file};
use std::io::Cursor;

fn png_bytes() -> Vec<u8> {
    let mut img = image::RgbaImage::new(2, 1);
    img.put_pixel(0, 0, image::Rgba([255, 0, 0, 255]));
    img.put_pixel(1, 0, image::Rgba([0, 0, 255, 128]));
    let mut out = Cursor::new(Vec::new());
    img.write_to(&mut out, image::ImageFormat::Png).unwrap();
    out.into_inner()
}

#[test]
fn texture_named_by_extension_is_decoded() {
    let img = decode_texture_file("models/brick.png", &png_bytes()).unwrap();
    assert_eq!((img.width, img.height), (2, 1));
    assert_eq!(img.rgba, vec![255, 0, 0, 255, 0, 0, 255, 128]);
}

#[test]
fn texture_with_unknown_extension_is_recognised_by_its_bytes() {
    let img = decode_texture_file("models/brick.tex", &png_bytes()).unwrap();
    assert_eq!((img.width, img.height), (2, 1));
}

#[test]
fn unrecognised_texture_names_its_extension() {
    match decode_texture_file("models/brick.tex", &vec![1, 2, 3, 4]) {
        Err(ObjTextureError::UnsupportedFileFormat(_, ext)) => assert_eq!(ext, "tex"),
        other => panic!("unexpected {:?}", other.map(|_| ())),
    }
    match decode_texture_file("models/brick", &vec![1, 2, 3, 4]) {
        Err(ObjTextureError::UnsupportedFileFormat(_, ext)) => assert_eq!(ext, ""),
        other => panic!("unexpected {:?}", other.map(|_| ())),
    }
}

#[test]
fn texture_that_does_not_decode_as_named_fails_to_load() {
    assert!(matches!(decode_texture_file("a.png", &vec![1, 2, 3, 4]), Err(ObjTextureError::ImageLoad(_))));
    assert!(matches!(decode_texture_file("a.jpg", &png_bytes()), Err(ObjTextureError::ImageLoad(_))));
}
