use asset_importer_rs::importing::{AiImporterFlags, AiPostProcessSteps, accepts_extension, select_importer};
use asset_importer_rs::obj::material::{TextureRegistry, texture_uri_string};
use asset_importer_rs::scene::{PrimitiveTypes, ShadingMode};
use asset_importer_rs::obj::ObjImporter;
use asset_importer_rs::text::{decimal_chars, parse_usize};
use asset_importer_rs::textmap::TextMap;

#[test]
fn importer_flag_bits() {
    assert_eq!(AiImporterFlags::SupportTextFlavor.bits(), 0x01);
    assert_eq!(AiImporterFlags::Experimental.bits(), 0x10);
    assert_eq!(AiPostProcessSteps::CalcTangentSpaces.bits(), 0x1);
    assert_eq!(AiPostProcessSteps::Triangulate.bits(), 0x8);
    assert_eq!(AiPostProcessSteps::GenBoundingBoxes.bits(), 0x8000_0000);
}

#[test]
fn importer_selection_takes_the_first_that_lists_and_reads() {
    let exts = vec![vec!["obj".to_string()], vec!["gltf".to_string(), "glb".to_string()], vec!["glb".to_string()]];
    assert!(accepts_extension(&exts[1], "glb"));
    assert!(!accepts_extension(&exts[0], "glb"));
    assert_eq!(select_importer(&exts, &vec![true, true, true], "glb"), Some(1));
    assert_eq!(select_importer(&exts, &vec![true, false, true], "glb"), Some(2));
    assert_eq!(select_importer(&exts, &vec![true, true, true], "dae"), None);
}

#[test]
fn text_helpers() {
    let obj = ObjImporter::new();
    assert!(obj.can_read("dir/model.obj", true));
    assert!(!obj.can_read("dir/model.OBJ", true));
    assert!(!obj.can_read("model", true));
    assert!(!obj.can_read(".obj", true));
    assert_eq!(parse_usize(&"+42".chars().collect()), Some(42));
    assert_eq!(parse_usize(&"4a".chars().collect()), None);
    assert_eq!(parse_usize(&"".chars().collect()), None);
    assert_eq!(decimal_chars(1207), "1207".chars().collect::<Vec<char>>());
    assert_eq!(texture_uri_string(12), "*12");
}

#[test]
fn texture_registry_lists_each_file_once() {
    let mut r = TextureRegistry::new();
    assert_eq!(r.register(&"a.png".to_string()), (0, true));
    assert_eq!(r.register(&"b.png".to_string()), (1, true));
    assert_eq!(r.register(&"a.png".to_string()), (0, false));
    assert_eq!(r.lookup(&"b.png".to_string()), Some(1));
    assert_eq!(r.lookup(&"c.png".to_string()), None);
    assert_eq!(r.names(), &vec!["a.png".to_string(), "b.png".to_string()]);
}

#[test]
fn text_map_reads_back_what_was_written() {
    let mut m = TextMap::new();
    m.insert("a".to_string(), 1u32);
    m.insert("b".to_string(), 2u32);
    m.insert("a".to_string(), 3u32);
    assert_eq!(m.get("a"), Some(&3));
    assert_eq!(m.get("b"), Some(&2));
    assert_eq!(m.get("c"), None);
    assert_eq!(m.len(), 2);
}

#[test]
fn scene_codes() {
    let mut t = PrimitiveTypes::empty();
    assert_eq!(t.bits(), 0);
    t.triangle = true;
    t.polygon = true;
    assert_eq!(t.bits(), 12);
    assert_eq!(ShadingMode::Flat.code(), 1);
    assert_eq!(ShadingMode::Phong.code(), 3);
}
