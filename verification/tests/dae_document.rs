use asset_importer_rs::dae::document::{
    ColladaDoc, DaeReadError, MaterialEntry, RootNode, SceneHead, import_collada, read_collada,
};
use asset_importer_rs::dae::importer::DaeImporter;
use asset_importer_rs::dae::metadata::AssetInfo;
use asset_importer_rs::textmap::TextMap;

fn metadata_str<'a>(metadata: &'a TextMap<String>, key: &str) -> &'a str {
    match metadata.get(key) {
        Some(s) => s,
        None => panic!("expected string metadata for {key}"),
    }
}

fn some(s: &str) -> Option<String> {
    Some(s.to_string())
}

fn empty_asset() -> AssetInfo {
    AssetInfo {
        contributors: vec![],
        created: "c".to_string(),
        modified: "m".to_string(),
        keywords: vec![],
        revision: None,
        subject: None,
        title: None,
    }
}

fn root(name: Option<String>, id: Option<String>) -> RootNode {
    RootNode { name, id, sid: None }
}

fn material(name: Option<String>, id: Option<String>, url: &str, found: bool) -> MaterialEntry {
    MaterialEntry { name, id, effect_url: url.to_string(), effect_found: found }
}

#[test]
fn test_dae_import_empty_visual_scene_missing_root() {
    let importer = DaeImporter::new();
    let xml = r##"<?xml version="1.0"?>
<COLLADA xmlns="http://www.collada.org/2005/11/COLLADASchema" version="1.4.1">
  <asset>
    <created>1970-01-01T00:00:00Z</created>
    <modified>1970-01-01T00:00:00Z</modified>
  </asset>
  <library_visual_scenes>
    <visual_scene id="Empty"/>
  </library_visual_scenes>
  <scene>
    <instance_visual_scene url="#Empty"/>
  </scene>
</COLLADA>"##;
    let result = read_collada(xml, &importer);
    assert!(matches!(result, Err(DaeReadError::MissingRootNode)));
}

#[test]
fn test_dae_import_asset_metadata_fields() {
    let importer = DaeImporter::new();
    let xml = r##"<?xml version="1.0"?>
<COLLADA xmlns="http://www.collada.org/2005/11/COLLADASchema" version="1.4.1">
  <asset>
    <contributor>
      <author>First Author</author>
      <authoring_tool>Tool A</authoring_tool>
      <comments>First comments</comments>
      <copyright>Copyright A</copyright>
      <source_data>file:///first.blend</source_data>
    </contributor>
    <contributor>
      <author>Second Author</author>
      <authoring_tool>Tool B</authoring_tool>
      <comments>Second comments</comments>
      <copyright>Copyright B</copyright>
      <source_data>file:///second.blend</source_data>
    </contributor>
    <created>2018-10-25T16:29:03Z</created>
    <keywords>alpha beta gamma</keywords>
    <modified>2018-10-26T00:00:00</modified>
    <revision>3</revision>
    <subject>Test subject</subject>
    <title>Test title</title>
  </asset>
  <library_visual_scenes>
    <visual_scene id="Scene">
      <node id="Root"/>
    </visual_scene>
  </library_visual_scenes>
  <scene>
    <instance_visual_scene url="#Scene"/>
  </scene>
</COLLADA>"##;
    let scene = match read_collada(xml, &importer) {
        Ok(s) => s,
        Err(_) => panic!("import"),
    };
    assert_eq!(metadata_str(&scene.metadata, "SourceAsset_Generator"), "Tool A");
    assert_eq!(metadata_str(&scene.metadata, "SourceAsset_Copyright"), "Copyright A");
    assert_eq!(metadata_str(&scene.metadata, "Author"), "First Author");
    assert_eq!(metadata_str(&scene.metadata, "Comments"), "First comments");
    assert_eq!(metadata_str(&scene.metadata, "SourceData"), "file:///first.blend");
    assert_eq!(metadata_str(&scene.metadata, "Created"), "2018-10-25T16:29:03+00:00");
    assert_eq!(metadata_str(&scene.metadata, "Modified"), "2018-10-26T00:00:00");
    assert_eq!(metadata_str(&scene.metadata, "Keywords"), "alpha beta gamma");
    assert_eq!(metadata_str(&scene.metadata, "Revision"), "3");
    assert_eq!(metadata_str(&scene.metadata, "Subject"), "Test subject");
    assert_eq!(metadata_str(&scene.metadata, "Title"), "Test title");
    assert_eq!(scene.name, "Scene");
    assert_eq!(scene.root_name, "Root");
    assert!(scene.materials.is_empty());
}

#[test]
fn text_that_is_no_collada_is_a_format_error() {
    let importer = DaeImporter::new();
    assert!(matches!(read_collada("not xml at all <", &importer), Err(DaeReadError::FileFormatError)));
}

#[test]
fn document_without_visual_scene_is_refused() {
    let importer = DaeImporter::new();
    let xml = r##"<?xml version="1.0"?>
<COLLADA xmlns="http://www.collada.org/2005/11/COLLADASchema" version="1.4.1">
  <asset>
    <created>1970-01-01T00:00:00Z</created>
    <modified>1970-01-01T00:00:00Z</modified>
  </asset>
</COLLADA>"##;
    assert!(matches!(read_collada(xml, &importer), Err(DaeReadError::MissingVisualScene)));
    let doc = ColladaDoc { visual_scene: None, materials: Some(vec![]), asset: empty_asset() };
    assert!(matches!(import_collada(&doc, &importer), Err(DaeReadError::MissingVisualScene)));
}

#[test]
fn scene_names_materials_and_root_come_from_the_document() {
    let importer = DaeImporter::new();
    let doc = ColladaDoc {
        visual_scene: Some(SceneHead { name: None, id: some("vs"), roots: vec![root(None, some("a")), root(None, None)] }),
        materials: Some(vec![
            vec![material(some("Blue"), some("m0"), "#e0", true), material(None, some("m1"), "#e1", true)],
            vec![material(None, None, "#e2", true)],
        ]),
        asset: empty_asset(),
    };
    let scene = match import_collada(&doc, &importer) {
        Ok(s) => s,
        Err(_) => panic!("import"),
    };
    assert_eq!(scene.name, "vs");
    assert_eq!(scene.materials, vec!["Blue".to_string(), "m1".to_string(), "0".to_string()]);
    assert_eq!(scene.root_name, "vs");
    assert_eq!(metadata_str(&scene.metadata, "Created"), "c");

    let one_root = ColladaDoc {
        visual_scene: Some(SceneHead { name: some("S"), id: None, roots: vec![root(None, None)] }),
        materials: Some(vec![]),
        asset: empty_asset(),
    };
    let scene = match import_collada(&one_root, &importer) {
        Ok(s) => s,
        Err(_) => panic!("import"),
    };
    assert_eq!(scene.root_name, "$ColladaAutoName$_0");

    let no_name = ColladaDoc {
        visual_scene: Some(SceneHead { name: None, id: None, roots: vec![root(None, None), root(None, None)] }),
        materials: Some(vec![]),
        asset: empty_asset(),
    };
    let scene = match import_collada(&no_name, &importer) {
        Ok(s) => s,
        Err(_) => panic!("import"),
    };
    assert_eq!(scene.name, "");
    assert_eq!(scene.root_name, "ROOT");
}

#[test]
fn missing_effect_and_unmapped_effects_are_errors() {
    let importer = DaeImporter::new();
    let head = || Some(SceneHead { name: None, id: None, roots: vec![root(some("r"), None)] });
    let doc = ColladaDoc {
        visual_scene: head(),
        materials: Some(vec![vec![material(some("a"), None, "#ok", true), material(some("b"), None, "#gone", false)]]),
        asset: empty_asset(),
    };
    match import_collada(&doc, &importer) {
        Err(DaeReadError::MissingLocalMapEntry(url)) => assert_eq!(url, "#gone"),
        _ => panic!("expected a missing entry"),
    }
    let doc = ColladaDoc { visual_scene: head(), materials: None, asset: empty_asset() };
    assert!(matches!(import_collada(&doc, &importer), Err(DaeReadError::FileFormatError)));
}

#[test]
fn collada_material_resolves_its_effect() {
    let importer = DaeImporter::new();
    let xml = r##"<?xml version="1.0"?>
<COLLADA xmlns="http://www.collada.org/2005/11/COLLADASchema" version="1.4.1">
  <asset>
    <created>1970-01-01T00:00:00Z</created>
    <modified>1970-01-01T00:00:00Z</modified>
  </asset>
  <library_effects>
    <effect id="fx"><profile_COMMON><technique sid="t"><lambert/></technique></profile_COMMON></effect>
  </library_effects>
  <library_materials>
    <material id="mat" name="Blue"><instance_effect url="#fx"/></material>
    <material id="bad"><instance_effect url="#nothing"/></material>
  </library_materials>
  <library_visual_scenes>
    <visual_scene id="Scene" name="reportScene">
      <node id="Root"/>
    </visual_scene>
  </library_visual_scenes>
  <scene>
    <instance_visual_scene url="#Scene"/>
  </scene>
</COLLADA>"##;
    match read_collada(xml, &importer) {
        Err(DaeReadError::MissingLocalMapEntry(url)) => assert_eq!(url, "#nothing"),
        _ => panic!("expected a missing entry"),
    }
    let fixed = xml.replace("#nothing", "#fx");
    let scene = match read_collada(&fixed, &importer) {
        Ok(s) => s,
        Err(_) => panic!("import"),
    };
    assert_eq!(scene.name, "reportScene");
    assert_eq!(scene.materials, vec!["Blue".to_string(), "bad".to_string()]);
}
