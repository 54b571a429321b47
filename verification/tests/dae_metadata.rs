use asset_importer_rs::dae::metadata::{AssetInfo, ContributorInfo, import_metadata};
use asset_importer_rs::textmap::TextMap;

fn some(s: &str) -> Option<String> {
    Some(s.to_string())
}

fn metadata_str<'a>(metadata: &'a TextMap<String>, key: &str) -> &'a str {
    match metadata.get(key) {
        Some(s) => s,
        None => panic!("expected string metadata for {key}"),
    }
}

#[test]
fn maps_asset_fields_to_ai_metadata_keys() {
    let asset = AssetInfo {
        contributors: vec![
            ContributorInfo {
                author: some("First Author"),
                authoring_tool: some("Tool A"),
                comments: some("First comments"),
                copyright: some("Copyright A"),
                source_data: some("file:///first.blend"),
            },
            ContributorInfo {
                author: some("Second Author"),
                authoring_tool: some("Tool B"),
                comments: some("Second comments"),
                copyright: some("Copyright B"),
                source_data: some("file:///second.blend"),
            },
        ],
        created: "2018-10-25T16:29:03+00:00".to_string(),
        modified: "2018-10-26T00:00:00".to_string(),
        keywords: vec!["alpha".to_string(), "beta".to_string(), "gamma".to_string()],
        revision: some("3"),
        subject: some("Test subject"),
        title: some("Test title"),
    };
    let metadata = import_metadata(&asset);
    assert_eq!(metadata_str(&metadata, "SourceAsset_Generator"), "Tool A");
    assert_eq!(metadata_str(&metadata, "SourceAsset_Copyright"), "Copyright A");
    assert_eq!(metadata_str(&metadata, "Author"), "First Author");
    assert_eq!(metadata_str(&metadata, "Comments"), "First comments");
    assert_eq!(metadata_str(&metadata, "SourceData"), "file:///first.blend");
    assert_eq!(metadata_str(&metadata, "Created"), "2018-10-25T16:29:03+00:00");
    assert_eq!(metadata_str(&metadata, "Modified"), "2018-10-26T00:00:00");
    assert_eq!(metadata_str(&metadata, "Keywords"), "alpha beta gamma");
    assert_eq!(metadata_str(&metadata, "Revision"), "3");
    assert_eq!(metadata_str(&metadata, "Subject"), "Test subject");
    assert_eq!(metadata_str(&metadata, "Title"), "Test title");
    assert!(metadata.get("Unit").is_none());
    assert!(metadata.get("UpAxis").is_none());
}

#[test]
fn skips_empty_optional_fields() {
    let asset = AssetInfo {
        contributors: vec![ContributorInfo {
            author: some(""),
            authoring_tool: some(""),
            comments: some(""),
            copyright: some(""),
            source_data: None,
        }],
        created: "1970-01-01T00:00:00+00:00".to_string(),
        modified: "1970-01-01T00:00:00+00:00".to_string(),
        keywords: vec![],
        revision: some(""),
        subject: some(""),
        title: some(""),
    };
    let metadata = import_metadata(&asset);
    assert_eq!(metadata.len(), 2);
    assert_eq!(metadata_str(&metadata, "Created"), "1970-01-01T00:00:00+00:00");
    assert_eq!(metadata_str(&metadata, "Modified"), "1970-01-01T00:00:00+00:00");
    for key in ["SourceAsset_Generator", "SourceAsset_Copyright", "Author", "Comments", "SourceData", "Keywords", "Revision", "Subject", "Title"] {
        assert!(metadata.get(key).is_none());
    }
}
