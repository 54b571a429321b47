use asset_importer_rs::gltf_v1::node_export::{NodeInput, export_nodes, visit_nodes};

fn node(name: &str, is_identity: bool, mesh_indexes: Vec<usize>, children: Vec<usize>) -> NodeInput {
    NodeInput { name: name.to_string(), is_identity, mesh_indexes, children }
}

#[test]
fn test_export_empty_scene() {
    let result = export_nodes(&vec![], None, &vec![]);
    assert!(result.mesh_names.iter().all(|m| m.is_none()));
    assert_eq!(result.nodes.len(), 0);
}

#[test]
fn test_export_single_node() {
    let result = export_nodes(&vec![node("test_node", true, vec![], vec![])], Some(0), &vec![]);
    assert!(result.mesh_names.iter().all(|m| m.is_none()));
    assert_eq!(result.nodes.len(), 1);
    assert!(result.nodes.get("test_node").is_some());
}

#[test]
fn test_export_node_with_mesh() {
    let result = export_nodes(&vec![node("test_node", true, vec![0], vec![])], Some(0), &vec!["test_mesh".to_string()]);
    assert_eq!(result.mesh_names.iter().filter(|m| m.is_some()).count(), 1);
    assert!(result.mesh_names[0].is_some());
    assert_eq!(result.nodes.len(), 1);
    let exported_node = result.nodes.get("test_node").unwrap();
    assert_eq!(exported_node.meshes.len(), 1);
}

#[test]
fn test_export_node_hierarchy() {
    let nodes = vec![node("parent", true, vec![], vec![1]), node("child", true, vec![], vec![])];
    let result = export_nodes(&nodes, Some(0), &vec![]);
    assert_eq!(result.nodes.len(), 2);
    let parent = result.nodes.get("parent").unwrap();
    assert_eq!(parent.children.len(), 1);
    assert_eq!(parent.children[0].to_string(), "child");
}

#[test]
fn test_export_node_with_transformation() {
    let mut matrix = [1.0f32, 0.0, 0.0, 0.0, 0.0, 1.0, 0.0, 0.0, 0.0, 0.0, 1.0, 0.0, 0.0, 0.0, 0.0, 1.0];
    matrix[3] = 1.0;
    matrix[7] = 2.0;
    matrix[11] = 3.0;
    let is_identity = matrix == [1.0f32, 0.0, 0.0, 0.0, 0.0, 1.0, 0.0, 0.0, 0.0, 0.0, 1.0, 0.0, 0.0, 0.0, 0.0, 1.0];
    let result = export_nodes(&vec![node("test_node", is_identity, vec![], vec![])], Some(0), &vec![]);
    assert_eq!(result.nodes.len(), 1);
    let exported_node = result.nodes.get("test_node").unwrap();
    assert!(exported_node.has_matrix);
    let exported = [matrix][exported_node.source];
    assert_eq!(exported[3], 1.0);
    assert_eq!(exported[7], 2.0);
    assert_eq!(exported[11], 3.0);
}

#[test]
fn test_export_duplicate_names() {
    let nodes = vec![node("duplicate", true, vec![], vec![1]), node("duplicate", true, vec![], vec![])];
    let result = export_nodes(&nodes, Some(0), &vec![]);
    assert_eq!(result.nodes.len(), 2);
    let names = [result.nodes.key_at(0).clone(), result.nodes.key_at(1).clone()];
    assert_ne!(names[0], names[1]);
    assert!(names[0].starts_with("duplicate"));
    assert!(names[1].starts_with("duplicate"));
}

#[test]
fn nodes_are_visited_once_breadth_first() {
    // 0 -> [1, 2], 1 -> [2, 0], 2 -> []
    let order = visit_nodes(&vec![vec![1, 2], vec![2, 0], vec![]], 0);
    assert_eq!(order, vec![(0, None), (1, Some(0)), (2, Some(0))]);
}

#[test]
fn unnamed_nodes_and_meshes_get_default_names() {
    let nodes = vec![node("", false, vec![0, 1], vec![])];
    let result = export_nodes(&nodes, None, &vec!["".to_string(), "".to_string()]);
    let n = result.nodes.get("node").unwrap();
    assert_eq!(n.meshes, vec!["mesh".to_string(), "mesh_0".to_string()]);
    assert_eq!(result.mesh_names, vec![Some("mesh".to_string()), Some("mesh_0".to_string())]);
    assert!(n.has_matrix);
}

use asset_importer_rs::gltf_v1::node_import::{NodeInfo, import_node};
use asset_importer_rs::textmap::TextMap;

fn info(name: Option<&str>, meshes: Vec<&str>, camera: Option<&str>, children: Vec<usize>) -> NodeInfo {
    NodeInfo {
        name: name.map(|n| n.to_string()),
        meshes: meshes.into_iter().map(|m| m.to_string()).collect(),
        camera: camera.map(|c| c.to_string()),
        light: None,
        children,
    }
}

#[test]
fn imported_hierarchy_names_links_and_meshes() {
    let nodes = vec![
        info(Some("root"), vec![], None, vec![1, 2]),
        info(None, vec!["m1", "missing", "m0"], Some("cam"), vec![]),
        info(Some("leaf"), vec![], Some("cam"), vec![]),
    ];
    let mut spans: TextMap<(u32, u32)> = TextMap::new();
    spans.insert("m0".to_string(), (0, 2));
    spans.insert("m1".to_string(), (5, 1));
    let mut cameras: TextMap<usize> = TextMap::new();
    cameras.insert("cam".to_string(), 0);
    let lights: TextMap<usize> = TextMap::new();
    let mut camera_names = vec!["cam".to_string()];
    let mut light_names: Vec<String> = vec![];
    let arena = import_node(&nodes, 0, &spans, &cameras, &mut camera_names, &lights, &mut light_names);
    assert_eq!(arena.len(), 3);
    assert_eq!(arena[0].name, "root");
    assert_eq!(arena[0].parent, None);
    assert_eq!(arena[0].children, vec![1, 2]);
    assert_eq!(arena[1].name, "1");
    assert_eq!(arena[1].parent, Some(0));
    assert_eq!(arena[1].mesh_indexes, vec![5, 0, 1]);
    assert_eq!(arena[2].name, "leaf");
    assert!(arena[2].children.is_empty());
    // both nodes name the camera; the later one wins
    assert_eq!(camera_names, vec!["leaf".to_string()]);
}

#[test]
fn nodes_not_reached_from_the_root_are_not_read() {
    let nodes = vec![
        node("root", true, vec![0], vec![]),
        node("stray", true, vec![7], vec![42]),
    ];
    let result = export_nodes(&nodes, Some(0), &vec!["only".to_string()]);
    assert_eq!(result.nodes.len(), 1);
    assert!(result.nodes.get("root").is_some());
    assert_eq!(result.mesh_names, vec![Some("only".to_string())]);
    assert_eq!(visit_nodes(&vec![vec![], vec![9]], 0), vec![(0, None)]);
}
