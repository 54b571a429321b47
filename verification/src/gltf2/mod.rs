//! glTF 2.0: reading images and node hierarchies (with their skins) from
//! documents, and exporting materials, meshes, nodes and animations.
pub mod image_source;
pub mod mesh_error;
pub mod skin;
pub mod node_import;
pub mod material_export;
pub mod mesh_export;
pub mod mesh_document;
pub mod animation_export;
pub mod node_export;
