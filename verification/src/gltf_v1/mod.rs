//! glTF 1.0: the asset vocabulary, the exporter and the importer.
pub mod asset;
pub mod exporter;
pub mod importer;
pub mod material;
pub mod names;
pub mod texture;
pub mod material_export;
pub mod anim_export;
pub mod node_export;
pub mod node_import;
