//! The Collada (`.dae`) importer.
pub mod animation;
pub mod importer;
pub mod instance;
pub mod mesh;
pub mod node;
pub mod texture;
pub mod anim_combine;
pub mod metadata;
pub mod document;
pub mod effect;
