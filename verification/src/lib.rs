//! Importing and exporting 3D scenes: Wavefront OBJ and Collada
//! importers, and glTF 1.0 and 2.0 importers and exporters, over a common
//! scene vocabulary (materials and their properties, meshes, nodes). The
//! decisions each format makes (which values a file yields, how names are
//! made unique, how hierarchies are walked, how data is laid out) are
//! stated as contracts and proved.
use vstd::prelude::*;

pub mod text;
pub mod scene;
pub mod imaging;
pub mod textmap;
pub mod obj;
pub mod importing;
pub mod dae;
pub mod gltf_v1;
pub mod gltf2;

verus! {

} // verus!
