//! The glTF 1.0 importer's entry points.
use vstd::prelude::*;

use crate::text::{path_extension, path_extension_spec};

verus! {

/// The glTF 1.0 importer.
#[derive(Debug)]
pub struct GltfImporter;

impl GltfImporter {
    /// A new glTF 1.0 importer.
    pub fn new() -> (r: GltfImporter)
        ensures
            r == GltfImporter,
    {
        GltfImporter
    }

    /// Whether this importer takes the file at `path`: its extension is
    /// `gltf` or `glb`, and the document read from it parses (`parses`).
    pub fn can_read(&self, path: &str, parses: bool) -> (b: bool)
        ensures
            b == ((path_extension_spec(path@) == Some(seq!['g', 'l', 't', 'f'])
                || path_extension_spec(path@) == Some(seq!['g', 'l', 'b'])) && parses),
    {
        match path_extension(path) {
            None => false,
            Some(e) => {
                proof {
                    reveal_strlit("gltf");
                    reveal_strlit("glb");
                }
                let gltf = String::from_str("gltf");
                let glb = String::from_str("glb");
                assert(gltf@ =~= seq!['g', 'l', 't', 'f']);
                assert(glb@ =~= seq!['g', 'l', 'b']);
                (e == gltf || e == glb) && parses
            },
        }
    }

    /// The file extensions this importer lists.
    pub fn extensions(&self) -> (v: Vec<String>)
        ensures
            v.len() == 2,
            v@[0]@ == seq!['g', 'l', 't', 'f'],
            v@[1]@ == seq!['g', 'l', 'b'],
    {
        proof {
            reveal_strlit("gltf");
            reveal_strlit("glb");
        }
        let mut v = Vec::new();
        v.push(String::from_str("gltf"));
        v.push(String::from_str("glb"));
        v
    }
}

} // verus!
