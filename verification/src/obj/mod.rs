//! The Wavefront OBJ importer.
use vstd::prelude::*;

use crate::text::{path_extension, path_extension_spec};

pub mod material;
pub mod mesh;
pub mod texture;

verus! {

/// The Wavefront OBJ importer.
#[derive(Debug)]
pub struct ObjImporter;

impl ObjImporter {
    /// A new OBJ importer.
    pub fn new() -> (r: ObjImporter)
        ensures
            r == ObjImporter,
    {
        ObjImporter
    }

    /// Whether this importer takes the file at `path`: its extension is
    /// `obj` and its first lines could be read (`readable`).
    pub fn can_read(&self, path: &str, readable: bool) -> (b: bool)
        ensures
            b == (path_extension_spec(path@) == Some(seq!['o', 'b', 'j']) && readable),
    {
        match path_extension(path) {
            None => false,
            Some(e) => {
                proof { reveal_strlit("obj"); }
                let obj = String::from_str("obj");
                assert(obj@ =~= seq!['o', 'b', 'j']);
                e == obj && readable
            },
        }
    }

    /// The file extensions this importer lists.
    pub fn extensions(&self) -> (v: Vec<String>)
        ensures
            v.len() == 1,
            v@[0]@ == seq!['o', 'b', 'j'],
    {
        let mut v = Vec::new();
        proof { reveal_strlit("obj"); }
        v.push(String::from_str("obj"));
        v
    }
}

} // verus!
