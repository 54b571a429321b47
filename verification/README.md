# asset_importer_rs

A library for importing and exporting 3D scenes: a Wavefront OBJ importer,
a Collada importer, and glTF 1.0 and 2.0 importers and exporters, all over
one scene vocabulary (material properties, meshes, nodes, animations).

The library under `src/` is written in Verus: every function carries a
contract (`requires` / `ensures`) over mathematical models of its values,
and Verus proves the code against it. Properties that relate several
functions (a unique name is never one of the names recorded before it,
combining animations keeps every channel, merging the meshes of a node
joins their primitives in order, ...) are stated as proof functions beside
the code they are about.

Layout:

- `src/text.rs`, `src/textmap.rs`, `src/scene.rs`, `src/imaging.rs`,
  `src/importing.rs`: characters and strings, an ordered text-keyed map, the
  scene vocabulary, image decoding, and choosing an importer for a file.
- `src/obj/`: OBJ meshes, materials and the textures they name.
- `src/dae/`: Collada documents (parsing the text, then the scene's name,
  materials, root node and metadata), meshes, instances, nodes, effects
  (their texture slots) and textures, animations and metadata.
- `src/gltf_v1/`: the glTF 1.0 vocabulary, exporter (output files and
  buffers, materials, nodes, animations) and importer (materials,
  textures, nodes).
- `src/gltf2/`: glTF 2.0 image sources, node hierarchies and skins, and
  the exporter's materials (textures, factors, extensions), meshes
  (accessors over the body buffer, primitives, merging per node), nodes
  and animations.
- `app/`: the import side in plain Rust: reading files, parsing OBJ and
  glTF documents with `tobj` and `gltf` (and Collada geometry with
  `dae-parser`), handing their content to the
  library as plain values, converting floating-point image and skin data,
  and the error types with their messages. The exporters' floating-point
  work (accessor bytes and bounds of float data, colours and factors) is
  the caller's: the library takes such data as bytes, and it has no
  writer of documents.
- `tests/`: tests of the library on concrete values.

Calls into other crates (`image`, `base64`, `urlencoding`, `dae-parser`) and the few
`std` functions without a specification in vstd go through small wrappers
marked `#[verifier::external_body]`; their doc comments say what their
contracts claim of the called function.
