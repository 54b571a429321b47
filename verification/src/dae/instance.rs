//! Collada mesh instances: the meshes a node places, split by material.
use vstd::prelude::*;

use crate::dae::mesh::{
    InputType, Mesh, MeshLibrary, dae_primitive_types, input_type_of, number_faces,
    numbered_faces, sub_counts, subs_view,
};
use crate::scene::{PrimitiveTypes, faces_view, prefix_total, lemma_prefix_total_mono};
use crate::textmap::TextMap;
use crate::dae::importer::DaeImporter;

verus! {

/// Short vertex-input description for effect to mesh semantic mapping.
#[derive(Clone, Copy, Debug, PartialEq, Eq, Structural)]
pub struct InputSemanticMapEntry {
    pub set: u32,
    pub type_: InputType,
}

/// A `<bind_vertex_input>` of an instanced material.
pub struct BindVertexInput {
    pub semantic: String,
    pub input_semantic: String,
    pub input_set: Option<u32>,
}

/// An `<instance_material>`: the symbol it binds, the material it names
/// (as the key of its URL) and its vertex-input bindings.
pub struct InstanceMaterialInfo {
    pub symbol: String,
    pub target: String,
    pub bind_vertex_input: Vec<BindVertexInput>,
}

/// Table to map from effect to vertex input semantics.
pub struct SemanticMappingTable {
    pub mat_name: String,
    pub map: TextMap<InputSemanticMapEntry>,
}

/// The mapping entry of a binding.
pub open spec fn bind_entry(b: BindVertexInput) -> InputSemanticMapEntry {
    InputSemanticMapEntry {
        set: match b.input_set { Some(s) => s, None => 0 },
        type_: input_type_of(b.input_semantic@),
    }
}

/// The mapping of a list of bindings, a later binding of a semantic
/// replacing an earlier one.
pub open spec fn binds_map(bs: Seq<BindVertexInput>) -> Map<Seq<char>, InputSemanticMapEntry>
    decreases bs.len(),
{
    if bs.len() == 0 {
        Map::empty()
    } else {
        binds_map(bs.drop_last()).insert(bs.last().semantic@, bind_entry(bs.last()))
    }
}

impl SemanticMappingTable {
    /// The table of an instanced material.
    pub fn from_instance_material(m: &InstanceMaterialInfo) -> (t: SemanticMappingTable)
        ensures
            t.mat_name@ == m.target@,
            t.map.wf(),
            t.map.as_map() == binds_map(m.bind_vertex_input@),
    {
        let mut map: TextMap<InputSemanticMapEntry> = TextMap::new();
        let ghost bs = m.bind_vertex_input@;
        let mut i: usize = 0;
        while i < m.bind_vertex_input.len()
            invariant
                bs == m.bind_vertex_input@,
                i <= bs.len(),
                map.wf(),
                map.as_map() == binds_map(bs.take(i as int)),
            decreases bs.len() - i,
        {
            let b = &m.bind_vertex_input[i];
            assert(bs.take(i + 1).drop_last() =~= bs.take(i as int));
            let set: u32 = match b.input_set {
                Some(s) => s,
                None => 0,
            };
            let entry = InputSemanticMapEntry { set, type_: InputType::from_semantic_str(b.input_semantic.as_str()) };
            map.insert(b.semantic.clone(), entry);
            i = i + 1;
        }
        assert(bs.take(bs.len() as int) =~= bs);
        SemanticMappingTable { mat_name: m.target.clone(), map }
    }
}

/// A reference to a mesh inside a node, including materials assigned to
/// subgroups, in document order.
pub struct MeshInstance {
    /// Id of the mesh or controller to be instanced.
    pub mesh_or_controller: String,
    /// Materials by the subgroup symbol they are applied to.
    pub materials: Vec<(String, SemanticMappingTable)>,
}

/// The material table a symbol selects: the first bound to that symbol,
/// else the first of all, else none.
pub open spec fn material_for_symbol_spec(symbols: Seq<Seq<char>>, symbol: Seq<char>) -> Option<int> {
    if exists|i: int| 0 <= i < symbols.len() && symbols[i] == symbol {
        Some(choose|i: int| 0 <= i < symbols.len() && symbols[i] == symbol
            && forall|j: int| 0 <= j < i ==> symbols[j] != symbol)
    } else if symbols.len() > 0 {
        Some(0)
    } else {
        None
    }
}

impl MeshInstance {
    /// The subgroup symbols, in document order.
    pub open spec fn symbols(&self) -> Seq<Seq<char>> {
        Seq::new(self.materials@.len(), |i: int| self.materials@[i].0@)
    }

    /// An instance of a mesh or controller with its bound materials.
    pub fn new(mesh_or_controller: String, materials: &Vec<InstanceMaterialInfo>) -> (r: MeshInstance)
        ensures
            r.mesh_or_controller@ == mesh_or_controller@,
            r.materials.len() == materials.len(),
            forall|i: int| 0 <= i < materials.len() ==> (#[trigger] r.materials@[i]).0@ == materials@[i].symbol@
                && r.materials@[i].1.mat_name@ == materials@[i].target@
                && r.materials@[i].1.map.wf()
                && r.materials@[i].1.map.as_map() == binds_map(materials@[i].bind_vertex_input@),
    {
        let mut out: Vec<(String, SemanticMappingTable)> = Vec::new();
        let mut i: usize = 0;
        while i < materials.len()
            invariant
                i <= materials.len(),
                out.len() == i,
                forall|k: int| 0 <= k < i ==> (#[trigger] out@[k]).0@ == materials@[k].symbol@
                    && out@[k].1.mat_name@ == materials@[k].target@
                    && out@[k].1.map.wf()
                    && out@[k].1.map.as_map() == binds_map(materials@[k].bind_vertex_input@),
            decreases materials.len() - i,
        {
            let m = &materials[i];
            out.push((m.symbol.clone(), SemanticMappingTable::from_instance_material(m)));
            i = i + 1;
        }
        MeshInstance { mesh_or_controller, materials: out }
    }

    /// The material table bound to `symbol`; when none is, the first table.
    pub fn material_for_symbol(&self, symbol: &str) -> (r: Option<&SemanticMappingTable>)
        ensures
            match material_for_symbol_spec(self.symbols(), symbol@) {
                Some(i) => r == Some(&self.materials@[i].1),
                None => r is None,
            },
    {
        let mut i: usize = 0;
        while i < self.materials.len()
            invariant
                i <= self.materials.len(),
                forall|j: int| 0 <= j < i ==> self.symbols()[j] != symbol@,
            decreases self.materials.len() - i,
        {
            if crate::text::str_eq(self.materials[i].0.as_str(), symbol) {
                proof {
                    assert(self.symbols()[i as int] == symbol@);
                    let c = choose|c: int| 0 <= c < self.symbols().len() && self.symbols()[c] == symbol@
                        && forall|j: int| 0 <= j < c ==> self.symbols()[j] != symbol@;
                    assert(c == i);
                }
                return Some(&self.materials[i].1);
            }
            i = i + 1;
        }
        if self.materials.len() > 0 {
            Some(&self.materials[0].1)
        } else {
            None
        }
    }
}

/// One scene mesh split off a Collada mesh: the faces of one material
/// subgroup, over corners numbered from 0, with the position index of
/// each corner.
pub struct SplitMesh {
    pub name: String,
    pub primitive_types: PrimitiveTypes,
    pub vertex_pos_indices: Vec<usize>,
    pub faces: Vec<Vec<usize>>,
    pub material_index: u32,
}

/// A split mesh, as values.
pub struct SplitView {
    pub name: Seq<char>,
    pub primitive_types: PrimitiveTypes,
    pub vertex_pos_indices: Seq<usize>,
    pub faces: Seq<Seq<usize>>,
    pub material_index: u32,
}

impl View for SplitMesh {
    type V = SplitView;

    open spec fn view(&self) -> SplitView {
        SplitView {
            name: self.name@,
            primitive_types: self.primitive_types,
            vertex_pos_indices: self.vertex_pos_indices@,
            faces: faces_view(self.faces@),
            material_index: self.material_index,
        }
    }
}

/// The scene index of a material by name: 0 for no name or an unknown one.
pub open spec fn material_index_spec(indices: Map<Seq<char>, usize>, mat_name: Seq<char>) -> u32 {
    if mat_name.len() == 0 || !indices.dom().contains(mat_name) {
        0
    } else {
        indices[mat_name] as u32
    }
}

/// The name of the scene meshes split off `m`.
pub open spec fn split_name(m: Mesh, use_collada_name: bool) -> Seq<char> {
    if use_collada_name && m.name@.len() > 0 { m.name@ } else { m.id@ }
}

/// The material name the subgroup `symbol` is bound to in `inst`.
pub open spec fn bound_material(inst: MeshInstance, symbol: Seq<char>) -> Seq<char> {
    match material_for_symbol_spec(inst.symbols(), symbol) {
        Some(i) => inst.materials@[i].1.mat_name@,
        None => Seq::empty(),
    }
}

/// The scene mesh split off sub-mesh `j` of `m`.
pub open spec fn split_spec(m: Mesh, inst: MeshInstance, indices: Map<Seq<char>, usize>, use_name: bool, j: int) -> SplitView {
    let counts = sub_counts(subs_view(m.sub_meshes@));
    let fs = prefix_total(counts, j);
    let n = counts[j] as int;
    let sizes = m.face_size@.subrange(fs as int, fs + n);
    let vs = prefix_total(m.face_size@, fs as int);
    let nv = prefix_total(sizes, n);
    SplitView {
        name: split_name(m, use_name),
        primitive_types: dae_primitive_types(sizes),
        vertex_pos_indices: m.face_pos_indices@.subrange(vs as int, (vs + nv) as int),
        faces: numbered_faces(sizes),
        material_index: material_index_spec(indices, bound_material(inst, m.sub_meshes@[j].material@)),
    }
}

/// The scene meshes split off the first `j` sub-meshes of `m` (those with
/// no face give none).
pub open spec fn splits_spec(m: Mesh, inst: MeshInstance, indices: Map<Seq<char>, usize>, use_name: bool, j: int) -> Seq<SplitView>
    decreases j,
{
    if j <= 0 {
        Seq::empty()
    } else {
        let prev = splits_spec(m, inst, indices, use_name, j - 1);
        if m.sub_meshes@[j - 1].num_faces > 0 {
            prev.push(split_spec(m, inst, indices, use_name, j - 1))
        } else {
            prev
        }
    }
}

/// The library entry of a mesh id: the first entry with that id.
pub open spec fn library_lookup(lib: MeshLibrary, id: Seq<char>) -> Option<int> {
    if exists|i: int| 0 <= i < lib.entries.len() && lib.entries@[i].0@ == id {
        Some(choose|i: int| 0 <= i < lib.entries.len() && lib.entries@[i].0@ == id
            && forall|j: int| 0 <= j < i ==> lib.entries@[j].0@ != id)
    } else {
        None
    }
}

/// The mesh an instance places: the library mesh of that id, else the
/// library mesh named by the source of the controller of that id.
pub open spec fn resolve_mesh_spec(lib: MeshLibrary, controllers: Map<Seq<char>, String>, id: Seq<char>) -> Option<int> {
    match library_lookup(lib, id) {
        Some(i) => Some(i),
        None => if controllers.dom().contains(id) { library_lookup(lib, controllers[id]@) } else { None },
    }
}

fn library_get(lib: &MeshLibrary, id: &String) -> (r: Option<usize>)
    ensures
        match r {
            Some(i) => i < lib.entries.len() && library_lookup(*lib, id@) == Some(i as int),
            None => library_lookup(*lib, id@) is None,
        },
{
    let mut i: usize = 0;
    while i < lib.entries.len()
        invariant
            i <= lib.entries.len(),
            forall|j: int| 0 <= j < i ==> lib.entries@[j].0@ != id@,
        decreases lib.entries.len() - i,
    {
        if lib.entries[i].0 == *id {
            proof {
                let c = choose|c: int| 0 <= c < lib.entries.len() && lib.entries@[c].0@ == id@
                    && forall|j: int| 0 <= j < c ==> lib.entries@[j].0@ != id@;
                assert(c == i);
            }
            return Some(i);
        }
        i = i + 1;
    }
    None
}

/// The library position of the mesh an instance places.
pub fn resolve_mesh(lib: &MeshLibrary, controllers: &TextMap<String>, id: &String) -> (r: Option<usize>)
    requires
        controllers.wf(),
    ensures
        match r {
            Some(i) => i < lib.entries.len() && resolve_mesh_spec(*lib, controllers.as_map(), id@) == Some(i as int),
            None => resolve_mesh_spec(*lib, controllers.as_map(), id@) is None,
        },
{
    match library_get(lib, id) {
        Some(i) => Some(i),
        None => match controllers.get(id.as_str()) {
            Some(src) => library_get(lib, src),
            None => None,
        },
    }
}

/// The scene index of a material by name.
pub fn material_index(indices: &TextMap<usize>, mat_name: &String) -> (r: u32)
    requires
        indices.wf(),
    ensures
        r == material_index_spec(indices.as_map(), mat_name@),
{
    if crate::text::string_is_empty(mat_name) {
        return 0;
    }
    match indices.get(mat_name.as_str()) {
        Some(i) => *i as u32,
        None => 0,
    }
}

/// Splits the mesh `m` placed by `inst` into one scene mesh per material
/// subgroup that holds faces, appended to `out`.
pub fn split_instance(m: &Mesh, inst: &MeshInstance, indices: &TextMap<usize>, use_name: bool, out: &mut Vec<SplitMesh>)
    requires
        m.wf(),
        indices.wf(),
    ensures
        splits_view(final(out)@) == splits_view(old(out)@) + splits_spec(*m, *inst, indices.as_map(), use_name, m.sub_meshes@.len() as int),
{
    let ghost counts = sub_counts(subs_view(m.sub_meshes@));
    let ghost before = splits_view(out@);
    let name = if use_name && !crate::text::string_is_empty(&m.name) { m.name.clone() } else { m.id.clone() };
    let mut vertex_start: usize = 0;
    let mut face_start: usize = 0;
    let mut j: usize = 0;
    let total_pos = m.face_pos_indices.len();
    let total_faces = m.face_size.len();
    proof {
        lemma_prefix_total_mono(m.face_size@, 0, m.face_size@.len() as int);
    }
    while j < m.sub_meshes.len()
        invariant
            m.wf(),
            indices.wf(),
            counts == sub_counts(subs_view(m.sub_meshes@)),
            total_pos == m.face_pos_indices@.len(),
            total_faces == m.face_size@.len(),
            name@ == split_name(*m, use_name),
            j <= m.sub_meshes.len(),
            face_start == prefix_total(counts, j as int),
            vertex_start == prefix_total(m.face_size@, face_start as int),
            splits_view(out@) == before + splits_spec(*m, *inst, indices.as_map(), use_name, j as int),
        decreases m.sub_meshes.len() - j,
    {
        let sub = &m.sub_meshes[j];
        let n = sub.num_faces;
        assert(counts[j as int] == n);
        proof {
            lemma_prefix_total_mono(counts, j + 1, counts.len() as int);
        }
        let ghost prev = splits_view(out@);
        if n > 0 {
            let (faces, types, nv) = number_faces(&m.face_size, face_start, face_start + n);
            let table = inst.material_for_symbol(sub.material.as_str());
            let mat_name = match table {
                Some(t) => t.mat_name.clone(),
                None => String::new(),
            };
            let material_index = material_index(indices, &mat_name);
            proof {
                crate::dae::mesh::lemma_subrange_total_split(m.face_size@, face_start as int, (face_start + n) as int);
                lemma_prefix_total_mono(m.face_size@, (face_start + n) as int, m.face_size@.len() as int);
            }
            let mut vpos: Vec<usize> = Vec::new();
            let mut k: usize = 0;
            while k < nv
                invariant
                    vertex_start + nv <= m.face_pos_indices.len(),
                    k <= nv,
                    vpos@ == m.face_pos_indices@.subrange(vertex_start as int, vertex_start + k),
                decreases nv - k,
            {
                vpos.push(m.face_pos_indices[vertex_start + k]);
                assert(m.face_pos_indices@.subrange(vertex_start as int, vertex_start + k + 1)
                    =~= m.face_pos_indices@.subrange(vertex_start as int, vertex_start + k).push(m.face_pos_indices@[vertex_start + k]));
                k = k + 1;
            }
            out.push(SplitMesh { name: name.clone(), primitive_types: types, vertex_pos_indices: vpos, faces, material_index });
            assert(splits_view(out@) =~= prev.push(split_spec(*m, *inst, indices.as_map(), use_name, j as int)));
            vertex_start = vertex_start + nv;
            face_start = face_start + n;
        } else {
            assert(splits_view(out@) =~= prev);
        }
        j = j + 1;
    }
}

/// The views of a list of split meshes.
pub open spec fn splits_view(v: Seq<SplitMesh>) -> Seq<SplitView> {
    Seq::new(v.len(), |i: int| v[i]@)
}

/// The scene meshes a node's first `k` instances give, and the index of
/// the first scene mesh of each instanced id that gave any (a later
/// instance of the same id replacing an earlier one).
pub open spec fn node_meshes_spec(instances: Seq<MeshInstance>, lib: MeshLibrary, controllers: Map<Seq<char>, String>,
    indices: Map<Seq<char>, usize>, use_name: bool, k: int) -> (Seq<SplitView>, Map<Seq<char>, usize>)
    decreases k,
{
    if k <= 0 {
        (Seq::empty(), Map::empty())
    } else {
        let (ms, names) = node_meshes_spec(instances, lib, controllers, indices, use_name, k - 1);
        let inst = instances[k - 1];
        match resolve_mesh_spec(lib, controllers, inst.mesh_or_controller@) {
            None => (ms, names),
            Some(i) => {
                let m = lib.entries@[i].1;
                let sp = splits_spec(m, inst, indices, use_name, m.sub_meshes@.len() as int);
                if sp.len() > 0 {
                    (ms + sp, names.insert(inst.mesh_or_controller@, ms.len() as usize))
                } else {
                    (ms, names)
                }
            },
        }
    }
}

/// The scene meshes one instance adds, and its entry in the name map.
fn place_instance(inst: &MeshInstance, lib: &MeshLibrary, controllers: &TextMap<String>,
    material_indices: &TextMap<usize>, use_name: bool, meshes: &mut Vec<SplitMesh>, names: &mut TextMap<usize>)
    requires
        forall|i: int| 0 <= i < lib.entries.len() ==> (#[trigger] lib.entries@[i]).1.wf(),
        controllers.wf(),
        material_indices.wf(),
        old(names).wf(),
    ensures
        final(names).wf(),
        ({
            let ms = splits_view(old(meshes)@);
            let nm = old(names).as_map();
            match resolve_mesh_spec(*lib, controllers.as_map(), inst.mesh_or_controller@) {
                None => splits_view(final(meshes)@) == ms && final(names).as_map() == nm,
                Some(i) => {
                    let m = lib.entries@[i].1;
                    let sp = splits_spec(m, *inst, material_indices.as_map(), use_name, m.sub_meshes@.len() as int);
                    &&& splits_view(final(meshes)@) == ms + sp
                    &&& final(names).as_map() == (if sp.len() > 0 { nm.insert(inst.mesh_or_controller@, ms.len() as usize) } else { nm })
                },
            }
        }),
{
    match resolve_mesh(lib, controllers, &inst.mesh_or_controller) {
        None => {},
        Some(i) => {
            let m = &lib.entries[i].1;
            let first_index = meshes.len();
            let ghost ms = splits_view(meshes@);
            split_instance(m, inst, material_indices, use_name, meshes);
            let ghost sp = splits_spec(*m, *inst, material_indices.as_map(), use_name, m.sub_meshes@.len() as int);
            assert(splits_view(meshes@).len() == meshes@.len());
            assert(ms.len() == first_index);
            assert(meshes@.len() == first_index + sp.len());
            if meshes.len() > first_index {
                names.insert(inst.mesh_or_controller.clone(), first_index);
            }
        },
    }
}

impl DaeImporter {
    /// The scene meshes of a node: for each mesh instance (geometry
    /// instances first, then controller instances) whose mesh resolves,
    /// one scene mesh per material subgroup with faces; and, for each
    /// instanced id that gave any, the index of its first scene mesh.
    pub fn build_meshes_for_node(&self, instances: &Vec<MeshInstance>, lib: &MeshLibrary,
        controllers: &TextMap<String>, material_indices: &TextMap<usize>) -> (r: (Vec<SplitMesh>, TextMap<usize>))
        requires
            forall|i: int| 0 <= i < lib.entries.len() ==> (#[trigger] lib.entries@[i]).1.wf(),
            controllers.wf(),
            material_indices.wf(),
        ensures
            r.1.wf(),
            (splits_view(r.0@), r.1.as_map()) == node_meshes_spec(instances@, *lib, controllers.as_map(),
                material_indices.as_map(), self.use_collada_name, instances@.len() as int),
    {
        let mut meshes: Vec<SplitMesh> = Vec::new();
        let mut names: TextMap<usize> = TextMap::new();
        let mut k: usize = 0;
        assert(splits_view(meshes@) =~= Seq::empty());
        while k < instances.len()
            invariant
                forall|i: int| 0 <= i < lib.entries.len() ==> (#[trigger] lib.entries@[i]).1.wf(),
                controllers.wf(),
                material_indices.wf(),
                names.wf(),
                k <= instances.len(),
                splits_view(meshes@) == node_meshes_spec(instances@, *lib, controllers.as_map(),
                    material_indices.as_map(), self.use_collada_name, k as int).0,
                names.as_map() == node_meshes_spec(instances@, *lib, controllers.as_map(),
                    material_indices.as_map(), self.use_collada_name, k as int).1,
            decreases instances.len() - k,
        {
            place_instance(&instances[k], lib, controllers, material_indices, self.use_collada_name, &mut meshes, &mut names);
            k = k + 1;
        }
        (meshes, names)
    }
}

} // verus!
