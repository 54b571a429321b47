//! Turning the models of an OBJ file into scene meshes and nodes.
use vstd::prelude::*;

use crate::scene::{PrimitiveTypes, faces_view, flatten};

verus! {

/// The geometry of one OBJ model, as the OBJ loader hands it out: flat
/// coordinate lists and, per face, how many corners it has.
pub struct ObjMeshData<F> {
    pub positions: Vec<F>,
    pub normals: Vec<F>,
    pub texcoords: Vec<F>,
    pub vertex_color: Vec<F>,
    pub indices: Vec<u32>,
    /// Corners per face; empty when the loader triangulated every face.
    pub face_arities: Vec<u32>,
    pub material_id: Option<usize>,
}

/// A named OBJ model.
pub struct ObjModel<F> {
    pub mesh: ObjMeshData<F>,
    pub name: String,
}

/// The scene mesh built from one model.
pub struct ObjMesh<F> {
    pub name: String,
    pub material_index: u32,
    pub primitive_types: PrimitiveTypes,
    pub vertices: Vec<(F, F, F)>,
    pub normals: Vec<(F, F, F)>,
    /// The RGB vertex colours of the first colour set (opaque).
    pub colors: Option<Vec<(F, F, F)>>,
    /// The UV pairs of the first texture-coordinate set (W is zero).
    pub texture_coords: Option<Vec<(F, F)>>,
    pub faces: Vec<Vec<usize>>,
}

/// The scene node that holds one model's mesh.
pub struct ObjNode {
    pub name: String,
    pub mesh_indexes: Vec<usize>,
}

/// Consecutive triples of a flat list (a trailing remainder is dropped).
pub open spec fn triples<F>(v: Seq<F>) -> Seq<(F, F, F)> {
    Seq::new(v.len() / 3, |i: int| (v[3 * i], v[3 * i + 1], v[3 * i + 2]))
}

/// Consecutive pairs of a flat list (a trailing remainder is dropped).
pub open spec fn pairs<F>(v: Seq<F>) -> Seq<(F, F)> {
    Seq::new(v.len() / 2, |i: int| (v[2 * i], v[2 * i + 1]))
}

/// `arity_total(s, k)`: the corners of the first `k` faces.
pub open spec fn arity_total(s: Seq<u32>, k: int) -> nat
    decreases k,
{
    if k <= 0 || k > s.len() {
        0
    } else {
        arity_total(s, k - 1) + s[k - 1] as nat
    }
}

/// Whether a face list fits the index list it points into.
pub open spec fn arities_fit(indices: Seq<u32>, arities: Seq<u32>) -> bool {
    arity_total(arities, arities.len() as int) <= indices.len()
}

/// The faces of a model: triangles from consecutive index triples when no
/// arities are given, else one face per arity over consecutive indices.
pub open spec fn obj_faces(indices: Seq<u32>, arities: Seq<u32>) -> Seq<Seq<usize>> {
    if arities.len() == 0 {
        Seq::new(
            indices.len() / 3,
            |f: int| seq![indices[3 * f] as usize, indices[3 * f + 1] as usize, indices[3 * f + 2] as usize],
        )
    } else {
        Seq::new(
            arities.len(),
            |f: int| Seq::new(arities[f] as nat, |j: int| indices[arity_total(arities, f) + j] as usize),
        )
    }
}

/// The primitive kinds of a model: triangles when no arities are given,
/// else one kind per arity (`1` point, `2` line, `3` triangle, `4` and
/// more polygon; a face of no corners adds none).
pub open spec fn obj_primitive_types(arities: Seq<u32>) -> PrimitiveTypes {
    if arities.len() == 0 {
        PrimitiveTypes { point: false, line: false, triangle: true, polygon: false }
    } else {
        PrimitiveTypes {
            point: arities.contains(1u32),
            line: arities.contains(2u32),
            triangle: arities.contains(3u32),
            polygon: exists|i: int| 0 <= i < arities.len() && arities[i] >= 4,
        }
    }
}

/// What the mesh built from `model` holds.
pub open spec fn obj_mesh_spec<F>(model: ObjModel<F>, m: ObjMesh<F>) -> bool {
    let d = model.mesh;
    &&& m.name@ == model.name@
    &&& m.material_index == (match d.material_id { Some(id) => id, None => 0 }) as u32
    &&& m.primitive_types == obj_primitive_types(d.face_arities@)
    &&& m.vertices@ == triples(d.positions@)
    &&& m.normals@ == triples(d.normals@)
    &&& m.colors == (if d.vertex_color.len() == 0 { None::<Vec<(F, F, F)>> } else { m.colors })
    &&& (d.vertex_color.len() > 0 ==> m.colors is Some && m.colors->0@ == triples(d.vertex_color@))
    &&& (d.texcoords.len() == 0 ==> m.texture_coords is None)
    &&& (d.texcoords.len() > 0 ==> m.texture_coords is Some && m.texture_coords->0@ == pairs(d.texcoords@))
    &&& faces_view(m.faces@) == obj_faces(d.indices@, d.face_arities@)
}

proof fn lemma_triple_index(i: int, n: int)
    requires
        0 <= i < n / 3,
    ensures
        3 * i + 2 < n,
{
    assert(3 * i + 2 < n) by (nonlinear_arith)
        requires
            0 <= i < n / 3;
}

proof fn lemma_pair_index(i: int, n: int)
    requires
        0 <= i < n / 2,
    ensures
        2 * i + 1 < n,
{
    assert(2 * i + 1 < n) by (nonlinear_arith)
        requires
            0 <= i < n / 2;
}

/// Groups a flat list into consecutive triples.
pub fn chunk_triples<F: Copy>(v: &Vec<F>) -> (r: Vec<(F, F, F)>)
    ensures
        r@ == triples(v@),
{
    let n = v.len() / 3;
    let mut r: Vec<(F, F, F)> = Vec::new();
    let mut i: usize = 0;
    let mut off: usize = 0;
    while i < n
        invariant
            n == v.len() / 3,
            i <= n,
            off == 3 * i,
            r@.len() == i,
            forall|k: int| 0 <= k < i ==> #[trigger] r@[k] == triples(v@)[k],
        decreases n - i,
    {
        proof {
            lemma_triple_index(i as int, v.len() as int);
        }
        r.push((v[off], v[off + 1], v[off + 2]));
        i = i + 1;
        off = off + 3;
    }
    assert(r@ =~= triples(v@));
    r
}

/// Groups a flat list into consecutive pairs.
pub fn chunk_pairs<F: Copy>(v: &Vec<F>) -> (r: Vec<(F, F)>)
    ensures
        r@ == pairs(v@),
{
    let n = v.len() / 2;
    let mut r: Vec<(F, F)> = Vec::new();
    let mut i: usize = 0;
    let mut off: usize = 0;
    while i < n
        invariant
            n == v.len() / 2,
            i <= n,
            off == 2 * i,
            r@.len() == i,
            forall|k: int| 0 <= k < i ==> #[trigger] r@[k] == pairs(v@)[k],
        decreases n - i,
    {
        proof {
            lemma_pair_index(i as int, v.len() as int);
        }
        r.push((v[off], v[off + 1]));
        i = i + 1;
        off = off + 2;
    }
    assert(r@ =~= pairs(v@));
    r
}

/// The primitive kinds of a model's faces.
pub fn primitive_types_of(arities: &Vec<u32>) -> (r: PrimitiveTypes)
    ensures
        r == obj_primitive_types(arities@),
{
    let mut r = PrimitiveTypes::empty();
    if arities.len() == 0 {
        r.triangle = true;
        return r;
    }
    let mut i: usize = 0;
    while i < arities.len()
        invariant
            i <= arities.len(),
            arities.len() > 0,
            r.point == exists|k: int| 0 <= k < i && arities@[k] == 1,
            r.line == exists|k: int| 0 <= k < i && arities@[k] == 2,
            r.triangle == exists|k: int| 0 <= k < i && arities@[k] == 3,
            r.polygon == exists|k: int| 0 <= k < i && arities@[k] >= 4,
        decreases arities.len() - i,
    {
        let a = arities[i];
        if a == 1 {
            r.point = true;
        } else if a == 2 {
            r.line = true;
        } else if a == 3 {
            r.triangle = true;
        } else if a >= 4 {
            r.polygon = true;
        }
        i = i + 1;
    }
    r
}

proof fn lemma_arity_total_mono(s: Seq<u32>, j: int, k: int)
    requires
        0 <= j <= k <= s.len(),
    ensures
        arity_total(s, j) <= arity_total(s, k),
    decreases k - j,
{
    if j < k {
        lemma_arity_total_mono(s, j, k - 1);
    }
}

/// The faces of a model.
pub fn build_faces(indices: &Vec<u32>, arities: &Vec<u32>) -> (faces: Vec<Vec<usize>>)
    requires
        arities_fit(indices@, arities@),
    ensures
        faces_view(faces@) == obj_faces(indices@, arities@),
{
    let mut faces: Vec<Vec<usize>> = Vec::new();
    if arities.len() == 0 {
        let n = indices.len() / 3;
        let mut i: usize = 0;
        let mut off: usize = 0;
        while i < n
            invariant
                arities@.len() == 0,
                n == indices.len() / 3,
                i <= n,
                off == 3 * i,
                faces@.len() == i,
                forall|k: int| 0 <= k < i ==> #[trigger] faces@[k]@ == obj_faces(indices@, arities@)[k],
            decreases n - i,
        {
            proof {
                lemma_triple_index(i as int, indices.len() as int);
            }
            let face = vec![indices[off] as usize, indices[off + 1] as usize, indices[off + 2] as usize];
            assert(face@ =~= obj_faces(indices@, arities@)[i as int]);
            faces.push(face);
            i = i + 1;
            off = off + 3;
        }
        assert(faces_view(faces@) =~= obj_faces(indices@, arities@));
        return faces;
    }
    let mut i: usize = 0;
    let mut offset: usize = 0;
    while i < arities.len()
        invariant
            arities.len() > 0,
            arities_fit(indices@, arities@),
            i <= arities.len(),
            offset == arity_total(arities@, i as int),
            faces@.len() == i,
            forall|k: int| 0 <= k < i ==> #[trigger] faces@[k]@ == obj_faces(indices@, arities@)[k],
        decreases arities.len() - i,
    {
        let arity = arities[i];
        proof {
            lemma_arity_total_mono(arities@, i + 1, arities.len() as int);
        }
        let mut face: Vec<usize> = Vec::new();
        let mut j: u32 = 0;
        while j < arity
            invariant
                arity == arities@[i as int],
                i < arities.len(),
                offset == arity_total(arities@, i as int),
                offset + arity <= indices.len(),
                j <= arity,
                face@.len() == j,
                forall|m: int| 0 <= m < j ==> #[trigger] face@[m] == indices@[offset + m] as usize,
            decreases arity - j,
        {
            face.push(indices[offset + j as usize] as usize);
            j = j + 1;
        }
        assert(face@ =~= obj_faces(indices@, arities@)[i as int]);
        faces.push(face);
        offset = offset + arity as usize;
        i = i + 1;
    }
    assert(faces_view(faces@) =~= obj_faces(indices@, arities@));
    faces
}

/// The scene mesh of one model.
pub fn import_mesh<F: Copy>(model: &ObjModel<F>) -> (m: ObjMesh<F>)
    requires
        arities_fit(model.mesh.indices@, model.mesh.face_arities@),
    ensures
        obj_mesh_spec(*model, m),
{
    let d = &model.mesh;
    let material_index: u32 = match d.material_id {
        Some(id) => id as u32,
        None => 0,
    };
    let colors = if d.vertex_color.len() == 0 { None } else { Some(chunk_triples(&d.vertex_color)) };
    let texture_coords = if d.texcoords.len() == 0 { None } else { Some(chunk_pairs(&d.texcoords)) };
    ObjMesh {
        name: model.name.clone(),
        material_index,
        primitive_types: primitive_types_of(&d.face_arities),
        vertices: chunk_triples(&d.positions),
        normals: chunk_triples(&d.normals),
        colors,
        texture_coords,
        faces: build_faces(&d.indices, &d.face_arities),
    }
}

/// What importing the models gives: mesh `i` is built from model `i`, and
/// node `i` has the model's name and holds mesh `i` alone.
pub open spec fn obj_import_spec<F>(models: Seq<ObjModel<F>>, meshes: Seq<ObjMesh<F>>, nodes: Seq<ObjNode>) -> bool {
    &&& meshes.len() == models.len()
    &&& nodes.len() == models.len()
    &&& forall|i: int| 0 <= i < models.len() ==> obj_mesh_spec(models[i], #[trigger] meshes[i])
    &&& forall|i: int| 0 <= i < models.len() ==> (#[trigger] nodes[i]).name@ == models[i].name@
        && nodes[i].mesh_indexes@ == seq![i as usize]
}

/// The scene meshes of an OBJ file's models, each with a node of the
/// model's name that holds that one mesh (mesh `i` in node `i`).
pub fn import_meshes<F: Copy>(models: &Vec<ObjModel<F>>) -> (r: (Vec<ObjMesh<F>>, Vec<ObjNode>))
    requires
        forall|i: int| 0 <= i < models.len()
            ==> arities_fit(#[trigger] models@[i].mesh.indices@, models@[i].mesh.face_arities@),
    ensures
        obj_import_spec(models@, r.0@, r.1@),
{
    let mut meshes: Vec<ObjMesh<F>> = Vec::new();
    let mut nodes: Vec<ObjNode> = Vec::new();
    let mut i: usize = 0;
    while i < models.len()
        invariant
            forall|k: int| 0 <= k < models.len()
                ==> arities_fit(#[trigger] models@[k].mesh.indices@, models@[k].mesh.face_arities@),
            i <= models.len(),
            meshes.len() == i,
            nodes.len() == i,
            forall|k: int| 0 <= k < i ==> obj_mesh_spec(models@[k], #[trigger] meshes@[k]),
            forall|k: int| 0 <= k < i ==> (#[trigger] nodes@[k]).name@ == models@[k].name@
                && nodes@[k].mesh_indexes@ == seq![k as usize],
        decreases models.len() - i,
    {
        let model = &models[i];
        let mut mesh_indexes: Vec<usize> = Vec::new();
        mesh_indexes.push(meshes.len());
        nodes.push(ObjNode { name: model.name.clone(), mesh_indexes });
        meshes.push(import_mesh(model));
        i = i + 1;
    }
    (meshes, nodes)
}

proof fn lemma_obj_flatten_prefix(indices: Seq<u32>, arities: Seq<u32>, k: int)
    requires
        arities.len() > 0,
        0 <= k <= arities.len(),
    ensures
        flatten(obj_faces(indices, arities).take(k))
            =~= Seq::new(arity_total(arities, k), |j: int| indices[j] as usize),
    decreases k,
{
    let fs = obj_faces(indices, arities);
    if k > 0 {
        lemma_obj_flatten_prefix(indices, arities, k - 1);
        assert(fs.take(k).drop_last() =~= fs.take(k - 1));
        let prev = Seq::new(arity_total(arities, k - 1), |j: int| indices[j] as usize);
        let face = fs[k - 1];
        assert(face == Seq::new(arities[k - 1] as nat, |j: int| indices[arity_total(arities, k - 1) + j] as usize));
        assert(prev + face =~= Seq::new(arity_total(arities, k), |j: int| indices[j] as usize));
    } else {
        assert(fs.take(0) =~= Seq::<Seq<usize>>::empty());
    }
}

/// The faces of a model with face arities use its index list in order,
/// each index exactly once: one after the other they are the first
/// (total arity) indices.
pub proof fn lemma_obj_faces_cover_indices(indices: Seq<u32>, arities: Seq<u32>)
    requires
        arities.len() > 0,
    ensures
        flatten(obj_faces(indices, arities))
            == Seq::new(arity_total(arities, arities.len() as int), |j: int| indices[j] as usize),
{
    lemma_obj_flatten_prefix(indices, arities, arities.len() as int);
    assert(obj_faces(indices, arities).take(arities.len() as int) =~= obj_faces(indices, arities));
}

/// Importing OBJ models gives one mesh and one node per model, in order:
/// mesh and node carry the model's name, node `i` holds mesh `i` alone,
/// the mesh's material is the model's (the first when it names none), its
/// vertices are the model's positions taken three at a time, and it has a
/// colour set exactly when the model has vertex colours and a
/// texture-coordinate set exactly when the model has texture coordinates.
pub proof fn lemma_obj_import_whole<F>(models: Seq<ObjModel<F>>, meshes: Seq<ObjMesh<F>>, nodes: Seq<ObjNode>)
    requires
        obj_import_spec(models, meshes, nodes),
    ensures
        meshes.len() == models.len() && nodes.len() == models.len(),
        forall|i: int| 0 <= i < models.len() ==> {
            &&& (#[trigger] meshes[i]).name@ == models[i].name@
            &&& nodes[i].name@ == models[i].name@
            &&& nodes[i].mesh_indexes@ == seq![i as usize]
            &&& meshes[i].material_index == (match models[i].mesh.material_id {
                Some(id) => id,
                None => 0,
            }) as u32
            &&& meshes[i].vertices@ == triples(models[i].mesh.positions@)
            &&& (meshes[i].colors is Some <==> models[i].mesh.vertex_color.len() > 0)
            &&& (meshes[i].texture_coords is Some <==> models[i].mesh.texcoords.len() > 0)
        },
{
    assert forall|i: int| 0 <= i < models.len() implies {
        &&& (#[trigger] meshes[i]).name@ == models[i].name@
        &&& nodes[i].name@ == models[i].name@
        &&& nodes[i].mesh_indexes@ == seq![i as usize]
        &&& meshes[i].material_index == (match models[i].mesh.material_id {
            Some(id) => id,
            None => 0,
        }) as u32
        &&& meshes[i].vertices@ == triples(models[i].mesh.positions@)
        &&& (meshes[i].colors is Some <==> models[i].mesh.vertex_color.len() > 0)
        &&& (meshes[i].texture_coords is Some <==> models[i].mesh.texcoords.len() > 0)
    } by {
        assert(obj_mesh_spec(models[i], meshes[i]));
        assert(nodes[i].name@ == models[i].name@);
    }
}

/// The faces of an OBJ model follow its face arities: with none, face `i`
/// is the index triple from `3 i` on and every face is a triangle; else face
/// `i` is the `arities[i]` indices that follow the corners of the faces
/// before it, and the primitive kinds are exactly those of the arities
/// (1 a point, 2 a line, 3 a triangle, 4 or more a polygon).
pub proof fn lemma_obj_faces_follow_arities(indices: Seq<u32>, arities: Seq<u32>)
    requires
        arities.len() > 0 ==> arities_fit(indices, arities),
    ensures
        arities.len() == 0 ==> {
            &&& obj_faces(indices, arities).len() == indices.len() / 3
            &&& forall|f: int| 0 <= f < indices.len() / 3 ==> #[trigger] obj_faces(indices, arities)[f]
                == indices.subrange(3 * f, 3 * f + 3).map_values(|x: u32| x as usize)
            &&& obj_primitive_types(arities) == PrimitiveTypes { point: false, line: false, triangle: true, polygon: false }
        },
        arities.len() > 0 ==> {
            &&& obj_faces(indices, arities).len() == arities.len()
            &&& forall|f: int| 0 <= f < arities.len() ==> #[trigger] obj_faces(indices, arities)[f]
                == indices.subrange(arity_total(arities, f) as int, arity_total(arities, f) + arities[f]).map_values(
                    |x: u32| x as usize,
                )
            &&& obj_primitive_types(arities).point == exists|i: int| 0 <= i < arities.len() && arities[i] == 1
            &&& obj_primitive_types(arities).line == exists|i: int| 0 <= i < arities.len() && arities[i] == 2
            &&& obj_primitive_types(arities).triangle == exists|i: int| 0 <= i < arities.len() && arities[i] == 3
            &&& obj_primitive_types(arities).polygon == exists|i: int| 0 <= i < arities.len() && arities[i] >= 4
        },
{
    let fs = obj_faces(indices, arities);
    if arities.len() == 0 {
        assert forall|f: int| 0 <= f < indices.len() / 3 implies #[trigger] fs[f]
            == indices.subrange(3 * f, 3 * f + 3).map_values(|x: u32| x as usize) by {
            lemma_triple_index(f, indices.len() as int);
            assert(fs[f] =~= indices.subrange(3 * f, 3 * f + 3).map_values(|x: u32| x as usize));
        }
    } else {
        assert forall|f: int| 0 <= f < arities.len() implies #[trigger] fs[f]
            == indices.subrange(arity_total(arities, f) as int, arity_total(arities, f) + arities[f]).map_values(
                |x: u32| x as usize,
            ) by {
            lemma_arity_total_mono(arities, f + 1, arities.len() as int);
            assert(arity_total(arities, f + 1) == arity_total(arities, f) + arities[f]);
            assert(fs[f] =~= indices.subrange(arity_total(arities, f) as int, arity_total(arities, f) + arities[f]).map_values(
                |x: u32| x as usize,
            ));
        }
        let t = obj_primitive_types(arities);
        assert(t.point == exists|i: int| 0 <= i < arities.len() && arities[i] == 1) by {
            if t.point {
                let i = choose|i: int| 0 <= i < arities.len() && arities[i] == 1u32;
            }
        }
        assert(t.line == exists|i: int| 0 <= i < arities.len() && arities[i] == 2) by {
            if t.line {
                let i = choose|i: int| 0 <= i < arities.len() && arities[i] == 2u32;
            }
        }
        assert(t.triangle == exists|i: int| 0 <= i < arities.len() && arities[i] == 3) by {
            if t.triangle {
                let i = choose|i: int| 0 <= i < arities.len() && arities[i] == 3u32;
            }
        }
    }
}

} // verus!
