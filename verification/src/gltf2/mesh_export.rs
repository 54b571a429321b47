//! Exporting meshes into a glTF 2.0 document: index data, the meshes of
//! each node merged into one, the nodes that get the skin, and the layout
//! of integer accessor data in the body buffer.
use vstd::prelude::*;

use crate::gltf_v1::exporter::lemma_div_mod_of;

verus! {

/// The index data of a mesh's faces: every face contributes as many
/// indices as the first face has, each as a 32-bit value.
pub open spec fn face_index_spec(faces: Seq<Seq<usize>>) -> Seq<u32> {
    if faces.len() == 0 {
        Seq::empty()
    } else {
        let per = faces[0].len();
        Seq::new(faces.len() * per, |k: int| faces[k / (per as int)][k % (per as int)] as u32)
    }
}

proof fn lemma_div_below(j: int, k: int, m: int)
    requires
        k > 0,
        0 <= j < m * k,
    ensures
        0 <= j / k < m,
        j % k == j - (j / k) * k,
        0 <= j % k < k,
{
    vstd::arithmetic::div_mod::lemma_fundamental_div_mod(j, k);
    vstd::arithmetic::div_mod::lemma_mod_bound(j, k);
    assert(0 <= j / k < m) by (nonlinear_arith)
        requires
            k > 0,
            0 <= j < m * k,
            j == k * (j / k) + j % k,
            0 <= j % k < k,
    ;
    assert(k * (j / k) == (j / k) * k) by (nonlinear_arith);
}

/// When every face has the same number `k` of corners, the index data of
/// the faces is their corners one face after the other, as 32-bit values.
pub proof fn lemma_face_index_concat(faces: Seq<Seq<usize>>, k: nat)
    requires
        faces.len() > 0,
        k > 0,
        forall|i: int| 0 <= i < faces.len() ==> (#[trigger] faces[i]).len() == k,
    ensures
        face_index_spec(faces) == crate::scene::flatten(faces).map_values(|x: usize| x as u32),
    decreases faces.len(),
{
    let n = faces.len() as int;
    let d = faces.drop_last();
    let fl = crate::scene::flatten(faces);
    let fi = face_index_spec(faces);
    assert(faces[0].len() == k);
    assert(fl == crate::scene::flatten(d) + faces[n - 1]);
    if n == 1 {
        assert(d =~= Seq::<Seq<usize>>::empty());
        assert(crate::scene::flatten(d) =~= Seq::<usize>::empty());
        assert(fl =~= faces[0]);
        assert forall|j: int| 0 <= j < fi.len() implies #[trigger] fi[j] == fl.map_values(|x: usize| x as u32)[j] by {
            crate::gltf_v1::exporter::lemma_div_mod_of(0, k as int, j);
        }
        assert(fi.len() == k) by {
            assert(1 * k == k);
        }
        assert(fi =~= fl.map_values(|x: usize| x as u32));
    } else {
        assert forall|i: int| 0 <= i < d.len() implies (#[trigger] d[i]).len() == k by {
            assert(d[i] == faces[i]);
        }
        lemma_face_index_concat(d, k);
        let fd = face_index_spec(d);
        assert(d[0] == faces[0]);
        assert(fd.len() == (n - 1) * k);
        let fld = crate::scene::flatten(d);
        assert(fld.len() == fd.len());
        assert(fi.len() == n * k);
        assert(n * k == (n - 1) * k + k) by (nonlinear_arith);
        assert forall|j: int| 0 <= j < fi.len() implies #[trigger] fi[j] == fl.map_values(|x: usize| x as u32)[j] by {
            if j < (n - 1) * k {
                lemma_div_below(j, k as int, n - 1);
                assert(d[j / (k as int)] == faces[j / (k as int)]);
                assert(fd[j] == d[j / (k as int)][j % (k as int)] as u32);
                assert(fl[j] == fld[j]);
                assert(fd[j] == fld.map_values(|x: usize| x as u32)[j]);
            } else {
                let r = j - (n - 1) * k;
                crate::gltf_v1::exporter::lemma_div_mod_of(n - 1, k as int, r);
                assert(j == (n - 1) * k + r);
                assert(fl[j] == faces[n - 1][r]);
            }
        }
        assert(fi =~= fl.map_values(|x: usize| x as u32));
    }
}

/// The index data of a mesh's faces.
pub fn face_index_data(faces: &Vec<Vec<usize>>) -> (r: Vec<u32>)
    requires
        faces.len() > 0 ==> forall|i: int| 0 <= i < faces.len() ==> (#[trigger] faces@[i]).len() >= faces@[0].len(),
        faces.len() > 0 ==> faces.len() * faces@[0].len() <= usize::MAX,
    ensures
        r@ == face_index_spec(crate::scene::faces_view(faces@)),
{
    let mut out: Vec<u32> = Vec::new();
    if faces.len() == 0 {
        return out;
    }
    let per = faces[0].len();
    let ghost fv = crate::scene::faces_view(faces@);
    let ghost want = face_index_spec(fv);
    let mut i: usize = 0;
    while i < faces.len()
        invariant
            faces.len() > 0,
            per == faces@[0].len(),
            forall|k: int| 0 <= k < faces.len() ==> (#[trigger] faces@[k]).len() >= per,
            faces.len() * per <= usize::MAX,
            fv == crate::scene::faces_view(faces@),
            want == face_index_spec(fv),
            i <= faces.len(),
            out@ == want.take(i * per),
        decreases faces.len() - i,
    {
        proof {
            assert((i + 1) * per <= faces.len() * per) by (nonlinear_arith)
                requires i < faces.len();
            assert((i + 1) * per == i * per + per) by (nonlinear_arith);
        }
        let mut j: usize = 0;
        while j < per
            invariant
                faces.len() > 0,
                per == faces@[0].len(),
                i < faces.len(),
                faces@[i as int].len() >= per,
                (i + 1) * per <= faces.len() * per,
                (i + 1) * per == i * per + per,
                fv == crate::scene::faces_view(faces@),
                want == face_index_spec(fv),
                j <= per,
                out@ == want.take(i * per + j),
            decreases per - j,
        {
            proof {
                lemma_div_mod_of(i as int, per as int, j as int);
                assert(want[i * per + j] == faces@[i as int]@[j as int] as u32);
            }
            out.push(faces[i][j] as u32);
            assert(want.take(i * per + j + 1) =~= want.take(i * per + j).push(want[i * per + j]));
            j = j + 1;
        }
        i = i + 1;
    }
    assert(want.take(faces.len() * per) =~= want);
    out
}

/// A skin is exported when some mesh has bones.
pub fn needs_skin(bone_counts: &Vec<usize>) -> (r: bool)
    ensures
        r == exists|m: int| 0 <= m < bone_counts@.len() && bone_counts@[m] > 0,
{
    let mut m: usize = 0;
    while m < bone_counts.len()
        invariant
            m <= bone_counts@.len(),
            forall|k: int| 0 <= k < m ==> bone_counts@[k] == 0,
        decreases bone_counts@.len() - m,
    {
        if bone_counts[m] > 0 {
            return true;
        }
        m = m + 1;
    }
    false
}

/// Whether node `i` gets the skin: one of its meshes is an exported mesh
/// with morph weights.
pub open spec fn gets_skin(node_meshes: Seq<Vec<usize>>, has_weights: Seq<bool>, i: int) -> bool {
    exists|k: int| 0 <= k < node_meshes[i]@.len() && {
        let m = #[trigger] node_meshes[i]@[k];
        m < has_weights.len() && has_weights[m as int]
    }
}

/// The nodes that get the skin.
pub fn skinned_nodes(node_meshes: &Vec<Vec<usize>>, has_weights: &Vec<bool>) -> (r: Vec<bool>)
    ensures
        r@.len() == node_meshes@.len(),
        forall|i: int| 0 <= i < r@.len() ==> r@[i] == gets_skin(node_meshes@, has_weights@, i),
{
    let mut r: Vec<bool> = Vec::new();
    let mut i: usize = 0;
    while i < node_meshes.len()
        invariant
            i <= node_meshes@.len(),
            r@.len() == i,
            forall|t: int| 0 <= t < i ==> r@[t] == gets_skin(node_meshes@, has_weights@, t),
        decreases node_meshes@.len() - i,
    {
        let ms = &node_meshes[i];
        let mut found = false;
        let mut k: usize = 0;
        while k < ms.len()
            invariant
                *ms == node_meshes@[i as int],
                k <= ms@.len(),
                found == exists|t: int| 0 <= t < k && {
                    let m = #[trigger] ms@[t];
                    m < has_weights@.len() && has_weights@[m as int]
                },
            decreases ms@.len() - k,
        {
            let m = ms[k];
            if m < has_weights.len() && has_weights[m] {
                found = true;
            }
            k = k + 1;
        }
        r.push(found);
        i = i + 1;
    }
    r
}

/// A mesh of the exported document: the exported mesh it was copied from,
/// and its primitives.
pub struct MergedMesh<P> {
    pub source: usize,
    pub primitives: Vec<P>,
}

/// The state of merging: the primitives each exported mesh still has, the
/// merged meshes so far, and the merged mesh of each node so far.
pub struct MergeState<P> {
    pub meshes: Seq<Seq<P>>,
    pub merged: Seq<(usize, Seq<P>)>,
    pub node_mesh: Seq<Option<usize>>,
}

/// Merging the meshes `ms` of one node: the first exported mesh is copied
/// with its primitives; every later one hands its primitives over to the
/// copy and is left without primitives. Meshes that do not exist are
/// passed over.
pub open spec fn merge_meshes_of<P>(meshes: Seq<Seq<P>>, first: Option<(usize, Seq<P>)>, ms: Seq<usize>)
    -> (Seq<Seq<P>>, Option<(usize, Seq<P>)>)
    decreases ms.len(),
{
    if ms.len() == 0 {
        (meshes, first)
    } else {
        let r = merge_meshes_of(meshes, first, ms.drop_last());
        let m = ms.last();
        if m < r.0.len() {
            match r.1 {
                Some((src, ps)) => (r.0.update(m as int, Seq::empty()), Some((src, ps + r.0[m as int]))),
                None => (r.0, Some((m, r.0[m as int]))),
            }
        } else {
            r
        }
    }
}

/// Merging the meshes of the nodes `nodes`, in node order: a node whose
/// meshes merge into one gets that merged mesh, the next one.
pub open spec fn merge_nodes<P>(st: MergeState<P>, nodes: Seq<Seq<usize>>) -> MergeState<P>
    decreases nodes.len(),
{
    if nodes.len() == 0 {
        st
    } else {
        let s1 = merge_nodes(st, nodes.drop_last());
        let r = merge_meshes_of(s1.meshes, None, nodes.last());
        match r.1 {
            Some(mm) => MergeState {
                meshes: r.0,
                merged: s1.merged.push(mm),
                node_mesh: s1.node_mesh.push(Some(s1.merged.len() as usize)),
            },
            None => MergeState { meshes: r.0, merged: s1.merged, node_mesh: s1.node_mesh.push(None) },
        }
    }
}

pub open spec fn lists_of<P>(v: Seq<Vec<P>>) -> Seq<Seq<P>> {
    Seq::new(v.len(), |i: int| v[i]@)
}

pub open spec fn merged_of<P>(v: Seq<MergedMesh<P>>) -> Seq<(usize, Seq<P>)> {
    Seq::new(v.len(), |i: int| (v[i].source, v[i].primitives@))
}

proof fn lemma_merge_meshes_len<P>(meshes: Seq<Seq<P>>, first: Option<(usize, Seq<P>)>, ms: Seq<usize>)
    ensures
        merge_meshes_of(meshes, first, ms).0.len() == meshes.len(),
    decreases ms.len(),
{
    if ms.len() > 0 {
        lemma_merge_meshes_len(meshes, first, ms.drop_last());
    }
}

fn append_all<P: Copy>(dst: &mut Vec<P>, src: &Vec<P>)
    ensures
        final(dst)@ == old(dst)@ + src@,
{
    let mut i: usize = 0;
    while i < src.len()
        invariant
            i <= src@.len(),
            dst@ == old(dst)@ + src@.take(i as int),
        decreases src@.len() - i,
    {
        dst.push(src[i]);
        assert(src@.take(i + 1) =~= src@.take(i as int).push(src@[i as int]));
        i = i + 1;
    }
    assert(src@.take(src@.len() as int) =~= src@);
}

/// Merges the exported meshes of each node into one mesh (see
/// `merge_nodes`): the merged meshes, and the merged mesh of each node.
pub fn merge_node_meshes<P: Copy>(node_meshes: &Vec<Vec<usize>>, meshes: Vec<Vec<P>>) -> (r: (Vec<MergedMesh<P>>, Vec<Option<usize>>))
    ensures
        ({
            let want = merge_nodes(
                MergeState { meshes: lists_of(meshes@), merged: Seq::empty(), node_mesh: Seq::empty() },
                lists_of(node_meshes@),
            );
            merged_of(r.0@) == want.merged && r.1@ == want.node_mesh
        }),
{
    let ghost st0 = MergeState { meshes: lists_of(meshes@), merged: Seq::<(usize, Seq<P>)>::empty(), node_mesh: Seq::<Option<usize>>::empty() };
    let ghost nodes = lists_of(node_meshes@);
    let mut meshes = meshes;
    let mut merged: Vec<MergedMesh<P>> = Vec::new();
    let mut node_mesh: Vec<Option<usize>> = Vec::new();
    let mut i: usize = 0;
    assert(nodes.take(0) =~= Seq::<Seq<usize>>::empty());
    assert(merged_of(merged@) =~= Seq::<(usize, Seq<P>)>::empty());
    while i < node_meshes.len()
        invariant
            nodes == lists_of(node_meshes@),
            i <= node_meshes@.len(),
            ({
                let s = merge_nodes(st0, nodes.take(i as int));
                &&& lists_of(meshes@) == s.meshes
                &&& merged_of(merged@) == s.merged
                &&& node_mesh@ == s.node_mesh
            }),
        decreases node_meshes@.len() - i,
    {
        let ms = &node_meshes[i];
        assert(nodes.take(i + 1).drop_last() =~= nodes.take(i as int));
        assert(nodes.take(i + 1).last() == ms@);
        let ghost s1 = merge_nodes(st0, nodes.take(i as int));
        let mut first: Option<MergedMesh<P>> = None;
        let mut k: usize = 0;
        while k < ms.len()
            invariant
                *ms == node_meshes@[i as int],
                k <= ms@.len(),
                lists_of(meshes@).len() == s1.meshes.len(),
                ({
                    let r = merge_meshes_of(s1.meshes, None, ms@.take(k as int));
                    &&& lists_of(meshes@) == r.0
                    &&& match first {
                        Some(f) => r.1 == Some((f.source, f.primitives@)),
                        None => r.1 is None,
                    }
                }),
            decreases ms@.len() - k,
        {
            let m = ms[k];
            assert(ms@.take(k + 1).drop_last() =~= ms@.take(k as int));
            assert(ms@.take(k + 1).last() == m);
            proof {
                lemma_merge_meshes_len(s1.meshes, None, ms@.take(k as int));
            }
            if m < meshes.len() {
                let ghost before = lists_of(meshes@);
                match first {
                    Some(mut f) => {
                        let mut taken: Vec<P> = Vec::new();
                        std::mem::swap(&mut taken, &mut meshes[m]);
                        append_all(&mut f.primitives, &taken);
                        assert(lists_of(meshes@) =~= before.update(m as int, Seq::empty()));
                        first = Some(f);
                    },
                    None => {
                        let mut copy: Vec<P> = Vec::new();
                        append_all(&mut copy, &meshes[m]);
                        assert(copy@ =~= before[m as int]);
                        first = Some(MergedMesh { source: m, primitives: copy });
                    },
                }
            }
            k = k + 1;
        }
        assert(ms@.take(ms@.len() as int) =~= ms@);
        match first {
            Some(f) => {
                let idx = merged.len();
                merged.push(f);
                node_mesh.push(Some(idx));
                assert(merged_of(merged@) =~= s1.merged.push((f.source, f.primitives@)));
            },
            None => {
                node_mesh.push(None);
            },
        }
        i = i + 1;
    }
    assert(nodes.take(node_meshes@.len() as int) =~= nodes);
    (merged, node_mesh)
}

/// The primitives of the meshes `ms`, one mesh after the other.
pub open spec fn concat_of<P>(meshes: Seq<Seq<P>>, ms: Seq<usize>) -> Seq<P>
    decreases ms.len(),
{
    if ms.len() == 0 {
        Seq::empty()
    } else {
        concat_of(meshes, ms.drop_last()) + meshes[ms.last() as int]
    }
}

/// How many entries of `s` are `Some`.
pub open spec fn count_some(s: Seq<Option<usize>>) -> nat
    decreases s.len(),
{
    if s.len() == 0 {
        0
    } else {
        count_some(s.drop_last()) + if s.last() is Some { 1nat } else { 0nat }
    }
}

proof fn lemma_merge_meshes_frame<P>(meshes: Seq<Seq<P>>, first: Option<(usize, Seq<P>)>, ms: Seq<usize>, p: usize)
    requires
        !ms.contains(p),
        p < meshes.len(),
    ensures
        merge_meshes_of(meshes, first, ms).0[p as int] == meshes[p as int],
    decreases ms.len(),
{
    if ms.len() > 0 {
        lemma_merge_meshes_len(meshes, first, ms.drop_last());
        assert(!ms.drop_last().contains(p)) by {
            if ms.drop_last().contains(p) {
                let j = choose|j: int| 0 <= j < ms.drop_last().len() && ms.drop_last()[j] == p;
                assert(ms[j] == p);
            }
        }
        lemma_merge_meshes_frame(meshes, first, ms.drop_last(), p);
        assert(ms.last() != p) by {
            assert(ms[ms.len() - 1] == ms.last());
        }
    }
}

proof fn lemma_count_some_len(s: Seq<Option<usize>>)
    ensures
        count_some(s) <= s.len(),
    decreases s.len(),
{
    if s.len() > 0 {
        lemma_count_some_len(s.drop_last());
    }
}

proof fn lemma_merge_meshes_none<P>(meshes: Seq<Seq<P>>, ms: Seq<usize>)
    ensures
        (merge_meshes_of(meshes, None, ms).1 is None) <==> (forall|j: int| 0 <= j < ms.len() ==> ms[j] >= meshes.len()),
    decreases ms.len(),
{
    if ms.len() > 0 {
        lemma_merge_meshes_none(meshes, ms.drop_last());
        lemma_merge_meshes_len(meshes, None, ms.drop_last());
        let r = merge_meshes_of(meshes, None, ms.drop_last());
        if r.1 is None {
            assert forall|j: int| 0 <= j < ms.len() - 1 implies ms[j] >= meshes.len() by {
                assert(ms.drop_last()[j] == ms[j]);
            }
        } else {
            let j0 = choose|j: int| !(0 <= j < ms.drop_last().len() ==> ms.drop_last()[j] >= meshes.len());
            assert(ms[j0] == ms.drop_last()[j0]);
        }
    }
}

proof fn lemma_merge_meshes_joined<P>(meshes: Seq<Seq<P>>, ms: Seq<usize>)
    requires
        ms.len() > 0,
        ms.no_duplicates(),
        forall|j: int| 0 <= j < ms.len() ==> ms[j] < meshes.len(),
    ensures
        merge_meshes_of(meshes, None, ms).1 == Some((ms[0], concat_of(meshes, ms))),
    decreases ms.len(),
{
    let d = ms.drop_last();
    let m = ms.last();
    assert(!d.contains(m)) by {
        if d.contains(m) {
            let j = choose|j: int| 0 <= j < d.len() && d[j] == m;
            assert(ms[j] == ms[ms.len() - 1]);
        }
    }
    lemma_merge_meshes_len(meshes, None, d);
    lemma_merge_meshes_frame(meshes, None, d, m);
    assert(ms[ms.len() - 1] < meshes.len());
    if d.len() == 0 {
        assert(concat_of(meshes, d) =~= Seq::<P>::empty());
        assert(concat_of(meshes, ms) =~= meshes[m as int]);
    } else {
        assert(d.no_duplicates()) by {
            assert forall|p: int, q: int| 0 <= p < d.len() && 0 <= q < d.len() && p != q implies d[p] != d[q] by {
                assert(d[p] == ms[p] && d[q] == ms[q]);
            }
        }
        assert forall|j: int| 0 <= j < d.len() implies d[j] < meshes.len() by {
            assert(d[j] == ms[j]);
        }
        lemma_merge_meshes_joined(meshes, d);
        assert(d[0] == ms[0]);
    }
}

proof fn lemma_concat_frame<P>(a: Seq<Seq<P>>, b: Seq<Seq<P>>, ms: Seq<usize>)
    requires
        forall|j: int| 0 <= j < ms.len() ==> a[ms[j] as int] == b[ms[j] as int],
    ensures
        concat_of(a, ms) == concat_of(b, ms),
    decreases ms.len(),
{
    if ms.len() > 0 {
        assert forall|j: int| 0 <= j < ms.len() - 1 implies a[ms.drop_last()[j] as int] == b[ms.drop_last()[j] as int] by {
            assert(ms.drop_last()[j] == ms[j]);
        }
        lemma_concat_frame(a, b, ms.drop_last());
        assert(a[ms[ms.len() - 1] as int] == b[ms[ms.len() - 1] as int]);
    }
}

proof fn lemma_merge_nodes_shape<P>(st: MergeState<P>, nodes: Seq<Seq<usize>>)
    ensures
        merge_nodes(st, nodes).meshes.len() == st.meshes.len(),
        merge_nodes(st, nodes).node_mesh.len() == st.node_mesh.len() + nodes.len(),
        merge_nodes(st, nodes).merged.len() + count_some(st.node_mesh)
            == st.merged.len() + count_some(merge_nodes(st, nodes).node_mesh),
        merge_nodes(st, nodes).node_mesh.take(st.node_mesh.len() as int) == st.node_mesh,
        forall|p: usize| p < st.meshes.len() && (forall|m: int, j: int| 0 <= m < nodes.len() && 0 <= j < nodes[m].len() ==> nodes[m][j] != p)
            ==> #[trigger] merge_nodes(st, nodes).meshes[p as int] == st.meshes[p as int],
    decreases nodes.len(),
{
    if nodes.len() > 0 {
        let d = nodes.drop_last();
        lemma_merge_nodes_shape(st, d);
        let s1 = merge_nodes(st, d);
        lemma_merge_meshes_len(s1.meshes, None, nodes.last());
        let r = merge_nodes(st, nodes);
        assert(r.node_mesh.drop_last() =~= s1.node_mesh);
        assert(r.node_mesh.take(st.node_mesh.len() as int) =~= s1.node_mesh.take(st.node_mesh.len() as int));
        assert forall|p: usize| p < st.meshes.len() && (forall|m: int, j: int| 0 <= m < nodes.len() && 0 <= j < nodes[m].len() ==> nodes[m][j] != p)
            implies #[trigger] r.meshes[p as int] == st.meshes[p as int] by {
            assert forall|m: int, j: int| 0 <= m < d.len() && 0 <= j < d[m].len() implies d[m][j] != p by {
                assert(d[m] == nodes[m]);
            }
            assert(s1.meshes[p as int] == st.meshes[p as int]);
            assert(!nodes.last().contains(p)) by {
                if nodes.last().contains(p) {
                    let j = choose|j: int| 0 <= j < nodes.last().len() && nodes.last()[j] == p;
                    assert(nodes[nodes.len() - 1][j] == p);
                }
            }
            lemma_merge_meshes_frame(s1.meshes, None, nodes.last(), p);
        }
    }
}

proof fn lemma_merge_nodes_prefix<P>(st: MergeState<P>, nodes: Seq<Seq<usize>>, k: int)
    requires
        0 <= k <= nodes.len(),
    ensures
        merge_nodes(st, nodes.take(k)).node_mesh
            == merge_nodes(st, nodes).node_mesh.take(merge_nodes(st, nodes.take(k)).node_mesh.len() as int),
        merge_nodes(st, nodes.take(k)).merged
            == merge_nodes(st, nodes).merged.take(merge_nodes(st, nodes.take(k)).merged.len() as int),
        merge_nodes(st, nodes.take(k)).merged.len() <= merge_nodes(st, nodes).merged.len(),
    decreases nodes.len(),
{
    if k == nodes.len() {
        assert(nodes.take(k) =~= nodes);
        let r = merge_nodes(st, nodes);
        assert(r.node_mesh.take(r.node_mesh.len() as int) =~= r.node_mesh);
        assert(r.merged.take(r.merged.len() as int) =~= r.merged);
    } else {
        let d = nodes.drop_last();
        assert(d.take(k) =~= nodes.take(k));
        lemma_merge_nodes_prefix(st, d, k);
        let s1 = merge_nodes(st, d);
        let r = merge_nodes(st, nodes);
        let q = merge_nodes(st, nodes.take(k));
        lemma_merge_nodes_shape(st, d);
        lemma_merge_nodes_shape(st, nodes.take(k));
        assert(q.node_mesh.len() <= s1.node_mesh.len());
        assert(r.node_mesh.take(q.node_mesh.len() as int) =~= s1.node_mesh.take(q.node_mesh.len() as int));
        assert(r.merged.take(q.merged.len() as int) =~= s1.merged.take(q.merged.len() as int));
    }
}

/// Merging the meshes of the nodes into one mesh per node: every node gets
/// a merged mesh exactly when at least one of its meshes exists, the
/// merged meshes are as many as the nodes that got one, and a node whose
/// meshes all exist, are distinct and are named by no earlier node gets a
/// merged mesh that is a copy of its first mesh holding the primitives of
/// all its meshes, in the order the node names them.
pub proof fn lemma_merge_joins_node_meshes<P>(meshes: Seq<Seq<P>>, nodes: Seq<Seq<usize>>, n: int)
    requires
        0 <= n < nodes.len(),
        nodes.len() <= usize::MAX,
    ensures
        ({
            let r = merge_nodes(MergeState { meshes, merged: Seq::empty(), node_mesh: Seq::empty() }, nodes);
            &&& r.node_mesh.len() == nodes.len()
            &&& r.merged.len() == count_some(r.node_mesh)
            &&& (r.node_mesh[n] is None <==> forall|j: int| 0 <= j < nodes[n].len() ==> nodes[n][j] >= meshes.len())
            &&& ({
                &&& nodes[n].len() > 0
                &&& nodes[n].no_duplicates()
                &&& forall|j: int| 0 <= j < nodes[n].len() ==> nodes[n][j] < meshes.len()
                &&& forall|m: int, j: int, k: int| 0 <= m < n && 0 <= j < nodes[m].len() && 0 <= k < nodes[n].len()
                    ==> nodes[m][j] != nodes[n][k]
            }) ==> {
                &&& r.node_mesh[n] is Some
                &&& r.node_mesh[n]->0 < r.merged.len()
                &&& r.merged[r.node_mesh[n]->0 as int] == (nodes[n][0], concat_of(meshes, nodes[n]))
            }
        }),
{
    let st = MergeState { meshes, merged: Seq::<(usize, Seq<P>)>::empty(), node_mesh: Seq::<Option<usize>>::empty() };
    let r = merge_nodes(st, nodes);
    lemma_merge_nodes_shape(st, nodes);
    assert(count_some(st.node_mesh) == 0);
    let before = nodes.take(n);
    let upto = nodes.take(n + 1);
    lemma_merge_nodes_shape(st, before);
    lemma_merge_nodes_prefix(st, nodes, n + 1);
    let s1 = merge_nodes(st, before);
    let s2 = merge_nodes(st, upto);
    assert(upto.drop_last() =~= before);
    assert(upto.last() == nodes[n]);
    lemma_merge_meshes_none(s1.meshes, nodes[n]);
    assert(s2.node_mesh.len() == n + 1);
    assert(r.node_mesh[n] == s2.node_mesh[n]);
    assert(s2.node_mesh[n] == s2.node_mesh.last());
    if nodes[n].len() > 0 && nodes[n].no_duplicates() && (forall|j: int| 0 <= j < nodes[n].len() ==> nodes[n][j] < meshes.len())
        && (forall|m: int, j: int, k: int| 0 <= m < n && 0 <= j < nodes[m].len() && 0 <= k < nodes[n].len()
            ==> nodes[m][j] != nodes[n][k]) {
        assert forall|j: int| 0 <= j < nodes[n].len() implies s1.meshes[nodes[n][j] as int] == meshes[nodes[n][j] as int] by {
            let p = nodes[n][j];
            assert forall|m: int, i: int| 0 <= m < before.len() && 0 <= i < before[m].len() implies before[m][i] != p by {
                assert(before[m] == nodes[m]);
            }
        }
        lemma_count_some_len(s1.node_mesh);
        lemma_merge_meshes_joined(s1.meshes, nodes[n]);
        lemma_concat_frame(s1.meshes, meshes, nodes[n]);
        assert(s2.merged.last() == (nodes[n][0], concat_of(meshes, nodes[n])));
        assert(s2.node_mesh[n] == Some(s1.merged.len() as usize));
        assert(r.merged[s1.merged.len() as int] == s2.merged[s1.merged.len() as int]);
    }
}

/// What a buffer view of the exported document holds.
#[derive(Clone, Copy, Debug, PartialEq, Eq, Structural)]
pub enum ViewTarget {
    /// Vertex attributes.
    ArrayBuffer,
    /// Indices.
    ElementArrayBuffer,
}

/// A buffer view of the exported document, over the body buffer.
#[derive(Clone, Copy, Debug, PartialEq, Eq, Structural)]
pub struct ViewEntry {
    pub byte_offset: usize,
    pub byte_length: usize,
    pub target: ViewTarget,
}

/// The accessor data was appended under: its buffer view and its element
/// count.
#[derive(Clone, Copy, Debug, PartialEq, Eq, Structural)]
pub struct AccessorPlace {
    pub view: usize,
    pub count: usize,
}

/// Appends the data of an accessor to the body buffer: nothing for empty
/// data; else first as many zero bytes as the buffer length modulo the
/// component size, then the data, under a new buffer view over the data
/// at that offset. The accessor counts the data's elements:
/// `(length / components) / component size`.
pub fn export_data(
    views: &mut Vec<ViewEntry>,
    buffer_data: &mut Vec<u8>,
    data: Vec<u8>,
    bytes_per_component: usize,
    components: usize,
    target: ViewTarget,
) -> (r: Option<AccessorPlace>)
    requires
        bytes_per_component > 0,
        components > 0,
        old(buffer_data)@.len() + old(buffer_data)@.len() % (bytes_per_component as nat) + data@.len() <= usize::MAX,
    ensures
        data@.len() == 0 ==> r is None && *final(views) == *old(views) && *final(buffer_data) == *old(buffer_data),
        data@.len() > 0 ==> {
            let old_len = old(buffer_data)@.len();
            let pad = old_len % (bytes_per_component as nat);
            &&& final(buffer_data)@ == old(buffer_data)@ + Seq::new(pad, |i: int| 0u8) + data@
            &&& final(views)@ == old(views)@.push(ViewEntry {
                byte_offset: (old_len + pad) as usize,
                byte_length: data@.len() as usize,
                target,
            })
            &&& r == Some(AccessorPlace {
                view: old(views)@.len() as usize,
                count: ((data@.len() / (components as nat)) / (bytes_per_component as nat)) as usize,
            })
        },
{
    if data.len() == 0 {
        return None;
    }
    let ghost old_buf = buffer_data@;
    let old_len = buffer_data.len();
    let padding = old_len % bytes_per_component;
    let offset = old_len + padding;
    let length = data.len();
    let count = (length / components) / bytes_per_component;
    let mut p: usize = 0;
    while p < padding
        invariant
            p <= padding,
            buffer_data@ == old_buf + Seq::new(p as nat, |i: int| 0u8),
        decreases padding - p,
    {
        buffer_data.push(0);
        assert(old_buf + Seq::new((p + 1) as nat, |i: int| 0u8) =~= (old_buf + Seq::new(p as nat, |i: int| 0u8)).push(0u8));
        p = p + 1;
    }
    let ghost head = buffer_data@;
    let mut i: usize = 0;
    while i < length
        invariant
            length == data@.len(),
            i <= length,
            buffer_data@ == head + data@.take(i as int),
        decreases length - i,
    {
        buffer_data.push(data[i]);
        assert(data@.take(i + 1) =~= data@.take(i as int).push(data@[i as int]));
        i = i + 1;
    }
    assert(data@.take(length as int) =~= data@);
    let view = views.len();
    views.push(ViewEntry { byte_offset: offset, byte_length: length, target });
    Some(AccessorPlace { view, count })
}

/// What appending accessor data does to the body buffer (as `export_data`
/// states it): fewer zero bytes than a component has come first, the bytes
/// before stay as they were, and the data fills the buffer from the offset
/// its view records (the old length plus the padding) to the end.
pub proof fn lemma_accessor_append(buf: Seq<u8>, data: Seq<u8>, bpc: nat)
    requires
        bpc > 0,
    ensures
        ({
            let pad = buf.len() % bpc;
            let out = buf + Seq::new(pad, |i: int| 0u8) + data;
            &&& pad < bpc
            &&& out.take(buf.len() as int) == buf
            &&& out.subrange((buf.len() + pad) as int, out.len() as int) == data
            &&& buf.len() + pad + data.len() == out.len()
        }),
{
    let pad = buf.len() % bpc;
    let out = buf + Seq::new(pad, |i: int| 0u8) + data;
    assert(out.take(buf.len() as int) =~= buf);
    assert(out.subrange((buf.len() + pad) as int, out.len() as int) =~= data);
}

/// Byte `j` (from the least significant) of a 32-bit value.
pub open spec fn byte_of(x: u32, j: int) -> u8 {
    if j == 0 {
        (x % 256) as u8
    } else if j == 1 {
        ((x / 256) % 256) as u8
    } else if j == 2 {
        ((x / 65536) % 256) as u8
    } else {
        (x / 16777216) as u8
    }
}

/// The little-endian bytes of a list of 32-bit values.
pub open spec fn le_bytes_u32(v: Seq<u32>) -> Seq<u8> {
    Seq::new(4 * v.len(), |k: int| byte_of(v[k / 4], k % 4))
}

/// The smallest and largest of a list of values (none when it is empty).
pub open spec fn bounds_u32(v: Seq<u32>) -> Option<(u32, u32)> {
    if v.len() == 0 {
        None
    } else {
        Some((
            choose|lo: u32| v.contains(lo) && forall|i: int| 0 <= i < v.len() ==> lo <= v[i],
            choose|hi: u32| v.contains(hi) && forall|i: int| 0 <= i < v.len() ==> v[i] <= hi,
        ))
    }
}

/// The little-endian bytes of a list of 32-bit values, with its smallest
/// and largest value (none when it is empty).
pub fn u32_bytes(v: &Vec<u32>) -> (r: (Vec<u8>, Option<(u32, u32)>))
    requires
        4 * v@.len() <= usize::MAX,
    ensures
        r.0@ == le_bytes_u32(v@),
        r.1 == bounds_u32(v@),
{
    let mut out: Vec<u8> = Vec::new();
    let mut lo: u32 = 0;
    let mut hi: u32 = 0;
    let mut i: usize = 0;
    while i < v.len()
        invariant
            4 * v@.len() <= usize::MAX,
            i <= v.len(),
            out@ == le_bytes_u32(v@).take(4 * i),
            i > 0 ==> (exists|k: int| 0 <= k < i && v@[k] == lo) && (exists|k: int| 0 <= k < i && v@[k] == hi),
            i > 0 ==> forall|k: int| 0 <= k < i ==> lo <= v@[k] && v@[k] <= hi,
        decreases v.len() - i,
    {
        let x = v[i];
        if i == 0 || x < lo {
            lo = x;
        }
        if i == 0 || x > hi {
            hi = x;
        }
        out.push((x % 256) as u8);
        out.push(((x / 256) % 256) as u8);
        out.push(((x / 65536) % 256) as u8);
        out.push((x / 16777216) as u8);
        proof {
            let b = le_bytes_u32(v@);
            lemma_div_mod_of(i as int, 4, 0);
            lemma_div_mod_of(i as int, 4, 1);
            lemma_div_mod_of(i as int, 4, 2);
            lemma_div_mod_of(i as int, 4, 3);
            assert(b.take(4 * i + 4) =~= b.take(4 * i).push(b[4 * i]).push(b[4 * i + 1]).push(b[4 * i + 2]).push(b[4 * i + 3]));
        }
        i = i + 1;
    }
    assert(le_bytes_u32(v@).take(4 * v.len()) =~= le_bytes_u32(v@));
    if v.len() == 0 {
        (out, None)
    } else {
        proof {
            let klo = choose|k: int| 0 <= k < v.len() && v@[k] == lo;
            let khi = choose|k: int| 0 <= k < v.len() && v@[k] == hi;
            assert(v@.contains(lo));
            assert(v@.contains(hi));
            let l = choose|l: u32| v@.contains(l) && forall|k: int| 0 <= k < v@.len() ==> l <= v@[k];
            let h = choose|h: u32| v@.contains(h) && forall|k: int| 0 <= k < v@.len() ==> v@[k] <= h;
            let il = choose|k: int| 0 <= k < v@.len() && v@[k] == l;
            let ih = choose|k: int| 0 <= k < v@.len() && v@[k] == h;
            assert(l <= v@[klo]);
            assert(lo <= v@[il]);
            assert(v@[khi] <= h);
            assert(v@[ih] <= hi);
        }
        (out, Some((lo, hi)))
    }
}

/// Exports 32-bit indices as a scalar accessor over an element-array view
/// (see `export_data`), with their smallest and largest value; nothing for
/// an empty list.
pub fn export_u32(views: &mut Vec<ViewEntry>, buffer_data: &mut Vec<u8>, indices: &Vec<u32>)
    -> (r: Option<(AccessorPlace, (u32, u32))>)
    requires
        old(buffer_data)@.len() + 4 + 4 * indices@.len() <= usize::MAX,
    ensures
        indices@.len() == 0 ==> r is None && *final(views) == *old(views) && *final(buffer_data) == *old(buffer_data),
        indices@.len() > 0 ==> {
            let old_len = old(buffer_data)@.len();
            let pad = old_len % 4;
            &&& final(buffer_data)@ == old(buffer_data)@ + Seq::new(pad, |i: int| 0u8) + le_bytes_u32(indices@)
            &&& final(views)@ == old(views)@.push(ViewEntry {
                byte_offset: (old_len + pad) as usize,
                byte_length: (4 * indices@.len()) as usize,
                target: ViewTarget::ElementArrayBuffer,
            })
            &&& r == Some((AccessorPlace { view: old(views)@.len() as usize, count: indices@.len() as usize },
                bounds_u32(indices@)->0))
        },
{
    if indices.len() == 0 {
        return None;
    }
    let (data, bounds) = u32_bytes(indices);
    let ghost n = indices@.len();
    assert(data@.len() == 4 * n);
    assert((4 * n) / 1 / 4 == n) by (nonlinear_arith);
    let place = export_data(views, buffer_data, data, 4, 1, ViewTarget::ElementArrayBuffer);
    match (place, bounds) {
        (Some(p), Some(b)) => Some((p, b)),
        _ => None,
    }
}

/// The smallest of `m` and the values of `s`.
pub open spec fn min_from(m: usize, s: Seq<usize>) -> usize
    decreases s.len(),
{
    if s.len() == 0 {
        m
    } else {
        let x = min_from(m, s.drop_last());
        if s.last() < x { s.last() } else { x }
    }
}

/// The largest of `m` and the values of `s`.
pub open spec fn max_from(m: usize, s: Seq<usize>) -> usize
    decreases s.len(),
{
    if s.len() == 0 {
        m
    } else {
        let x = max_from(m, s.drop_last());
        if s.last() > x { s.last() } else { x }
    }
}

/// The values of groups of four, in order.
pub open spec fn flat4(v: Seq<[usize; 4]>) -> Seq<usize> {
    Seq::new(4 * v.len(), |k: int| v[k / 4]@[k % 4])
}

/// Values as 32-bit values (the low 32 bits of each).
pub open spec fn low32(v: Seq<usize>) -> Seq<u32> {
    Seq::new(v.len(), |k: int| v[k] as u32)
}

/// Exports groups of four joint indices as a four-component accessor of
/// 32-bit values (the low 32 bits of each index) over an element-array
/// view (see `export_data`), with the smallest of `u32::MAX` and the
/// indices, and the largest of 0 and the indices; nothing for an empty
/// list.
pub fn export_usize_4(views: &mut Vec<ViewEntry>, buffer_data: &mut Vec<u8>, groups: &Vec<[usize; 4]>)
    -> (r: Option<(AccessorPlace, (usize, usize))>)
    requires
        old(buffer_data)@.len() + 4 + 16 * groups@.len() <= usize::MAX,
    ensures
        groups@.len() == 0 ==> r is None && *final(views) == *old(views) && *final(buffer_data) == *old(buffer_data),
        groups@.len() > 0 ==> {
            let old_len = old(buffer_data)@.len();
            let pad = old_len % 4;
            let flat = flat4(groups@);
            &&& final(buffer_data)@ == old(buffer_data)@ + Seq::new(pad, |i: int| 0u8) + le_bytes_u32(low32(flat))
            &&& final(views)@ == old(views)@.push(ViewEntry {
                byte_offset: (old_len + pad) as usize,
                byte_length: (16 * groups@.len()) as usize,
                target: ViewTarget::ElementArrayBuffer,
            })
            &&& r == Some((AccessorPlace { view: old(views)@.len() as usize, count: groups@.len() as usize },
                (min_from(0xffff_ffffusize, flat), max_from(0usize, flat))))
        },
{
    if groups.len() == 0 {
        return None;
    }
    let ghost flat = flat4(groups@);
    let mut values: Vec<u32> = Vec::new();
    let mut lo: usize = 0xffff_ffff;
    let mut hi: usize = 0;
    let mut i: usize = 0;
    while i < groups.len()
        invariant
            flat == flat4(groups@),
            16 * groups@.len() <= usize::MAX,
            i <= groups.len(),
            values@ == low32(flat).take(4 * i),
            lo == min_from(0xffff_ffffusize, flat.take(4 * i)),
            hi == max_from(0usize, flat.take(4 * i)),
        decreases groups.len() - i,
    {
        let g = groups[i];
        let mut j: usize = 0;
        while j < 4
            invariant
                flat == flat4(groups@),
                16 * groups@.len() <= usize::MAX,
                i < groups.len(),
                g == groups@[i as int],
                j <= 4,
                values@ == low32(flat).take(4 * i + j),
                lo == min_from(0xffff_ffffusize, flat.take(4 * i + j)),
                hi == max_from(0usize, flat.take(4 * i + j)),
            decreases 4 - j,
        {
            let x = g[j];
            proof {
                lemma_div_mod_of(i as int, 4, j as int);
                assert(flat[4 * i + j] == x);
                assert(flat.take(4 * i + j + 1).drop_last() =~= flat.take(4 * i + j));
                assert(low32(flat).take(4 * i + j + 1) =~= low32(flat).take(4 * i + j).push(x as u32));
            }
            if x < lo {
                lo = x;
            }
            if x > hi {
                hi = x;
            }
            values.push(#[verifier::truncate] (x as u32));
            j = j + 1;
        }
        i = i + 1;
    }
    assert(flat.take(4 * groups@.len() as int) =~= flat);
    assert(low32(flat).take(4 * groups@.len() as int) =~= low32(flat));
    let (data, _bounds) = u32_bytes(&values);
    let ghost n = groups@.len();
    assert(data@.len() == 16 * n);
    assert((16 * n) / 4 / 4 == n) by (nonlinear_arith);
    match export_data(views, buffer_data, data, 4, 4, ViewTarget::ElementArrayBuffer) {
        Some(p) => Some((p, (lo, hi))),
        None => None,
    }
}

} // verus!
