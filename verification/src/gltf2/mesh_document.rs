//! Assembling the meshes of an exported glTF 2.0 document: every scene
//! mesh with vertex positions becomes a primitive whose attributes,
//! indices and morph targets are accessors over the body buffer; the
//! primitives of each node's meshes are merged into one mesh of the node.
//! The accessor bytes of floating-point data (and their bounds) come ready
//! from the caller; index and joint data are laid out here.
use vstd::prelude::*;

use crate::gltf2::mesh_export::{
    bounds_u32, export_data, export_u32, export_usize_4, face_index_data, face_index_spec, flat4, le_bytes_u32,
    gets_skin, lists_of, low32, max_from, merge_node_meshes, merge_nodes, merged_of, min_from, skinned_nodes, AccessorPlace,
    concat_of, count_some, lemma_merge_joins_node_meshes, MergeState, MergedMesh, ViewEntry, ViewTarget,
};
use crate::gltf_v1::names::{generate_unique_name, unique_name_spec, UniqueNames};
use crate::gltf_v1::asset::PrimitiveMode;
use crate::gltf_v1::exporter::{primitive_mode, primitive_mode_spec};
use crate::scene::{faces_view, PrimitiveTypes};

verus! {

/// What an attribute of a primitive holds.
#[derive(Clone, Copy, Debug, PartialEq, Eq, Structural)]
pub enum AttributeSemantic {
    Positions,
    Normals,
    Tangents,
    TexCoords(u32),
    Colors(u32),
    Joints(u32),
    Weights(u32),
}

/// The bounds an accessor records: floating-point ones as the caller made
/// them, or the smallest and largest of unsigned data.
#[derive(Clone, Copy, Debug)]
pub enum AccessorBounds<B> {
    Float(B),
    Unsigned(usize, usize),
}

/// An accessor of the exported document: its view, its element count, its
/// component size and count, and its bounds.
#[derive(Clone, Copy, Debug)]
pub struct AccessorEntry<B> {
    pub view: usize,
    pub count: usize,
    pub component_size: usize,
    pub components: usize,
    pub bounds: AccessorBounds<B>,
}

/// The bytes of one accessor of floating-point data, as the caller laid
/// them out: component size and count, and bounds.
pub struct AccessorData<B> {
    pub bytes: Vec<u8>,
    pub component_size: usize,
    pub components: usize,
    pub bounds: B,
}

/// Accessor data as a value: bytes, component size and count, bounds.
pub open spec fn data_view<B>(d: AccessorData<B>) -> (Seq<u8>, usize, usize, AccessorBounds<B>) {
    (d.bytes@, d.component_size, d.components, AccessorBounds::Float(d.bounds))
}

/// Whether accessor data has a component size of one to four bytes and at
/// least one component.
pub open spec fn data_ok<B>(d: AccessorData<B>) -> bool {
    1 <= d.component_size <= 4 && d.components >= 1
}

/// The views and accessors of the document, with the body buffer.
pub struct DocState<B> {
    pub views: Seq<ViewEntry>,
    pub accessors: Seq<AccessorEntry<B>>,
    pub buffer: Seq<u8>,
}

/// Appending the data of one accessor: nothing for empty data; else the
/// body gets zero bytes up to its length modulo the component size, then
/// the data, under a new view, and a new accessor over that view counts
/// `(length / components) / component size` elements. Gives the new
/// accessor's index.
pub open spec fn push_spec<B>(st: DocState<B>, d: (Seq<u8>, usize, usize, AccessorBounds<B>), t: ViewTarget)
    -> (Option<usize>, DocState<B>)
{
    if d.0.len() == 0 {
        (None, st)
    } else {
        let pad = st.buffer.len() % (d.1 as nat);
        (
            Some(st.accessors.len() as usize),
            DocState {
                views: st.views.push(ViewEntry {
                    byte_offset: (st.buffer.len() + pad) as usize,
                    byte_length: d.0.len() as usize,
                    target: t,
                }),
                accessors: st.accessors.push(AccessorEntry {
                    view: st.views.len() as usize,
                    count: ((d.0.len() / (d.2 as nat)) / (d.1 as nat)) as usize,
                    component_size: d.1,
                    components: d.2,
                    bounds: d.3,
                }),
                buffer: st.buffer + Seq::new(pad, |i: int| 0u8) + d.0,
            },
        )
    }
}

/// The views, accessors and body of the document under construction.
pub struct MeshDoc<B> {
    pub views: Vec<ViewEntry>,
    pub accessors: Vec<AccessorEntry<B>>,
}

pub open spec fn doc_state<B>(doc: MeshDoc<B>, buffer: Seq<u8>) -> DocState<B> {
    DocState { views: doc.views@, accessors: doc.accessors@, buffer }
}

fn copy_bytes(v: &Vec<u8>) -> (r: Vec<u8>)
    ensures
        r@ == v@,
{
    let mut r: Vec<u8> = Vec::new();
    let mut i: usize = 0;
    while i < v.len()
        invariant
            i <= v.len(),
            r@ == v@.take(i as int),
        decreases v.len() - i,
    {
        r.push(v[i]);
        assert(v@.take(i + 1) =~= v@.take(i as int).push(v@[i as int]));
        i = i + 1;
    }
    assert(v@.take(v.len() as int) =~= v@);
    r
}

/// Appends one accessor of floating-point data (see `push_spec`).
fn push_data<B: Copy>(doc: &mut MeshDoc<B>, buffer: &mut Vec<u8>, d: &AccessorData<B>, t: ViewTarget) -> (r: Option<usize>)
    requires
        data_ok(*d),
        old(buffer)@.len() + 4 + d.bytes@.len() <= usize::MAX,
        old(doc).views@.len() < usize::MAX,
        old(doc).accessors@.len() < usize::MAX,
    ensures
        (r, doc_state(*final(doc), final(buffer)@)) == push_spec(doc_state(*old(doc), old(buffer)@), data_view(*d), t),
        final(buffer)@.len() <= old(buffer)@.len() + 4 + d.bytes@.len(),
{
    let bytes = copy_bytes(&d.bytes);
    let ghost n = doc.accessors@.len();
    match export_data(&mut doc.views, buffer, bytes, d.component_size, d.components, t) {
        None => None,
        Some(p) => {
            let i = doc.accessors.len();
            doc.accessors.push(AccessorEntry {
                view: p.view,
                count: p.count,
                component_size: d.component_size,
                components: d.components,
                bounds: AccessorBounds::Float(d.bounds),
            });
            Some(i)
        },
    }
}

/// The index data of faces as accessor data: little-endian 32-bit indices,
/// one component of four bytes, with their bounds.
pub open spec fn index_view<B>(faces: Seq<Seq<usize>>) -> (Seq<u8>, usize, usize, AccessorBounds<B>) {
    let ix = face_index_spec(faces);
    let b = bounds_u32(ix)->0;
    (le_bytes_u32(ix), 4usize, 1usize, AccessorBounds::Unsigned(b.0 as usize, b.1 as usize))
}

/// The number of indices of faces.
pub open spec fn index_count(faces: Seq<Seq<usize>>) -> nat {
    if faces.len() == 0 { 0 } else { faces.len() * faces[0].len() }
}

/// Whether every face has at least as many corners as the first.
pub open spec fn faces_ok(faces: Seq<Seq<usize>>) -> bool {
    faces.len() > 0 ==> forall|i: int| 0 <= i < faces.len() ==> (#[trigger] faces[i]).len() >= faces[0].len()
}

/// Appends the index data of faces as an accessor over an element-array
/// view (see `push_spec` and `index_view`).
fn push_indices<B: Copy>(doc: &mut MeshDoc<B>, buffer: &mut Vec<u8>, faces: &Vec<Vec<usize>>) -> (r: Option<usize>)
    requires
        faces_ok(faces_view(faces@)),
        old(buffer)@.len() + 4 + 4 * index_count(faces_view(faces@)) <= usize::MAX,
        old(doc).views@.len() < usize::MAX,
        old(doc).accessors@.len() < usize::MAX,
    ensures
        (r, doc_state(*final(doc), final(buffer)@))
            == push_spec(doc_state(*old(doc), old(buffer)@), index_view::<B>(faces_view(faces@)), ViewTarget::ElementArrayBuffer),
        final(buffer)@.len() <= old(buffer)@.len() + 4 + 4 * index_count(faces_view(faces@)),
{
    let ghost fv = faces_view(faces@);
    proof {
        if faces@.len() > 0 {
            assert(fv[0].len() == faces@[0]@.len());
            assert(faces.len() * faces@[0].len() <= 4 * (faces.len() * faces@[0].len()));
            assert forall|i: int| 0 <= i < faces.len() implies (#[trigger] faces@[i]).len() >= faces@[0].len() by {
                assert(fv[i].len() >= fv[0].len());
            }
        }
    }
    let ix = face_index_data(faces);
    proof {
        if faces@.len() > 0 {
            assert(ix@.len() == fv.len() * fv[0].len());
        } else {
            assert(ix@.len() == 0);
        }
    }
    match export_u32(&mut doc.views, buffer, &ix) {
        None => None,
        Some((p, (lo, hi))) => {
            let i = doc.accessors.len();
            proof {
                let n = ix@.len();
                assert((4 * n) / 1 / 4 == n) by (nonlinear_arith);
            }
            doc.accessors.push(AccessorEntry {
                view: p.view,
                count: p.count,
                component_size: 4,
                components: 1,
                bounds: AccessorBounds::Unsigned(lo as usize, hi as usize),
            });
            Some(i)
        },
    }
}

/// Joint indices in groups of four as accessor data: the low 32 bits of
/// each, little-endian, four components of four bytes; bounds the
/// smallest of `u32::MAX` and the indices and the largest of 0 and them.
pub open spec fn joint_view<B>(groups: Seq<[usize; 4]>) -> (Seq<u8>, usize, usize, AccessorBounds<B>) {
    let flat = flat4(groups);
    (le_bytes_u32(low32(flat)), 4usize, 4usize, AccessorBounds::Unsigned(min_from(0xffff_ffffusize, flat), max_from(0usize, flat)))
}

/// Appends joint indices as an accessor over an element-array view (see
/// `push_spec` and `joint_view`).
fn push_joints<B: Copy>(doc: &mut MeshDoc<B>, buffer: &mut Vec<u8>, groups: &Vec<[usize; 4]>) -> (r: Option<usize>)
    requires
        old(buffer)@.len() + 4 + 16 * groups@.len() <= usize::MAX,
        old(doc).views@.len() < usize::MAX,
        old(doc).accessors@.len() < usize::MAX,
    ensures
        (r, doc_state(*final(doc), final(buffer)@))
            == push_spec(doc_state(*old(doc), old(buffer)@), joint_view::<B>(groups@), ViewTarget::ElementArrayBuffer),
        final(buffer)@.len() <= old(buffer)@.len() + 4 + 16 * groups@.len(),
{
    proof {
        let n = groups@.len();
        assert(flat4(groups@).len() == 4 * n);
        assert(le_bytes_u32(low32(flat4(groups@))).len() == 16 * n);
    }
    match export_usize_4(&mut doc.views, buffer, groups) {
        None => None,
        Some((p, (lo, hi))) => {
            let i = doc.accessors.len();
            proof {
                let n = groups@.len();
                assert((16 * n) / 4 / 4 == n) by (nonlinear_arith);
            }
            doc.accessors.push(AccessorEntry {
                view: p.view,
                count: p.count,
                component_size: 4,
                components: 4,
                bounds: AccessorBounds::Unsigned(lo, hi),
            });
            Some(i)
        },
    }
}

/// The room one optional accessor takes: its bytes and up to four padding
/// bytes.
pub open spec fn item_size<B>(o: Option<AccessorData<B>>) -> nat {
    match o {
        Some(d) => 4 + d.bytes@.len(),
        None => 0,
    }
}

/// The room a list of optional accessors takes.
pub open spec fn opt_size<B>(s: Seq<Option<AccessorData<B>>>) -> nat
    decreases s.len(),
{
    if s.len() == 0 { 0 } else { opt_size(s.drop_last()) + item_size(s.last()) }
}

/// Whether every accessor of a list is well formed.
pub open spec fn opt_ok<B>(s: Seq<Option<AccessorData<B>>>) -> bool {
    forall|i: int| 0 <= i < s.len() ==> match #[trigger] s[i] {
        Some(d) => data_ok(d),
        None => true,
    }
}

/// The semantic of the `i`th texture coordinate set or colour set.
pub open spec fn indexed_semantic(colors: bool, i: int) -> AttributeSemantic {
    if colors { AttributeSemantic::Colors(i as u32) } else { AttributeSemantic::TexCoords(i as u32) }
}

/// Appending the texture coordinate (or colour) sets that are there, in
/// order: each one that gives an accessor becomes an attribute under its
/// set's index.
pub open spec fn push_indexed_spec<B>(st: DocState<B>, items: Seq<Option<AccessorData<B>>>, colors: bool)
    -> (Seq<(AttributeSemantic, usize)>, DocState<B>)
    decreases items.len(),
{
    if items.len() == 0 {
        (Seq::empty(), st)
    } else {
        let r = push_indexed_spec(st, items.drop_last(), colors);
        match items.last() {
            None => r,
            Some(d) => {
                let p = push_spec(r.1, data_view(d), ViewTarget::ArrayBuffer);
                match p.0 {
                    Some(a) => (r.0.push((indexed_semantic(colors, items.len() - 1), a)), p.1),
                    None => (r.0, p.1),
                }
            },
        }
    }
}

proof fn lemma_opt_size_take<B>(s: Seq<Option<AccessorData<B>>>, k: int)
    requires
        0 <= k < s.len(),
    ensures
        opt_size(s.take(k + 1)) == opt_size(s.take(k)) + item_size(s[k]),
        opt_size(s.take(k)) <= opt_size(s),
        opt_size(s.take(k + 1)) <= opt_size(s),
    decreases s.len() - k,
{
    assert(s.take(k + 1).drop_last() =~= s.take(k));
    if k + 1 < s.len() {
        lemma_opt_size_take(s, k + 1);
    } else {
        assert(s.take(k + 1) =~= s);
    }
}

/// Appends the texture coordinate (or colour) sets (see
/// `push_indexed_spec`).
fn push_indexed<B: Copy>(doc: &mut MeshDoc<B>, buffer: &mut Vec<u8>, items: &Vec<Option<AccessorData<B>>>, colors: bool)
    -> (r: Vec<(AttributeSemantic, usize)>)
    requires
        opt_ok(items@),
        old(buffer)@.len() + opt_size(items@) <= usize::MAX,
        old(doc).views@.len() + opt_size(items@) < usize::MAX,
        old(doc).accessors@.len() + opt_size(items@) < usize::MAX,
    ensures
        (r@, doc_state(*final(doc), final(buffer)@)) == push_indexed_spec(doc_state(*old(doc), old(buffer)@), items@, colors),
        final(buffer)@.len() <= old(buffer)@.len() + opt_size(items@),
        final(doc).views@.len() <= old(doc).views@.len() + opt_size(items@),
        final(doc).accessors@.len() <= old(doc).accessors@.len() + opt_size(items@),
{
    let ghost st0 = doc_state(*doc, buffer@);
    let ghost b0 = buffer@.len();
    let ghost v0 = doc.views@.len();
    let ghost a0 = doc.accessors@.len();
    let mut attrs: Vec<(AttributeSemantic, usize)> = Vec::new();
    let mut k: usize = 0;
    assert(items@.take(0) =~= Seq::<Option<AccessorData<B>>>::empty());
    while k < items.len()
        invariant
            k <= items@.len(),
            opt_ok(items@),
            b0 + opt_size(items@) <= usize::MAX,
            v0 + opt_size(items@) < usize::MAX,
            a0 + opt_size(items@) < usize::MAX,
            opt_size(items@.take(k as int)) <= opt_size(items@),
            buffer@.len() <= b0 + opt_size(items@.take(k as int)),
            doc.views@.len() <= v0 + opt_size(items@.take(k as int)),
            doc.accessors@.len() <= a0 + opt_size(items@.take(k as int)),
            (attrs@, doc_state(*doc, buffer@)) == push_indexed_spec(st0, items@.take(k as int), colors),
        decreases items@.len() - k,
    {
        proof {
            lemma_opt_size_take(items@, k as int);
            assert(items@.take(k + 1).drop_last() =~= items@.take(k as int));
            assert(items@.take(k + 1).last() == items@[k as int]);
        }
        match &items[k] {
            None => {},
            Some(d) => {
                assert(data_ok(*d));
                let ghost before = attrs@;
                match push_data(doc, buffer, d, ViewTarget::ArrayBuffer) {
                    Some(a) => {
                        let sem = if colors {
                            AttributeSemantic::Colors(#[verifier::truncate] (k as u32))
                        } else {
                            AttributeSemantic::TexCoords(#[verifier::truncate] (k as u32))
                        };
                        attrs.push((sem, a));
                    },
                    None => {},
                }
            },
        }
        k = k + 1;
    }
    assert(items@.take(items@.len() as int) =~= items@);
    attrs
}

/// Attributes with one more, when there is an accessor for it.
pub open spec fn with_attr(attrs: Seq<(AttributeSemantic, usize)>, sem: AttributeSemantic, a: Option<usize>)
    -> Seq<(AttributeSemantic, usize)>
{
    match a {
        Some(x) => attrs.push((sem, x)),
        None => attrs,
    }
}

/// The room the joint and weight groups of a skinned mesh take.
pub open spec fn groups_size<B>(jg: Seq<Vec<[usize; 4]>>, wg: Seq<AccessorData<B>>) -> nat
    decreases jg.len(),
{
    if jg.len() == 0 || wg.len() == 0 {
        0
    } else {
        groups_size(jg.drop_last(), wg.drop_last()) + 8 + 16 * jg.last()@.len() + wg.last().bytes@.len()
    }
}

/// Appending the skin of a mesh, group by group: the joints of group `g`
/// (see `joint_view`) then its weights, both over element-array views, as
/// the attributes `JOINTS_g` and `WEIGHTS_g`.
pub open spec fn push_groups_spec<B>(st: DocState<B>, jg: Seq<Vec<[usize; 4]>>, wg: Seq<AccessorData<B>>)
    -> (Seq<(AttributeSemantic, usize)>, DocState<B>)
    decreases jg.len(),
{
    if jg.len() == 0 || wg.len() == 0 {
        (Seq::empty(), st)
    } else {
        let r = push_groups_spec(st, jg.drop_last(), wg.drop_last());
        let g = (jg.len() - 1) as u32;
        let j = push_spec(r.1, joint_view::<B>(jg.last()@), ViewTarget::ElementArrayBuffer);
        let w = push_spec(j.1, data_view(wg.last()), ViewTarget::ElementArrayBuffer);
        (with_attr(with_attr(r.0, AttributeSemantic::Joints(g), j.0), AttributeSemantic::Weights(g), w.0), w.1)
    }
}

proof fn lemma_groups_size_take<B>(jg: Seq<Vec<[usize; 4]>>, wg: Seq<AccessorData<B>>, k: int)
    requires
        jg.len() == wg.len(),
        0 <= k < jg.len(),
    ensures
        groups_size(jg.take(k + 1), wg.take(k + 1))
            == groups_size(jg.take(k), wg.take(k)) + 8 + 16 * jg[k]@.len() + wg[k].bytes@.len(),
        groups_size(jg.take(k + 1), wg.take(k + 1)) <= groups_size(jg, wg),
    decreases jg.len() - k,
{
    assert(jg.take(k + 1).drop_last() =~= jg.take(k));
    assert(wg.take(k + 1).drop_last() =~= wg.take(k));
    if k + 1 < jg.len() {
        lemma_groups_size_take(jg, wg, k + 1);
    } else {
        assert(jg.take(k + 1) =~= jg);
        assert(wg.take(k + 1) =~= wg);
    }
}

/// Appends the skin of a mesh (see `push_groups_spec`).
fn push_groups<B: Copy>(doc: &mut MeshDoc<B>, buffer: &mut Vec<u8>, jg: &Vec<Vec<[usize; 4]>>, wg: &Vec<AccessorData<B>>)
    -> (r: Vec<(AttributeSemantic, usize)>)
    requires
        jg@.len() == wg@.len(),
        forall|g: int| 0 <= g < wg@.len() ==> data_ok(#[trigger] wg@[g]),
        old(buffer)@.len() + groups_size(jg@, wg@) <= usize::MAX,
        old(doc).views@.len() + groups_size(jg@, wg@) < usize::MAX,
        old(doc).accessors@.len() + groups_size(jg@, wg@) < usize::MAX,
    ensures
        (r@, doc_state(*final(doc), final(buffer)@)) == push_groups_spec(doc_state(*old(doc), old(buffer)@), jg@, wg@),
        final(buffer)@.len() <= old(buffer)@.len() + groups_size(jg@, wg@),
        final(doc).views@.len() <= old(doc).views@.len() + groups_size(jg@, wg@),
        final(doc).accessors@.len() <= old(doc).accessors@.len() + groups_size(jg@, wg@),
{
    let ghost st0 = doc_state(*doc, buffer@);
    let ghost b0 = buffer@.len();
    let ghost v0 = doc.views@.len();
    let ghost a0 = doc.accessors@.len();
    let ghost total = groups_size(jg@, wg@);
    let mut attrs: Vec<(AttributeSemantic, usize)> = Vec::new();
    let mut g: usize = 0;
    assert(jg@.take(0) =~= Seq::<Vec<[usize; 4]>>::empty());
    assert(wg@.take(0) =~= Seq::<AccessorData<B>>::empty());
    while g < jg.len()
        invariant
            jg@.len() == wg@.len(),
            g <= jg@.len(),
            forall|t: int| 0 <= t < wg@.len() ==> data_ok(#[trigger] wg@[t]),
            total == groups_size(jg@, wg@),
            b0 + total <= usize::MAX,
            v0 + total < usize::MAX,
            a0 + total < usize::MAX,
            groups_size(jg@.take(g as int), wg@.take(g as int)) <= total,
            buffer@.len() <= b0 + groups_size(jg@.take(g as int), wg@.take(g as int)),
            doc.views@.len() <= v0 + groups_size(jg@.take(g as int), wg@.take(g as int)),
            doc.accessors@.len() <= a0 + groups_size(jg@.take(g as int), wg@.take(g as int)),
            (attrs@, doc_state(*doc, buffer@)) == push_groups_spec(st0, jg@.take(g as int), wg@.take(g as int)),
        decreases jg@.len() - g,
    {
        proof {
            lemma_groups_size_take(jg@, wg@, g as int);
            assert(jg@.take(g + 1).drop_last() =~= jg@.take(g as int));
            assert(wg@.take(g + 1).drop_last() =~= wg@.take(g as int));
            assert(jg@.take(g + 1).last() == jg@[g as int]);
            assert(wg@.take(g + 1).last() == wg@[g as int]);
        }
        let j = push_joints(doc, buffer, &jg[g]);
        match j {
            Some(a) => attrs.push((AttributeSemantic::Joints(#[verifier::truncate] (g as u32)), a)),
            None => {},
        }
        let w = push_data(doc, buffer, &wg[g], ViewTarget::ElementArrayBuffer);
        match w {
            Some(a) => attrs.push((AttributeSemantic::Weights(#[verifier::truncate] (g as u32)), a)),
            None => {},
        }
        g = g + 1;
    }
    assert(jg@.take(jg@.len() as int) =~= jg@);
    assert(wg@.take(wg@.len() as int) =~= wg@);
    attrs
}

/// A morph target of a mesh: the position differences, the normal
/// differences when they are exported, and its weight.
pub struct TargetInput<B, W> {
    pub positions: AccessorData<B>,
    pub normals: Option<AccessorData<B>>,
    pub weight: W,
}

/// The room the morph targets of a mesh take.
pub open spec fn targets_size<B, W>(ts: Seq<TargetInput<B, W>>) -> nat
    decreases ts.len(),
{
    if ts.len() == 0 {
        0
    } else {
        targets_size(ts.drop_last()) + 4 + ts.last().positions.bytes@.len() + item_size(ts.last().normals)
    }
}

/// Appending the morph targets of a mesh, in order: a target whose
/// positions give no accessor is passed over; else its positions, then its
/// normals (if any), and its weight is recorded.
pub open spec fn push_targets_spec<B, W>(st: DocState<B>, ts: Seq<TargetInput<B, W>>)
    -> (Seq<(usize, Option<usize>)>, Seq<W>, DocState<B>)
    decreases ts.len(),
{
    if ts.len() == 0 {
        (Seq::empty(), Seq::empty(), st)
    } else {
        let r = push_targets_spec(st, ts.drop_last());
        let t = ts.last();
        let p = push_spec(r.2, data_view(t.positions), ViewTarget::ArrayBuffer);
        match p.0 {
            None => (r.0, r.1, p.1),
            Some(a) => {
                let n = match t.normals {
                    Some(d) => push_spec(p.1, data_view(d), ViewTarget::ArrayBuffer),
                    None => (None, p.1),
                };
                (r.0.push((a, n.0)), r.1.push(t.weight), n.1)
            },
        }
    }
}

/// Whether the accessors of the morph targets are well formed.
pub open spec fn targets_ok<B, W>(ts: Seq<TargetInput<B, W>>) -> bool {
    forall|i: int| 0 <= i < ts.len() ==> data_ok((#[trigger] ts[i]).positions) && match ts[i].normals {
        Some(d) => data_ok(d),
        None => true,
    }
}

proof fn lemma_targets_size_take<B, W>(ts: Seq<TargetInput<B, W>>, k: int)
    requires
        0 <= k < ts.len(),
    ensures
        targets_size(ts.take(k + 1)) == targets_size(ts.take(k)) + 4 + ts[k].positions.bytes@.len() + item_size(ts[k].normals),
        targets_size(ts.take(k + 1)) <= targets_size(ts),
    decreases ts.len() - k,
{
    assert(ts.take(k + 1).drop_last() =~= ts.take(k));
    if k + 1 < ts.len() {
        lemma_targets_size_take(ts, k + 1);
    } else {
        assert(ts.take(k + 1) =~= ts);
    }
}

/// Appends the morph targets of a mesh (see `push_targets_spec`).
fn push_targets<B: Copy, W: Copy>(doc: &mut MeshDoc<B>, buffer: &mut Vec<u8>, ts: &Vec<TargetInput<B, W>>)
    -> (r: (Vec<(usize, Option<usize>)>, Vec<W>))
    requires
        targets_ok(ts@),
        old(buffer)@.len() + targets_size(ts@) <= usize::MAX,
        old(doc).views@.len() + targets_size(ts@) < usize::MAX,
        old(doc).accessors@.len() + targets_size(ts@) < usize::MAX,
    ensures
        (r.0@, r.1@, doc_state(*final(doc), final(buffer)@)) == push_targets_spec(doc_state(*old(doc), old(buffer)@), ts@),
        final(buffer)@.len() <= old(buffer)@.len() + targets_size(ts@),
        final(doc).views@.len() <= old(doc).views@.len() + targets_size(ts@),
        final(doc).accessors@.len() <= old(doc).accessors@.len() + targets_size(ts@),
{
    let ghost st0 = doc_state(*doc, buffer@);
    let ghost b0 = buffer@.len();
    let ghost v0 = doc.views@.len();
    let ghost a0 = doc.accessors@.len();
    let ghost total = targets_size(ts@);
    let mut targets: Vec<(usize, Option<usize>)> = Vec::new();
    let mut weights: Vec<W> = Vec::new();
    let mut k: usize = 0;
    assert(ts@.take(0) =~= Seq::<TargetInput<B, W>>::empty());
    while k < ts.len()
        invariant
            k <= ts@.len(),
            targets_ok(ts@),
            total == targets_size(ts@),
            b0 + total <= usize::MAX,
            v0 + total < usize::MAX,
            a0 + total < usize::MAX,
            targets_size(ts@.take(k as int)) <= total,
            buffer@.len() <= b0 + targets_size(ts@.take(k as int)),
            doc.views@.len() <= v0 + targets_size(ts@.take(k as int)),
            doc.accessors@.len() <= a0 + targets_size(ts@.take(k as int)),
            (targets@, weights@, doc_state(*doc, buffer@)) == push_targets_spec(st0, ts@.take(k as int)),
        decreases ts@.len() - k,
    {
        proof {
            lemma_targets_size_take(ts@, k as int);
            assert(ts@.take(k + 1).drop_last() =~= ts@.take(k as int));
            assert(ts@.take(k + 1).last() == ts@[k as int]);
        }
        let t = &ts[k];
        assert(data_ok(t.positions));
        match push_data(doc, buffer, &t.positions, ViewTarget::ArrayBuffer) {
            None => {},
            Some(a) => {
                let n = match &t.normals {
                    Some(d) => push_data(doc, buffer, d, ViewTarget::ArrayBuffer),
                    None => None,
                };
                targets.push((a, n));
                weights.push(t.weight);
            },
        }
        k = k + 1;
    }
    assert(ts@.take(ts@.len() as int) =~= ts@);
    (targets, weights)
}

/// A scene mesh as the exporter reads it: its name; its positions,
/// normals and tangents, its texture coordinate and colour sets, its
/// morph targets and the joint and weight groups of its skin, as accessor
/// data; its faces, primitive kinds and material.
pub struct MeshExportInput<B, W> {
    pub name: String,
    pub positions: AccessorData<B>,
    pub normals: AccessorData<B>,
    pub tangents: AccessorData<B>,
    pub tex_coords: Vec<Option<AccessorData<B>>>,
    pub colors: Vec<Option<AccessorData<B>>>,
    pub faces: Vec<Vec<usize>>,
    pub primitive_types: PrimitiveTypes,
    pub material_index: usize,
    pub joint_groups: Vec<Vec<[usize; 4]>>,
    pub weight_groups: Vec<AccessorData<B>>,
    pub targets: Vec<TargetInput<B, W>>,
}

/// Whether the data of a mesh is well formed: its accessors' sizes, faces
/// with at least as many corners as the first, one weight group per joint
/// group.
pub open spec fn mesh_ok<B, W>(m: MeshExportInput<B, W>) -> bool {
    &&& data_ok(m.positions)
    &&& data_ok(m.normals)
    &&& data_ok(m.tangents)
    &&& opt_ok(m.tex_coords@)
    &&& opt_ok(m.colors@)
    &&& faces_ok(faces_view(m.faces@))
    &&& m.joint_groups@.len() == m.weight_groups@.len()
    &&& forall|g: int| 0 <= g < m.weight_groups@.len() ==> data_ok(#[trigger] m.weight_groups@[g])
    &&& targets_ok(m.targets@)
}

/// The room the data of a mesh takes in the body.
pub open spec fn mesh_size<B, W>(m: MeshExportInput<B, W>) -> nat {
    12 + m.positions.bytes@.len() + m.normals.bytes@.len() + m.tangents.bytes@.len() + opt_size(m.tex_coords@)
        + opt_size(m.colors@) + 4 + 4 * index_count(faces_view(m.faces@)) + groups_size(m.joint_groups@, m.weight_groups@)
        + targets_size(m.targets@)
}

/// A primitive of the exported document, as a value.
pub struct PrimitiveView {
    pub attributes: Seq<(AttributeSemantic, usize)>,
    pub indices: Option<usize>,
    pub material: usize,
    pub mode: PrimitiveMode,
    pub targets: Option<Seq<(usize, Option<usize>)>>,
}

/// Exporting one mesh: nothing when its positions give no accessor; else
/// its positions, normals, tangents, texture coordinate sets, colour sets,
/// indices, skin groups and morph targets are appended in that order and
/// make up one primitive with its material and mode (see
/// `primitive_mode_spec`); a mesh with morph targets has their weights.
pub open spec fn mesh_spec<B, W>(st: DocState<B>, m: MeshExportInput<B, W>)
    -> (Option<(PrimitiveView, Option<Seq<W>>)>, DocState<B>)
{
    let p = push_spec(st, data_view(m.positions), ViewTarget::ArrayBuffer);
    match p.0 {
        None => (None, p.1),
        Some(pos) => {
            let n = push_spec(p.1, data_view(m.normals), ViewTarget::ArrayBuffer);
            let t = push_spec(n.1, data_view(m.tangents), ViewTarget::ArrayBuffer);
            let uv = push_indexed_spec(t.1, m.tex_coords@, false);
            let col = push_indexed_spec(uv.1, m.colors@, true);
            let ix = push_spec(col.1, index_view::<B>(faces_view(m.faces@)), ViewTarget::ElementArrayBuffer);
            let gr = push_groups_spec(ix.1, m.joint_groups@, m.weight_groups@);
            let tg = push_targets_spec(gr.1, m.targets@);
            let attrs = with_attr(with_attr(seq![(AttributeSemantic::Positions, pos)], AttributeSemantic::Normals, n.0),
                AttributeSemantic::Tangents, t.0) + uv.0 + col.0 + gr.0;
            let morphs = m.targets@.len() > 0;
            (
                Some((
                    PrimitiveView {
                        attributes: attrs,
                        indices: ix.0,
                        material: m.material_index,
                        mode: primitive_mode_spec(m.primitive_types),
                        targets: if morphs { Some(tg.0) } else { None },
                    },
                    if morphs { Some(tg.1) } else { None },
                )),
                tg.2,
            )
        },
    }
}

/// A primitive of the exported document.
pub struct PrimitiveEntry {
    pub attributes: Vec<(AttributeSemantic, usize)>,
    pub indices: Option<usize>,
    pub material: usize,
    pub mode: PrimitiveMode,
    pub targets: Option<Vec<(usize, Option<usize>)>>,
}

pub open spec fn primitive_view(p: PrimitiveEntry) -> PrimitiveView {
    PrimitiveView {
        attributes: p.attributes@,
        indices: p.indices,
        material: p.material,
        mode: p.mode,
        targets: match p.targets { Some(t) => Some(t@), None => None },
    }
}

fn append_attrs(dst: &mut Vec<(AttributeSemantic, usize)>, src: Vec<(AttributeSemantic, usize)>)
    ensures
        final(dst)@ == old(dst)@ + src@,
{
    let mut i: usize = 0;
    while i < src.len()
        invariant
            i <= src@.len(),
            dst@ == old(dst)@ + src@.take(i as int),
        decreases src@.len() - i,
    {
        dst.push(src[i]);
        assert(src@.take(i + 1) =~= src@.take(i as int).push(src@[i as int]));
        i = i + 1;
    }
    assert(src@.take(src@.len() as int) =~= src@);
}

/// Exports one mesh (see `mesh_spec`).
#[verifier::rlimit(40)]
fn export_mesh<B: Copy, W: Copy>(doc: &mut MeshDoc<B>, buffer: &mut Vec<u8>, m: &MeshExportInput<B, W>)
    -> (r: Option<(PrimitiveEntry, Option<Vec<W>>)>)
    requires
        mesh_ok(*m),
        old(buffer)@.len() + mesh_size(*m) <= usize::MAX,
        old(doc).views@.len() + mesh_size(*m) < usize::MAX,
        old(doc).accessors@.len() + mesh_size(*m) < usize::MAX,
    ensures
        ({
            let want = mesh_spec(doc_state(*old(doc), old(buffer)@), *m);
            &&& doc_state(*final(doc), final(buffer)@) == want.1
            &&& match r {
                None => want.0 is None,
                Some((p, w)) => want.0 == Some((primitive_view(p), match w { Some(v) => Some(v@), None => None })),
            }
        }),
        final(buffer)@.len() <= old(buffer)@.len() + mesh_size(*m),
        final(doc).views@.len() <= old(doc).views@.len() + mesh_size(*m),
        final(doc).accessors@.len() <= old(doc).accessors@.len() + mesh_size(*m),
{
    let pos = match push_data(doc, buffer, &m.positions, ViewTarget::ArrayBuffer) {
        None => return None,
        Some(a) => a,
    };
    let n = push_data(doc, buffer, &m.normals, ViewTarget::ArrayBuffer);
    let t = push_data(doc, buffer, &m.tangents, ViewTarget::ArrayBuffer);
    let uv = push_indexed(doc, buffer, &m.tex_coords, false);
    let col = push_indexed(doc, buffer, &m.colors, true);
    let ix = push_indices(doc, buffer, &m.faces);
    let gr = push_groups(doc, buffer, &m.joint_groups, &m.weight_groups);
    let (tg, tw) = push_targets(doc, buffer, &m.targets);
    let mut attrs: Vec<(AttributeSemantic, usize)> = Vec::new();
    attrs.push((AttributeSemantic::Positions, pos));
    match n {
        Some(a) => attrs.push((AttributeSemantic::Normals, a)),
        None => {},
    }
    match t {
        Some(a) => attrs.push((AttributeSemantic::Tangents, a)),
        None => {},
    }
    proof {
        assert(attrs@ =~= with_attr(with_attr(seq![(AttributeSemantic::Positions, pos)], AttributeSemantic::Normals, n),
            AttributeSemantic::Tangents, t));
    }
    append_attrs(&mut attrs, uv);
    append_attrs(&mut attrs, col);
    append_attrs(&mut attrs, gr);
    let morphs = m.targets.len() > 0;
    let prim = PrimitiveEntry {
        attributes: attrs,
        indices: ix,
        material: m.material_index,
        mode: primitive_mode(&m.primitive_types),
        targets: if morphs { Some(tg) } else { None },
    };
    Some((prim, if morphs { Some(tw) } else { None }))
}

/// The room the data of meshes takes in the body.
pub open spec fn meshes_size<B, W>(ms: Seq<MeshExportInput<B, W>>) -> nat
    decreases ms.len(),
{
    if ms.len() == 0 { 0 } else { meshes_size(ms.drop_last()) + mesh_size(ms.last()) }
}

/// An exported mesh, as a value: its unique name, its primitive and its
/// morph weights.
pub struct ExportedMeshView<W> {
    pub name: Seq<char>,
    pub primitive: PrimitiveView,
    pub weights: Option<Seq<W>>,
}

/// Exporting meshes in order (see `mesh_spec`): each one exported gets a
/// unique name asked for as its own name. Gives the exported meshes, the
/// name table after them, and the document.
pub open spec fn meshes_spec<B, W>(st: DocState<B>, keys: Seq<Seq<char>>, cs: Seq<u32>, ms: Seq<MeshExportInput<B, W>>)
    -> (Seq<ExportedMeshView<W>>, Seq<Seq<char>>, Seq<u32>, DocState<B>)
    decreases ms.len(),
{
    if ms.len() == 0 {
        (Seq::empty(), keys, cs, st)
    } else {
        let r = meshes_spec(st, keys, cs, ms.drop_last());
        let e = mesh_spec(r.3, ms.last());
        match e.0 {
            None => (r.0, r.1, r.2, e.1),
            Some((p, w)) => {
                let u = unique_name_spec(r.1, r.2, ms.last().name@);
                (r.0.push(ExportedMeshView { name: u.0, primitive: p, weights: w }), u.1, u.2, e.1)
            },
        }
    }
}

/// The meshes of the exported document: the primitive of each exported
/// mesh (by position), its unique name and morph weights; the document's
/// meshes after the meshes of each node were merged (each with the
/// exported mesh it was copied from and its primitives), the mesh of each
/// node, and whether each node gets the skin (when the document has one).
pub struct MeshExport<W> {
    pub primitives: Vec<PrimitiveEntry>,
    pub names: Vec<String>,
    pub weights: Vec<Option<Vec<W>>>,
    pub merged: Vec<MergedMesh<usize>>,
    pub node_mesh: Vec<Option<usize>>,
    pub node_skin: Vec<bool>,
}

/// The exported meshes of an export, as values.
pub open spec fn exported_view<W>(e: MeshExport<W>) -> Seq<ExportedMeshView<W>> {
    Seq::new(e.primitives@.len(), |i: int| ExportedMeshView {
        name: e.names@[i]@,
        primitive: primitive_view(e.primitives@[i]),
        weights: match e.weights@[i] { Some(v) => Some(v@), None => None },
    })
}

/// Each exported mesh as a list of its one primitive.
pub open spec fn single_primitives(n: nat) -> Seq<Seq<usize>> {
    Seq::new(n, |i: int| seq![i as usize])
}

/// Whether each exported mesh has morph weights.
pub open spec fn has_weights_of<W>(es: Seq<ExportedMeshView<W>>) -> Seq<bool> {
    Seq::new(es.len(), |i: int| es[i].weights is Some)
}

proof fn lemma_meshes_size_take<B, W>(ms: Seq<MeshExportInput<B, W>>, k: int)
    requires
        0 <= k < ms.len(),
    ensures
        meshes_size(ms.take(k + 1)) == meshes_size(ms.take(k)) + mesh_size(ms[k]),
        meshes_size(ms.take(k + 1)) <= meshes_size(ms),
    decreases ms.len() - k,
{
    assert(ms.take(k + 1).drop_last() =~= ms.take(k));
    if k + 1 < ms.len() {
        lemma_meshes_size_take(ms, k + 1);
    } else {
        assert(ms.take(k + 1) =~= ms);
    }
}

/// Exports the meshes of a scene into the document (see `meshes_spec`),
/// then merges the meshes of each node into one (see `merge_nodes`, over
/// the exported meshes by position) and marks the nodes that get the skin
/// (see `gets_skin`).
#[verifier::rlimit(60)]
pub fn export_meshes<B: Copy, W: Copy>(
    meshes: &Vec<MeshExportInput<B, W>>,
    node_meshes: &Vec<Vec<usize>>,
    doc: &mut MeshDoc<B>,
    buffer_data: &mut Vec<u8>,
    names: &mut UniqueNames,
) -> (r: MeshExport<W>)
    requires
        forall|i: int| 0 <= i < meshes@.len() ==> mesh_ok(#[trigger] meshes@[i]),
        old(buffer_data)@.len() + meshes_size(meshes@) <= usize::MAX,
        old(doc).views@.len() + meshes_size(meshes@) < usize::MAX,
        old(doc).accessors@.len() + meshes_size(meshes@) < usize::MAX,
        old(names).wf(),
        old(names).key_seq().len() + old(names).calls() + 2 * meshes@.len() < u32::MAX,
    ensures
        final(names).wf(),
        ({
            let want = meshes_spec(doc_state(*old(doc), old(buffer_data)@), old(names).key_seq(), old(names).counter_seq(), meshes@);
            let merge = merge_nodes(
                MergeState { meshes: single_primitives(want.0.len()), merged: Seq::empty(), node_mesh: Seq::empty() },
                lists_of(node_meshes@),
            );
            &&& r.names@.len() == r.primitives@.len()
            &&& r.weights@.len() == r.primitives@.len()
            &&& exported_view(r) == want.0
            &&& final(names).key_seq() == want.1
            &&& final(names).counter_seq() == want.2
            &&& doc_state(*final(doc), final(buffer_data)@) == want.3
            &&& merged_of(r.merged@) == merge.merged
            &&& r.node_mesh@ == merge.node_mesh
            &&& r.node_skin@.len() == node_meshes@.len()
            &&& forall|i: int| 0 <= i < r.node_skin@.len()
                ==> r.node_skin@[i] == gets_skin(node_meshes@, has_weights_of(want.0), i)
        }),
        grows(doc_state(*old(doc), old(buffer_data)@), doc_state(*final(doc), final(buffer_data)@)),
        r.node_mesh@.len() == node_meshes@.len(),
        r.merged@.len() == count_some(r.node_mesh@),
        forall|n: int| 0 <= n < node_meshes@.len() ==> ((#[trigger] r.node_mesh@[n]) is None
            <==> forall|j: int| 0 <= j < node_meshes@[n]@.len() ==> node_meshes@[n]@[j] >= r.primitives@.len()),
        forall|n: int| 0 <= n < node_meshes@.len() && #[trigger] owns_meshes(lists_of(node_meshes@), r.primitives@.len() as nat, n)
            ==> {
                &&& r.node_mesh@[n] is Some
                &&& r.node_mesh@[n]->0 < r.merged@.len()
                &&& r.merged@[r.node_mesh@[n]->0 as int].source == node_meshes@[n]@[0]
                &&& r.merged@[r.node_mesh@[n]->0 as int].primitives@ == node_meshes@[n]@
            },
        (forall|i: int| 0 <= i < meshes@.len() ==> (#[trigger] meshes@[i]).positions.bytes@.len() > 0) ==> {
            &&& r.primitives@.len() == meshes@.len()
            &&& forall|i: int| 0 <= i < meshes@.len() ==> primitive_indexed(meshes@[i],
                primitive_view(#[trigger] r.primitives@[i]), doc_state(*final(doc), final(buffer_data)@))
        },
{
    let ghost st0 = doc_state(*doc, buffer_data@);
    let ghost k0 = names.key_seq();
    let ghost c0 = names.counter_seq();
    let ghost calls0 = names.calls();
    let ghost b0 = buffer_data@.len();
    let ghost v0 = doc.views@.len();
    let ghost a0 = doc.accessors@.len();
    let ghost total = meshes_size(meshes@);
    let mut prims: Vec<PrimitiveEntry> = Vec::new();
    let mut out_names: Vec<String> = Vec::new();
    let mut weights: Vec<Option<Vec<W>>> = Vec::new();
    let mut has_weights: Vec<bool> = Vec::new();
    let mut k: usize = 0;
    assert(meshes@.take(0) =~= Seq::<MeshExportInput<B, W>>::empty());
    while k < meshes.len()
        invariant
            k <= meshes@.len(),
            forall|i: int| 0 <= i < meshes@.len() ==> mesh_ok(#[trigger] meshes@[i]),
            total == meshes_size(meshes@),
            b0 + total <= usize::MAX,
            v0 + total < usize::MAX,
            a0 + total < usize::MAX,
            meshes_size(meshes@.take(k as int)) <= total,
            buffer_data@.len() <= b0 + meshes_size(meshes@.take(k as int)),
            doc.views@.len() <= v0 + meshes_size(meshes@.take(k as int)),
            doc.accessors@.len() <= a0 + meshes_size(meshes@.take(k as int)),
            names.wf(),
            k0.len() + calls0 + 2 * meshes@.len() < u32::MAX,
            names.calls() <= calls0 + k,
            names.key_seq().len() <= k0.len() + k,
            out_names@.len() == prims@.len(),
            weights@.len() == prims@.len(),
            has_weights@.len() == prims@.len(),
            forall|i: int| 0 <= i < prims@.len() ==> has_weights@[i] == (weights@[i] is Some),
            ({
                let want = meshes_spec(st0, k0, c0, meshes@.take(k as int));
                &&& Seq::new(prims@.len(), |i: int| ExportedMeshView {
                    name: out_names@[i]@,
                    primitive: primitive_view(prims@[i]),
                    weights: match weights@[i] { Some(v) => Some(v@), None => None },
                }) == want.0
                &&& names.key_seq() == want.1
                &&& names.counter_seq() == want.2
                &&& doc_state(*doc, buffer_data@) == want.3
            }),
        decreases meshes@.len() - k,
    {
        proof {
            lemma_meshes_size_take(meshes@, k as int);
            assert(meshes@.take(k + 1).drop_last() =~= meshes@.take(k as int));
            assert(meshes@.take(k + 1).last() == meshes@[k as int]);
        }
        let m = &meshes[k];
        assert(mesh_ok(*m));
        let ghost before = Seq::new(prims@.len(), |i: int| ExportedMeshView {
            name: out_names@[i]@,
            primitive: primitive_view(prims@[i]),
            weights: match weights@[i] { Some(v) => Some(v@), None => None },
        });
        match export_mesh(doc, buffer_data, m) {
            None => {},
            Some((p, w)) => {
                proof { names.lemma_counters_have_room(); }
                let name = generate_unique_name(m.name.as_str(), names);
                has_weights.push(w.is_some());
                prims.push(p);
                out_names.push(name);
                weights.push(w);
                let ghost last = (prims@.len() - 1) as int;
                let ghost e = ExportedMeshView {
                    name: out_names@[last]@,
                    primitive: primitive_view(prims@[last]),
                    weights: match weights@[last] { Some(v) => Some(v@), None => None },
                };
                assert(Seq::new(prims@.len(), |i: int| ExportedMeshView {
                    name: out_names@[i]@,
                    primitive: primitive_view(prims@[i]),
                    weights: match weights@[i] { Some(v) => Some(v@), None => None },
                }) =~= before.push(e));
            },
        }
        k = k + 1;
    }
    assert(meshes@.take(meshes@.len() as int) =~= meshes@);
    let ghost want = meshes_spec(st0, k0, c0, meshes@);
    let mut singles: Vec<Vec<usize>> = Vec::new();
    let mut i: usize = 0;
    while i < prims.len()
        invariant
            i <= prims@.len(),
            singles@.len() == i,
            forall|t: int| 0 <= t < i ==> (#[trigger] singles@[t])@ == seq![t as usize],
        decreases prims@.len() - i,
    {
        let mut v: Vec<usize> = Vec::new();
        v.push(i);
        singles.push(v);
        i = i + 1;
    }
    assert(lists_of(singles@) =~= single_primitives(prims@.len() as nat));
    let (merged, node_mesh) = merge_node_meshes(node_meshes, singles);
    let node_skin = skinned_nodes(node_meshes, &has_weights);
    let r = MeshExport { primitives: prims, names: out_names, weights, merged, node_mesh, node_skin };
    proof {
        assert(exported_view(r) =~= want.0);
        assert(has_weights@ =~= has_weights_of(want.0)) by {
            assert forall|t: int| 0 <= t < has_weights@.len() implies has_weights@[t] == has_weights_of(want.0)[t] by {
                assert(want.0[t] == exported_view(r)[t]);
            }
        }
        lemma_export_appends_only(st0, k0, c0, meshes@);
        let nodes = lists_of(node_meshes@);
        let count = r.primitives@.len() as nat;
        assert(want.0.len() == count);
        assert(nodes.len() == node_meshes.len());
        assert forall|n: int| 0 <= n < node_meshes@.len() implies {
            &&& ((#[trigger] r.node_mesh@[n]) is None
                <==> forall|j: int| 0 <= j < node_meshes@[n]@.len() ==> node_meshes@[n]@[j] >= count)
            &&& owns_meshes(nodes, count, n) ==> {
                &&& r.node_mesh@[n] is Some
                &&& r.node_mesh@[n]->0 < r.merged@.len()
                &&& r.merged@[r.node_mesh@[n]->0 as int].source == node_meshes@[n]@[0]
                &&& r.merged@[r.node_mesh@[n]->0 as int].primitives@ == node_meshes@[n]@
            }
        } by {
            lemma_node_meshes_merged(count, nodes, n);
            assert(nodes[n] == node_meshes@[n]@);
            if owns_meshes(nodes, count, n) {
                let t = r.node_mesh@[n]->0 as int;
                assert(merged_of(r.merged@)[t] == (r.merged@[t].source, r.merged@[t].primitives@));
            }
        }
        if node_meshes@.len() > 0 {
            lemma_node_meshes_merged(count, nodes, 0);
        } else {
            assert(r.node_mesh@.len() == 0);
        }
        if forall|i: int| 0 <= i < meshes@.len() ==> (#[trigger] meshes@[i]).positions.bytes@.len() > 0 {
            lemma_export_primitives(st0, k0, c0, meshes@);
            assert forall|i: int| 0 <= i < meshes@.len() implies primitive_indexed(meshes@[i],
                primitive_view(#[trigger] r.primitives@[i]), doc_state(*doc, buffer_data@)) by {
                assert(exported_view(r)[i].primitive == primitive_view(r.primitives@[i]));
            }
        }
    }
    r
}

/// The document `b` continues `a`: the views, accessors and body bytes of
/// `a` are the first ones of `b`.
pub open spec fn doc_extends<B>(a: DocState<B>, b: DocState<B>) -> bool {
    &&& a.views.len() <= b.views.len() && b.views.take(a.views.len() as int) == a.views
    &&& a.accessors.len() <= b.accessors.len() && b.accessors.take(a.accessors.len() as int) == a.accessors
    &&& a.buffer.len() <= b.buffer.len() && b.buffer.take(a.buffer.len() as int) == a.buffer
}

/// The views `lo .. hi` of a document lie within its body.
pub open spec fn views_within<B>(s: DocState<B>, lo: int, hi: int) -> bool {
    forall|i: int| lo <= i < hi ==> (#[trigger] s.views[i]).byte_offset + s.views[i].byte_length <= s.buffer.len()
}

/// `b` continues `a`, and (while the body fits a `usize`) the views it
/// adds lie within its body.
pub open spec fn grows<B>(a: DocState<B>, b: DocState<B>) -> bool {
    &&& doc_extends(a, b)
    &&& b.buffer.len() <= usize::MAX ==> views_within(b, a.views.len() as int, b.views.len() as int)
}

proof fn lemma_grows_refl<B>(a: DocState<B>)
    ensures
        grows(a, a),
{
    assert(a.views.take(a.views.len() as int) =~= a.views);
    assert(a.accessors.take(a.accessors.len() as int) =~= a.accessors);
    assert(a.buffer.take(a.buffer.len() as int) =~= a.buffer);
}

proof fn lemma_grows_trans<B>(a: DocState<B>, b: DocState<B>, c: DocState<B>)
    requires
        grows(a, b),
        grows(b, c),
    ensures
        grows(a, c),
{
    assert(c.views.take(a.views.len() as int) =~= c.views.take(b.views.len() as int).take(a.views.len() as int));
    assert(c.accessors.take(a.accessors.len() as int)
        =~= c.accessors.take(b.accessors.len() as int).take(a.accessors.len() as int));
    assert(c.buffer.take(a.buffer.len() as int) =~= c.buffer.take(b.buffer.len() as int).take(a.buffer.len() as int));
    if c.buffer.len() <= usize::MAX {
        assert forall|i: int| a.views.len() <= i < c.views.len() implies (#[trigger] c.views[i]).byte_offset
            + c.views[i].byte_length <= c.buffer.len() by {
            if i < b.views.len() {
                assert(c.views[i] == c.views.take(b.views.len() as int)[i]);
                assert(b.views[i].byte_offset + b.views[i].byte_length <= b.buffer.len());
            }
        }
    }
}

proof fn lemma_push_grows<B>(st: DocState<B>, d: (Seq<u8>, usize, usize, AccessorBounds<B>), t: ViewTarget)
    requires
        d.1 > 0,
    ensures
        grows(st, push_spec(st, d, t).1),
{
    if d.0.len() == 0 {
        lemma_grows_refl(st);
    } else {
        let b = push_spec(st, d, t).1;
        let pad = st.buffer.len() % (d.1 as nat);
        let z = Seq::new(pad, |i: int| 0u8);
        assert(d.0.len() != 0);
        assert(push_spec(st, d, t).0 == Some(st.accessors.len() as usize));
        assert(b.buffer =~= st.buffer + z + d.0);
        assert(b.views.take(st.views.len() as int) =~= st.views);
        assert(b.accessors.take(st.accessors.len() as int) =~= st.accessors);
        assert forall|i: int| 0 <= i < st.buffer.len() implies #[trigger] b.buffer.take(st.buffer.len() as int)[i] == st.buffer[i] by {
            assert((st.buffer + z + d.0)[i] == (st.buffer + z)[i]);
            assert((st.buffer + z)[i] == st.buffer[i]);
        }
        assert(b.buffer.take(st.buffer.len() as int) =~= st.buffer);
        if b.buffer.len() <= usize::MAX {
            assert(b.buffer.len() == st.buffer.len() + pad + d.0.len());
            assert(b.views[st.views.len() as int].byte_offset == st.buffer.len() + pad);
        }
    }
}

proof fn lemma_push_indexed_grows<B>(st: DocState<B>, items: Seq<Option<AccessorData<B>>>, colors: bool)
    requires
        opt_ok(items),
    ensures
        grows(st, push_indexed_spec(st, items, colors).1),
    decreases items.len(),
{
    if items.len() == 0 {
        lemma_grows_refl(st);
    } else {
        assert(opt_ok(items.drop_last())) by {
            assert forall|i: int| 0 <= i < items.drop_last().len() implies match #[trigger] items.drop_last()[i] {
                Some(d) => data_ok(d),
                None => true,
            } by {
                assert(items.drop_last()[i] == items[i]);
            }
        }
        assert(match items[items.len() - 1] { Some(d) => data_ok(d), None => true });
        lemma_push_indexed_grows(st, items.drop_last(), colors);
        let r = push_indexed_spec(st, items.drop_last(), colors);
        match items.last() {
            None => {},
            Some(d) => {
                lemma_push_grows(r.1, data_view(d), ViewTarget::ArrayBuffer);
                lemma_grows_trans(st, r.1, push_spec(r.1, data_view(d), ViewTarget::ArrayBuffer).1);
            },
        }
    }
}

proof fn lemma_push_groups_grows<B>(st: DocState<B>, jg: Seq<Vec<[usize; 4]>>, wg: Seq<AccessorData<B>>)
    requires
        forall|g: int| 0 <= g < wg.len() ==> data_ok(#[trigger] wg[g]),
    ensures
        grows(st, push_groups_spec(st, jg, wg).1),
    decreases jg.len(),
{
    if jg.len() == 0 || wg.len() == 0 {
        lemma_grows_refl(st);
    } else {
        assert forall|g: int| 0 <= g < wg.drop_last().len() implies data_ok(#[trigger] wg.drop_last()[g]) by {
            assert(wg.drop_last()[g] == wg[g]);
        }
        assert(data_ok(wg[wg.len() - 1]));
        lemma_push_groups_grows(st, jg.drop_last(), wg.drop_last());
        let r = push_groups_spec(st, jg.drop_last(), wg.drop_last());
        let j = push_spec(r.1, joint_view::<B>(jg.last()@), ViewTarget::ElementArrayBuffer);
        let w = push_spec(j.1, data_view(wg.last()), ViewTarget::ElementArrayBuffer);
        lemma_push_grows(r.1, joint_view::<B>(jg.last()@), ViewTarget::ElementArrayBuffer);
        lemma_push_grows(j.1, data_view(wg.last()), ViewTarget::ElementArrayBuffer);
        lemma_grows_trans(st, r.1, j.1);
        lemma_grows_trans(st, j.1, w.1);
    }
}

proof fn lemma_push_targets_grows<B, W>(st: DocState<B>, ts: Seq<TargetInput<B, W>>)
    requires
        targets_ok(ts),
    ensures
        grows(st, push_targets_spec(st, ts).2),
    decreases ts.len(),
{
    if ts.len() == 0 {
        lemma_grows_refl(st);
    } else {
        assert(targets_ok(ts.drop_last())) by {
            assert forall|i: int| 0 <= i < ts.drop_last().len() implies data_ok((#[trigger] ts.drop_last()[i]).positions) && match ts.drop_last()[i].normals {
                Some(d) => data_ok(d),
                None => true,
            } by {
                assert(ts.drop_last()[i] == ts[i]);
            }
        }
        assert(data_ok(ts[ts.len() - 1].positions));
        lemma_push_targets_grows(st, ts.drop_last());
        let r = push_targets_spec(st, ts.drop_last());
        let t = ts.last();
        let p = push_spec(r.2, data_view(t.positions), ViewTarget::ArrayBuffer);
        lemma_push_grows(r.2, data_view(t.positions), ViewTarget::ArrayBuffer);
        lemma_grows_trans(st, r.2, p.1);
        match p.0 {
            None => {},
            Some(a) => {
                match t.normals {
                    Some(d) => {
                        lemma_push_grows(p.1, data_view(d), ViewTarget::ArrayBuffer);
                        lemma_grows_trans(st, p.1, push_spec(p.1, data_view(d), ViewTarget::ArrayBuffer).1);
                    },
                    None => {},
                }
            },
        }
    }
}

proof fn lemma_mesh_grows<B, W>(st: DocState<B>, m: MeshExportInput<B, W>)
    requires
        mesh_ok(m),
    ensures
        grows(st, mesh_spec(st, m).1),
{
    let p = push_spec(st, data_view(m.positions), ViewTarget::ArrayBuffer);
    lemma_push_grows(st, data_view(m.positions), ViewTarget::ArrayBuffer);
    match p.0 {
        None => {},
        Some(pos) => {
            let n = push_spec(p.1, data_view(m.normals), ViewTarget::ArrayBuffer);
            let t = push_spec(n.1, data_view(m.tangents), ViewTarget::ArrayBuffer);
            let uv = push_indexed_spec(t.1, m.tex_coords@, false);
            let col = push_indexed_spec(uv.1, m.colors@, true);
            let ix = push_spec(col.1, index_view::<B>(faces_view(m.faces@)), ViewTarget::ElementArrayBuffer);
            let gr = push_groups_spec(ix.1, m.joint_groups@, m.weight_groups@);
            let tg = push_targets_spec(gr.1, m.targets@);
            lemma_push_grows(p.1, data_view(m.normals), ViewTarget::ArrayBuffer);
            lemma_grows_trans(st, p.1, n.1);
            lemma_push_grows(n.1, data_view(m.tangents), ViewTarget::ArrayBuffer);
            lemma_grows_trans(st, n.1, t.1);
            lemma_push_indexed_grows(t.1, m.tex_coords@, false);
            lemma_grows_trans(st, t.1, uv.1);
            lemma_push_indexed_grows(uv.1, m.colors@, true);
            lemma_grows_trans(st, uv.1, col.1);
            lemma_push_grows(col.1, index_view::<B>(faces_view(m.faces@)), ViewTarget::ElementArrayBuffer);
            lemma_grows_trans(st, col.1, ix.1);
            lemma_push_groups_grows(ix.1, m.joint_groups@, m.weight_groups@);
            lemma_grows_trans(st, ix.1, gr.1);
            lemma_push_targets_grows(gr.1, m.targets@);
            lemma_grows_trans(st, gr.1, tg.2);
        },
    }
}

/// Exporting meshes only appends to the document: the views, accessors
/// and body bytes that were there stay as they were, first, and every view
/// it adds lies within the body (while the body fits a `usize`, as the
/// export requires).
pub proof fn lemma_export_appends_only<B, W>(st: DocState<B>, keys: Seq<Seq<char>>, cs: Seq<u32>, ms: Seq<MeshExportInput<B, W>>)
    requires
        forall|i: int| 0 <= i < ms.len() ==> mesh_ok(#[trigger] ms[i]),
    ensures
        grows(st, meshes_spec(st, keys, cs, ms).3),
    decreases ms.len(),
{
    if ms.len() == 0 {
        lemma_grows_refl(st);
    } else {
        assert forall|i: int| 0 <= i < ms.drop_last().len() implies mesh_ok(#[trigger] ms.drop_last()[i]) by {
            assert(ms.drop_last()[i] == ms[i]);
        }
        assert(mesh_ok(ms[ms.len() - 1]));
        lemma_export_appends_only(st, keys, cs, ms.drop_last());
        let r = meshes_spec(st, keys, cs, ms.drop_last());
        lemma_mesh_grows(r.3, ms.last());
        lemma_grows_trans(st, r.3, mesh_spec(r.3, ms.last()).1);
    }
}

/// The primitive exported for a mesh has the mesh's material and the mode
/// of its primitive kinds, and, when the mesh has index data, an index
/// accessor: scalar 32-bit indices (one component of four bytes), as many
/// as the index data has, over an element-array view whose bytes in the
/// body are the little-endian index data (see `face_index_spec`); so
/// far as the document's lists and body fit a `usize`.
pub proof fn lemma_primitive_indices<B, W>(st: DocState<B>, m: MeshExportInput<B, W>)
    requires
        mesh_ok(m),
        mesh_spec(st, m).0 is Some,
    ensures
        ({
            let (prim, _) = mesh_spec(st, m).0->0;
            let fin = mesh_spec(st, m).1;
            let data = le_bytes_u32(face_index_spec(faces_view(m.faces@)));
            &&& prim.material == m.material_index
            &&& prim.mode == primitive_mode_spec(m.primitive_types)
            &&& (data.len() > 0 && fin.buffer.len() <= usize::MAX && fin.views.len() <= usize::MAX
                && fin.accessors.len() <= usize::MAX) ==> {
                &&& prim.indices is Some
                &&& prim.indices->0 < fin.accessors.len()
                &&& ({
                    let acc = fin.accessors[prim.indices->0 as int];
                    let view = fin.views[acc.view as int];
                    &&& acc.view < fin.views.len()
                    &&& acc.component_size == 4 && acc.components == 1
                    &&& acc.count == data.len() / 4
                    &&& view.target == ViewTarget::ElementArrayBuffer
                    &&& view.byte_length == data.len()
                    &&& view.byte_offset + view.byte_length <= fin.buffer.len()
                    &&& fin.buffer.subrange(view.byte_offset as int, view.byte_offset + view.byte_length) == data
                })
            }
        }),
{
    let p = push_spec(st, data_view(m.positions), ViewTarget::ArrayBuffer);
    let pos = p.0->0;
    let n = push_spec(p.1, data_view(m.normals), ViewTarget::ArrayBuffer);
    let t = push_spec(n.1, data_view(m.tangents), ViewTarget::ArrayBuffer);
    let uv = push_indexed_spec(t.1, m.tex_coords@, false);
    let col = push_indexed_spec(uv.1, m.colors@, true);
    let iv = index_view::<B>(faces_view(m.faces@));
    let ix = push_spec(col.1, iv, ViewTarget::ElementArrayBuffer);
    let gr = push_groups_spec(ix.1, m.joint_groups@, m.weight_groups@);
    let tg = push_targets_spec(gr.1, m.targets@);
    let fin = mesh_spec(st, m).1;
    assert(fin == tg.2);
    let data = le_bytes_u32(face_index_spec(faces_view(m.faces@)));
    assert(iv.0 == data);
    if data.len() > 0 && fin.buffer.len() <= usize::MAX && fin.views.len() <= usize::MAX
        && fin.accessors.len() <= usize::MAX {
        lemma_push_groups_grows(ix.1, m.joint_groups@, m.weight_groups@);
        lemma_push_targets_grows(gr.1, m.targets@);
        lemma_grows_trans(ix.1, gr.1, tg.2);
        let a = col.1.accessors.len();
        let v = col.1.views.len();
        let pad = col.1.buffer.len() % 4;
        let z = Seq::new(pad, |i: int| 0u8);
        assert(ix.1.buffer =~= col.1.buffer + z + data);
        assert(ix.1.accessors[a as int] == fin.accessors.take(ix.1.accessors.len() as int)[a as int]);
        assert(ix.1.views[v as int] == fin.views.take(ix.1.views.len() as int)[v as int]);
        let off: int = (col.1.buffer.len() + pad) as int;
        assert(ix.1.views[v as int].byte_offset == off);
        assert forall|i: int| 0 <= i < data.len() implies #[trigger] fin.buffer.subrange(off, off + data.len() as int)[i] == data[i] by {
            assert(fin.buffer[off + i] == fin.buffer.take(ix.1.buffer.len() as int)[off + i]);
            assert(ix.1.buffer[off + i] == data[i]);
        }
        assert(fin.buffer.subrange(off, off + data.len() as int) =~= data);
        let (prim, _) = mesh_spec(st, m).0->0;
        assert(ix.0 == Some(a as usize));
        assert(prim.indices == ix.0);
        let acc = fin.accessors[a as int];
        assert(acc == ix.1.accessors[a as int]);
        assert(acc.view == v);
        assert(acc.count == ((data.len() / 1) / 4) as usize);
        assert(data.len() / 1 == data.len());
        assert(fin.views[v as int] == ix.1.views[v as int]);
        assert(ix.1.views[v as int].byte_length == data.len());
    }
}

proof fn lemma_concat_single(count: nat, ms: Seq<usize>)
    requires
        forall|j: int| 0 <= j < ms.len() ==> ms[j] < count,
    ensures
        concat_of(single_primitives(count), ms) == ms,
    decreases ms.len(),
{
    if ms.len() > 0 {
        assert forall|j: int| 0 <= j < ms.drop_last().len() implies ms.drop_last()[j] < count by {
            assert(ms.drop_last()[j] == ms[j]);
        }
        lemma_concat_single(count, ms.drop_last());
        assert(ms[ms.len() - 1] < count);
        assert(ms.drop_last() + seq![ms.last()] =~= ms);
    } else {
        assert(concat_of(single_primitives(count), ms) =~= ms);
    }
}

/// The meshes of the nodes in a whole export (see `export_meshes`, which
/// merges over the exported meshes, each one primitive): each node gets a
/// merged mesh exactly when one of its meshes was exported, the merged
/// meshes are as many as the nodes that got one, and a node whose meshes
/// were all exported, are distinct and are named by no earlier node gets
/// a merged mesh copied from its first mesh whose primitives are those of
/// its meshes, in the order the node names them.
pub proof fn lemma_node_meshes_merged(count: nat, nodes: Seq<Seq<usize>>, n: int)
    requires
        0 <= n < nodes.len(),
        nodes.len() <= usize::MAX,
    ensures
        ({
            let r = merge_nodes(
                MergeState { meshes: single_primitives(count), merged: Seq::empty(), node_mesh: Seq::empty() },
                nodes,
            );
            &&& r.node_mesh.len() == nodes.len()
            &&& r.merged.len() == count_some(r.node_mesh)
            &&& (r.node_mesh[n] is None <==> forall|j: int| 0 <= j < nodes[n].len() ==> nodes[n][j] >= count)
            &&& owns_meshes(nodes, count, n) ==> {
                &&& r.node_mesh[n] is Some
                &&& r.node_mesh[n]->0 < r.merged.len()
                &&& r.merged[r.node_mesh[n]->0 as int] == (nodes[n][0], nodes[n])
            }
        }),
{
    reveal(owns_meshes);
    lemma_merge_joins_node_meshes(single_primitives(count), nodes, n);
    if nodes[n].len() > 0 && (forall|j: int| 0 <= j < nodes[n].len() ==> nodes[n][j] < count) {
        lemma_concat_single(count, nodes[n]);
    }
}

/// Whether node `n` of `nodes` names meshes of its own: at least one, none
/// twice, each one of the `count` exported meshes, and none named by an
/// earlier node.
#[verifier::opaque]
pub open spec fn owns_meshes(nodes: Seq<Seq<usize>>, count: nat, n: int) -> bool {
    &&& nodes[n].len() > 0
    &&& nodes[n].no_duplicates()
    &&& forall|j: int| 0 <= j < nodes[n].len() ==> nodes[n][j] < count
    &&& forall|m: int, j: int, k: int| 0 <= m < n && 0 <= j < nodes[m].len() && 0 <= k < nodes[n].len()
        ==> nodes[m][j] != nodes[n][k]
}

/// What holds of the primitive `prim` exported for mesh `m` in the
/// document `fin`: it has the mesh's material and the mode of its
/// primitive kinds, and, when the mesh has index data, an index accessor of
/// scalar 32-bit indices (one component of four bytes), as many as the
/// index data has, over an element-array view whose bytes in the body are
/// the little-endian index data (see `face_index_spec`).
pub open spec fn primitive_indexed<B, W>(m: MeshExportInput<B, W>, prim: PrimitiveView, fin: DocState<B>) -> bool {
    let data = le_bytes_u32(face_index_spec(faces_view(m.faces@)));
    &&& prim.material == m.material_index
    &&& prim.mode == primitive_mode_spec(m.primitive_types)
    &&& data.len() > 0 ==> {
        &&& prim.indices is Some
        &&& prim.indices->0 < fin.accessors.len()
        &&& ({
            let acc = fin.accessors[prim.indices->0 as int];
            let view = fin.views[acc.view as int];
            &&& acc.view < fin.views.len()
            &&& acc.component_size == 4 && acc.components == 1
            &&& acc.count == data.len() / 4
            &&& view.target == ViewTarget::ElementArrayBuffer
            &&& view.byte_length == data.len()
            &&& view.byte_offset + view.byte_length <= fin.buffer.len()
            &&& fin.buffer.subrange(view.byte_offset as int, view.byte_offset + view.byte_length) == data
        })
    }
}

/// What holds of an exported primitive in one document holds of it in any
/// document that continues that one.
proof fn lemma_primitive_indexed_grows<B, W>(m: MeshExportInput<B, W>, prim: PrimitiveView, a: DocState<B>, b: DocState<B>)
    requires
        primitive_indexed(m, prim, a),
        doc_extends(a, b),
    ensures
        primitive_indexed(m, prim, b),
{
    let data = le_bytes_u32(face_index_spec(faces_view(m.faces@)));
    if data.len() > 0 {
        let ai = prim.indices->0 as int;
        assert(b.accessors[ai] == b.accessors.take(a.accessors.len() as int)[ai]);
        let acc = a.accessors[ai];
        assert(b.views[acc.view as int] == b.views.take(a.views.len() as int)[acc.view as int]);
        let view = a.views[acc.view as int];
        let lo = view.byte_offset as int;
        let hi = view.byte_offset + view.byte_length;
        assert forall|t: int| 0 <= t < hi - lo implies #[trigger] b.buffer.subrange(lo, hi)[t] == a.buffer.subrange(lo, hi)[t] by {
            assert(b.buffer[lo + t] == b.buffer.take(a.buffer.len() as int)[lo + t]);
        }
        assert(b.buffer.subrange(lo, hi) =~= a.buffer.subrange(lo, hi));
    }
}

/// Meshes whose positions all hold data are all exported.
proof fn lemma_all_exported_len<B, W>(st: DocState<B>, keys: Seq<Seq<char>>, cs: Seq<u32>, ms: Seq<MeshExportInput<B, W>>)
    requires
        forall|i: int| 0 <= i < ms.len() ==> (#[trigger] ms[i]).positions.bytes@.len() > 0,
    ensures
        meshes_spec(st, keys, cs, ms).0.len() == ms.len(),
    decreases ms.len(),
{
    if ms.len() > 0 {
        assert forall|i: int| 0 <= i < ms.drop_last().len() implies (#[trigger] ms.drop_last()[i]).positions.bytes@.len() > 0 by {
            assert(ms.drop_last()[i] == ms[i]);
        }
        lemma_all_exported_len(st, keys, cs, ms.drop_last());
        assert(ms[ms.len() - 1].positions.bytes@.len() > 0);
    }
}

/// Exporting meshes whose positions all hold data: the `i`-th exported
/// primitive is the one exported for the `i`-th mesh from the document the
/// meshes before it left, and the document after it continues into the
/// document after all of them.
proof fn lemma_each_exported<B, W>(st: DocState<B>, keys: Seq<Seq<char>>, cs: Seq<u32>, ms: Seq<MeshExportInput<B, W>>, i: int)
    requires
        forall|k: int| 0 <= k < ms.len() ==> mesh_ok(#[trigger] ms[k]),
        forall|k: int| 0 <= k < ms.len() ==> (#[trigger] ms[k]).positions.bytes@.len() > 0,
        0 <= i < ms.len(),
    ensures
        ({
            let before = meshes_spec(st, keys, cs, ms.take(i)).3;
            let one = mesh_spec(before, ms[i]);
            &&& one.0 is Some
            &&& meshes_spec(st, keys, cs, ms).0[i].primitive == (one.0->0).0
            &&& grows(one.1, meshes_spec(st, keys, cs, ms).3)
        }),
    decreases ms.len(),
{
    let d = ms.drop_last();
    assert forall|k: int| 0 <= k < d.len() implies mesh_ok(#[trigger] d[k]) && d[k].positions.bytes@.len() > 0 by {
        assert(d[k] == ms[k]);
        assert(mesh_ok(ms[k]));
        assert(ms[k].positions.bytes@.len() > 0);
    }
    assert(mesh_ok(ms[i]) && ms[i].positions.bytes@.len() > 0);
    lemma_all_exported_len(st, keys, cs, d);
    let r = meshes_spec(st, keys, cs, d);
    if i == ms.len() - 1 {
        assert(ms.take(i) =~= d);
        lemma_grows_refl(meshes_spec(st, keys, cs, ms).3);
    } else {
        lemma_each_exported(st, keys, cs, d, i);
        assert(d.take(i) =~= ms.take(i));
        assert(mesh_ok(ms[ms.len() - 1]));
        lemma_mesh_grows(r.3, ms.last());
        let before = meshes_spec(st, keys, cs, ms.take(i)).3;
        lemma_grows_trans(mesh_spec(before, ms[i]).1, r.3, mesh_spec(r.3, ms.last()).1);
        assert(ms[ms.len() - 1].positions.bytes@.len() > 0);
    }
}

/// Each exported primitive in a whole export: when the positions of every
/// mesh hold data, every mesh is exported, in order, and the primitive of
/// the `i`-th has what `primitive_indexed` says in the final document.
pub proof fn lemma_export_primitives<B, W>(st: DocState<B>, keys: Seq<Seq<char>>, cs: Seq<u32>, ms: Seq<MeshExportInput<B, W>>)
    requires
        forall|k: int| 0 <= k < ms.len() ==> mesh_ok(#[trigger] ms[k]),
        forall|k: int| 0 <= k < ms.len() ==> (#[trigger] ms[k]).positions.bytes@.len() > 0,
        meshes_spec(st, keys, cs, ms).3.buffer.len() <= usize::MAX,
        meshes_spec(st, keys, cs, ms).3.views.len() <= usize::MAX,
        meshes_spec(st, keys, cs, ms).3.accessors.len() <= usize::MAX,
    ensures
        meshes_spec(st, keys, cs, ms).0.len() == ms.len(),
        forall|i: int| 0 <= i < ms.len() ==> primitive_indexed(ms[i],
            #[trigger] meshes_spec(st, keys, cs, ms).0[i].primitive, meshes_spec(st, keys, cs, ms).3),
{
    lemma_all_exported_len(st, keys, cs, ms);
    let fin = meshes_spec(st, keys, cs, ms).3;
    assert forall|i: int| 0 <= i < ms.len() implies primitive_indexed(ms[i],
        #[trigger] meshes_spec(st, keys, cs, ms).0[i].primitive, fin) by {
        lemma_each_exported(st, keys, cs, ms, i);
        let before = meshes_spec(st, keys, cs, ms.take(i)).3;
        let one = mesh_spec(before, ms[i]);
        lemma_primitive_indices(before, ms[i]);
        lemma_primitive_indexed_grows(ms[i], (one.0->0).0, one.1, fin);
    }
}

} // verus!
