//! Exporting the nodes of a scene into a glTF 2.0 document, one document
//! node per scene node, in arena order.
use vstd::prelude::*;

use crate::gltf_v1::names::{generate_unique_name, unique_name_spec, UniqueNames};
use crate::textmap::TextMap;

verus! {

/// A scene node as the glTF 2.0 exporter reads it: its name, its children
/// and its meshes.
pub struct NodeSource {
    pub name: String,
    pub children: Vec<usize>,
    pub mesh_indexes: Vec<usize>,
}

/// An exported node: its unique name, its children (none when it has
/// none) and the camera of the same name.
pub struct NodeTarget {
    pub name: String,
    pub children: Option<Vec<u32>>,
    pub camera: Option<u32>,
}

/// The children of an exported node: none for a node without children,
/// else each child's index as a 32-bit index.
pub open spec fn children_spec(cs: Seq<usize>) -> Option<Seq<u32>> {
    if cs.len() == 0 { None } else { Some(cs.map_values(|c: usize| c as u32)) }
}

/// The camera an exported node gets: the one its name maps to.
pub open spec fn camera_spec(cameras: Map<Seq<char>, usize>, name: Seq<char>) -> Option<u32> {
    if cameras.dom().contains(name) { Some(cameras[name] as u32) } else { None }
}

/// The unique names of the exported nodes, asked for as the nodes' own
/// names in arena order, with the name table after them.
pub open spec fn node_names_spec(keys: Seq<Seq<char>>, cs: Seq<u32>, nodes: Seq<NodeSource>)
    -> (Seq<Seq<char>>, Seq<Seq<char>>, Seq<u32>)
    decreases nodes.len(),
{
    if nodes.len() == 0 {
        (Seq::empty(), keys, cs)
    } else {
        let r = node_names_spec(keys, cs, nodes.drop_last());
        let u = unique_name_spec(r.1, r.2, nodes.last().name@);
        (r.0.push(u.0), u.1, u.2)
    }
}

pub open spec fn opt_u32s(o: Option<Vec<u32>>) -> Option<Seq<u32>> {
    match o {
        Some(v) => Some(v@),
        None => None,
    }
}

proof fn lemma_node_names_len(keys: Seq<Seq<char>>, cs: Seq<u32>, nodes: Seq<NodeSource>)
    ensures
        node_names_spec(keys, cs, nodes).0.len() == nodes.len(),
    decreases nodes.len(),
{
    if nodes.len() > 0 {
        lemma_node_names_len(keys, cs, nodes.drop_last());
    }
}

/// Exports the nodes of a scene in arena order: each gets a unique name,
/// its children as indices, and the camera its name maps to; the meshes
/// of each node are returned by node index.
pub fn export_nodes(
    nodes: &Vec<NodeSource>,
    names: &mut UniqueNames,
    cameras: &TextMap<usize>,
) -> (r: (Vec<NodeTarget>, Vec<Vec<usize>>))
    requires
        old(names).wf(),
        cameras.wf(),
        old(names).key_seq().len() + old(names).calls() + 2 * nodes@.len() < u32::MAX,
    ensures
        final(names).wf(),
        ({
            let w = node_names_spec(old(names).key_seq(), old(names).counter_seq(), nodes@);
            &&& final(names).key_seq() == w.1
            &&& final(names).counter_seq() == w.2
            &&& r.0@.len() == nodes@.len()
            &&& r.1@.len() == nodes@.len()
            &&& forall|i: int| 0 <= i < nodes@.len() ==> {
                &&& (#[trigger] r.0@[i]).name@ == w.0[i]
                &&& opt_u32s(r.0@[i].children) == children_spec(nodes@[i].children@)
                &&& r.0@[i].camera == camera_spec(cameras.as_map(), w.0[i])
                &&& r.1@[i]@ == nodes@[i].mesh_indexes@
            }
        }),
{
    let ghost k0 = names.key_seq();
    let ghost c0 = names.counter_seq();
    let ghost calls0 = names.calls();
    let mut out: Vec<NodeTarget> = Vec::new();
    let mut meshes: Vec<Vec<usize>> = Vec::new();
    let mut i: usize = 0;
    assert(nodes@.take(0) =~= Seq::<NodeSource>::empty());
    while i < nodes.len()
        invariant
            names.wf(),
            cameras.wf(),
            i <= nodes@.len(),
            names.calls() == calls0 + i,
            names.key_seq().len() <= k0.len() + i,
            k0.len() + calls0 + 2 * nodes@.len() < u32::MAX,
            out@.len() == i,
            meshes@.len() == i,
            ({
                let w = node_names_spec(k0, c0, nodes@.take(i as int));
                &&& names.key_seq() == w.1
                &&& names.counter_seq() == w.2
                &&& forall|j: int| 0 <= j < i ==> {
                    &&& (#[trigger] out@[j]).name@ == w.0[j]
                    &&& opt_u32s(out@[j].children) == children_spec(nodes@[j].children@)
                    &&& out@[j].camera == camera_spec(cameras.as_map(), w.0[j])
                    &&& meshes@[j]@ == nodes@[j].mesh_indexes@
                }
            }),
        decreases nodes@.len() - i,
    {
        let n = &nodes[i];
        assert(nodes@.take(i + 1).drop_last() =~= nodes@.take(i as int));
        assert(nodes@.take(i + 1).last() == *n);
        proof {
            lemma_node_names_len(k0, c0, nodes@.take(i as int));
        }
        proof { names.lemma_counters_have_room(); }
        let name = generate_unique_name(n.name.as_str(), names);
        let children = if n.children.len() == 0 {
            None
        } else {
            let mut v: Vec<u32> = Vec::new();
            let mut j: usize = 0;
            while j < n.children.len()
                invariant
                    j <= n.children@.len(),
                    v@ == n.children@.take(j as int).map_values(|c: usize| c as u32),
                decreases n.children@.len() - j,
            {
                v.push(n.children[j] as u32);
                assert(v@ =~= n.children@.take(j + 1).map_values(|c: usize| c as u32));
                j = j + 1;
            }
            assert(n.children@.take(n.children@.len() as int) =~= n.children@);
            Some(v)
        };
        let camera = match cameras.get(name.as_str()) {
            Some(c) => Some(*c as u32),
            None => None,
        };
        let mut ms: Vec<usize> = Vec::new();
        let mut j: usize = 0;
        while j < n.mesh_indexes.len()
            invariant
                j <= n.mesh_indexes@.len(),
                ms@ == n.mesh_indexes@.take(j as int),
            decreases n.mesh_indexes@.len() - j,
        {
            ms.push(n.mesh_indexes[j]);
            assert(ms@ =~= n.mesh_indexes@.take(j + 1));
            j = j + 1;
        }
        assert(n.mesh_indexes@.take(n.mesh_indexes@.len() as int) =~= n.mesh_indexes@);
        out.push(NodeTarget { name, children, camera });
        meshes.push(ms);
        i = i + 1;
    }
    assert(nodes@.take(nodes@.len() as int) =~= nodes@);
    (out, meshes)
}

} // verus!
