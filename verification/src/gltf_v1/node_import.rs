//! The node hierarchy of a glTF 1.0 scene, read breadth first into an
//! arena.
use vstd::prelude::*;

use crate::gltf2::node_import::{child_lists, hierarchy_order, node_order, walk_readable, SceneNode};
use crate::text::{decimal, push_decimal, string_from_chars};
use crate::textmap::TextMap;

verus! {

/// A node of a glTF 1.0 document, as the hierarchy reads it: its name, the
/// ids of its meshes, the names of its camera and light (when they have
/// one), and its children.
pub struct NodeInfo {
    pub name: Option<String>,
    pub meshes: Vec<String>,
    pub camera: Option<String>,
    pub light: Option<String>,
    pub children: Vec<usize>,
}

/// A node of the imported hierarchy.
pub struct ImportedNode {
    pub name: String,
    pub source: usize,
    pub parent: Option<usize>,
    pub children: Vec<usize>,
    pub mesh_indexes: Vec<usize>,
}

/// The child lists of the document nodes.
pub open spec fn info_children(nodes: Seq<NodeInfo>) -> Seq<Seq<usize>> {
    Seq::new(nodes.len(), |i: int| nodes[i].children@)
}

/// The name of the node at arena position `k`: its own, or `k` in decimal.
pub open spec fn arena_name(name: Option<String>, k: nat) -> Seq<char> {
    match name {
        Some(n) => n@,
        None => decimal(k),
    }
}

/// The positions after `p` whose parent is `p`, up to `m`.
pub open spec fn child_positions(order: Seq<(usize, Option<usize>)>, p: int, m: int) -> Seq<usize>
    decreases m,
{
    if m <= 0 {
        Seq::empty()
    } else {
        child_positions(order, p, m - 1) + if order[m - 1].1 == Some(p as usize) { seq![(m - 1) as usize] } else { Seq::empty() }
    }
}

/// The imported meshes of a node: for each mesh id with a span
/// (start, count), the indices start .. start + count, in order.
pub open spec fn span_indexes(spans: Map<Seq<char>, (u32, u32)>, ids: Seq<Seq<char>>) -> Seq<usize>
    decreases ids.len(),
{
    if ids.len() == 0 {
        Seq::empty()
    } else {
        span_indexes(spans, ids.drop_last()) + if spans.dom().contains(ids.last()) {
            let s = spans[ids.last()];
            Seq::new(s.1 as nat, |i: int| (s.0 + i) as usize)
        } else {
            Seq::empty()
        }
    }
}

pub open spec fn ids(v: Seq<String>) -> Seq<Seq<char>> {
    Seq::new(v.len(), |i: int| v[i]@)
}

/// The spans of the mesh ids can be enumerated in 32 bits.
pub open spec fn spans_fit(spans: Map<Seq<char>, (u32, u32)>) -> bool {
    forall|k: Seq<char>| #[trigger] spans.dom().contains(k) ==> spans[k].0 + spans[k].1 <= u32::MAX
}

/// The slot a named camera or light takes in its list, when the name
/// names one there.
pub open spec fn slot_of(map: Map<Seq<char>, usize>, name: Option<String>, len: nat) -> Option<usize> {
    match name {
        Some(n) => if map.dom().contains(n@) && map[n@] < len { Some(map[n@]) } else { None },
        None => None,
    }
}

/// The names after the nodes at positions below `k` name their cameras
/// (or lights): each slot a node names takes that node's arena name.
pub open spec fn renamed(
    names: Seq<Seq<char>>,
    nodes: Seq<NodeInfo>,
    order: Seq<(usize, Option<usize>)>,
    map: Map<Seq<char>, usize>,
    lights: bool,
    k: int,
) -> Seq<Seq<char>>
    decreases k,
{
    if k <= 0 {
        names
    } else {
        let r = renamed(names, nodes, order, map, lights, k - 1);
        let n = nodes[order[k - 1].0 as int];
        match slot_of(map, if lights { n.light } else { n.camera }, names.len()) {
            Some(c) => r.update(c as int, arena_name(n.name, (k - 1) as nat)),
            None => r,
        }
    }
}

proof fn lemma_renamed_len(
    names: Seq<Seq<char>>,
    nodes: Seq<NodeInfo>,
    order: Seq<(usize, Option<usize>)>,
    map: Map<Seq<char>, usize>,
    lights: bool,
    k: int,
)
    ensures
        renamed(names, nodes, order, map, lights, k).len() == names.len(),
    decreases k,
{
    if k > 0 {
        lemma_renamed_len(names, nodes, order, map, lights, k - 1);
    }
}

pub open spec fn texts_of(v: Seq<String>) -> Seq<Seq<char>> {
    Seq::new(v.len(), |i: int| v[i]@)
}

fn arena_name_of(name: &Option<String>, k: usize) -> (r: String)
    ensures
        r@ == arena_name(*name, k as nat),
{
    match name {
        Some(n) => n.clone(),
        None => {
            let mut v: Vec<char> = Vec::new();
            push_decimal(&mut v, k);
            assert(v@ =~= decimal(k as nat));
            string_from_chars(&v)
        },
    }
}

fn rename_slot(map: &TextMap<usize>, name: &Option<String>, names: &mut Vec<String>, new_name: &String)
    requires
        map.wf(),
    ensures
        final(names)@.len() == old(names)@.len(),
        texts_of(final(names)@) == match slot_of(map.as_map(), *name, old(names)@.len()) {
            Some(c) => texts_of(old(names)@).update(c as int, new_name@),
            None => texts_of(old(names)@),
        },
{
    match name {
        Some(n) => match map.get(n.as_str()) {
            Some(c) => {
                if *c < names.len() {
                    let ghost before = texts_of(names@);
                    names.set(*c, new_name.clone());
                    assert(texts_of(names@) =~= before.update(*c as int, new_name@));
                }
            },
            None => {},
        },
        None => {},
    }
}

/// Reads the hierarchy below `root` into an arena in breadth-first order:
/// each node named by its own name or its arena position, with its parent,
/// its children (the later positions whose parent it is) and the imported
/// meshes of its mesh ids. A camera or light that a node names takes the
/// node's arena name (the last such node wins).
pub fn import_node(
    nodes: &Vec<NodeInfo>,
    root: usize,
    mesh_spans: &TextMap<(u32, u32)>,
    camera_map: &TextMap<usize>,
    camera_names: &mut Vec<String>,
    light_map: &TextMap<usize>,
    light_names: &mut Vec<String>,
) -> (r: Vec<ImportedNode>)
    requires
        walk_readable(info_children(nodes@), root as int),
        mesh_spans.wf(),
        spans_fit(mesh_spans.as_map()),
        camera_map.wf(),
        light_map.wf(),
    ensures
        ({
            let ord = hierarchy_order(info_children(nodes@), root);
            &&& r@.len() == ord.len()
            &&& forall|k: int| 0 <= k < r@.len() ==> {
                let e = ord[k];
                &&& (#[trigger] r@[k]).source == e.0
                &&& r@[k].parent == e.1
                &&& r@[k].name@ == arena_name(nodes@[e.0 as int].name, k as nat)
                &&& r@[k].children@ == child_positions(ord, k, ord.len() as int)
                &&& r@[k].mesh_indexes@ == span_indexes(mesh_spans.as_map(), ids(nodes@[e.0 as int].meshes@))
            }
            &&& texts_of(final(camera_names)@) == renamed(texts_of(old(camera_names)@), nodes@, ord, camera_map.as_map(), false, ord.len() as int)
            &&& texts_of(final(light_names)@) == renamed(texts_of(old(light_names)@), nodes@, ord, light_map.as_map(), true, ord.len() as int)
        }),
{
    let mut graph: Vec<SceneNode> = Vec::new();
    let mut i: usize = 0;
    while i < nodes.len()
        invariant
            i <= nodes@.len(),
            graph@.len() == i,
            forall|j: int| 0 <= j < i ==> (#[trigger] graph@[j]).children@ == nodes@[j].children@,
        decreases nodes@.len() - i,
    {
        let mut cs: Vec<usize> = Vec::new();
        let mut t: usize = 0;
        while t < nodes[i].children.len()
            invariant
                i < nodes@.len(),
                t <= nodes@[i as int].children@.len(),
                cs@ == nodes@[i as int].children@.take(t as int),
            decreases nodes@[i as int].children@.len() - t,
        {
            cs.push(nodes[i].children[t]);
            assert(nodes@[i as int].children@.take(t + 1) =~= nodes@[i as int].children@.take(t as int).push(nodes@[i as int].children@[t as int]));
            t = t + 1;
        }
        assert(nodes@[i as int].children@.take(nodes@[i as int].children@.len() as int) =~= nodes@[i as int].children@);
        graph.push(SceneNode { mesh: None, skin: None, camera: None, children: cs });
        i = i + 1;
    }
    assert(child_lists(graph@) =~= info_children(nodes@));
    let order = node_order(&graph, root);
    let ghost ord = order@;
    let ghost cam0 = texts_of(camera_names@);
    let ghost light0 = texts_of(light_names@);
    let mut arena: Vec<ImportedNode> = Vec::new();
    let mut k: usize = 0;
    while k < order.len()
        invariant
            ord == order@,
            ord == hierarchy_order(info_children(nodes@), root),
            forall|a: int| 0 <= a < ord.len() ==> (#[trigger] ord[a]).0 < nodes@.len(),
            forall|m: int| 1 <= m < ord.len() ==> {
                let e = #[trigger] ord[m];
                &&& e.1 is Some
                &&& e.1.unwrap() < m
            },
            ord.len() > 0 ==> ord[0].1 is None,
            mesh_spans.wf(),
            spans_fit(mesh_spans.as_map()),
            camera_map.wf(),
            light_map.wf(),
            k <= ord.len(),
            arena@.len() == k,
            forall|j: int| 0 <= j < k ==> {
                let e = ord[j];
                &&& (#[trigger] arena@[j]).source == e.0
                &&& arena@[j].parent == e.1
                &&& arena@[j].name@ == arena_name(nodes@[e.0 as int].name, j as nat)
                &&& arena@[j].children@ == child_positions(ord, j, k as int)
                &&& arena@[j].mesh_indexes@ == span_indexes(mesh_spans.as_map(), ids(nodes@[e.0 as int].meshes@))
            },
            camera_names@.len() == cam0.len(),
            light_names@.len() == light0.len(),
            texts_of(camera_names@) == renamed(cam0, nodes@, ord, camera_map.as_map(), false, k as int),
            texts_of(light_names@) == renamed(light0, nodes@, ord, light_map.as_map(), true, k as int),
        decreases ord.len() - k,
    {
        let (x, parent) = order[k];
        let node = &nodes[x];
        let name = arena_name_of(&node.name, k);
        let mut mesh_indexes: Vec<usize> = Vec::new();
        let mut j: usize = 0;
        while j < node.meshes.len()
            invariant
                x < nodes@.len(),
                *node == nodes@[x as int],
                mesh_spans.wf(),
                spans_fit(mesh_spans.as_map()),
                j <= node.meshes@.len(),
                mesh_indexes@ == span_indexes(mesh_spans.as_map(), ids(node.meshes@).take(j as int)),
            decreases node.meshes@.len() - j,
        {
            assert(ids(node.meshes@).take(j + 1).drop_last() =~= ids(node.meshes@).take(j as int));
            assert(ids(node.meshes@).take(j + 1).last() == node.meshes@[j as int]@);
            match mesh_spans.get(node.meshes[j].as_str()) {
                Some(span) => {
                    let (start, count) = *span;
                    assert(start + count <= u32::MAX);
                    let ghost before = mesh_indexes@;
                    let mut t: u32 = start;
                    while t < start + count
                        invariant
                            start <= t <= start + count,
                            start + count <= u32::MAX,
                            mesh_indexes@ == before + Seq::new((t - start) as nat, |q: int| (start + q) as usize),
                        decreases start + count - t,
                    {
                        mesh_indexes.push(t as usize);
                        assert(mesh_indexes@ =~= before + Seq::new((t + 1 - start) as nat, |q: int| (start + q) as usize));
                        t = t + 1;
                    }
                },
                None => {},
            }
            j = j + 1;
        }
        assert(ids(node.meshes@).take(node.meshes@.len() as int) =~= ids(node.meshes@));
        proof {
            lemma_renamed_len(cam0, nodes@, ord, camera_map.as_map(), false, k as int);
            lemma_renamed_len(light0, nodes@, ord, light_map.as_map(), true, k as int);
        }
        rename_slot(camera_map, &node.camera, camera_names, &name);
        rename_slot(light_map, &node.light, light_names, &name);
        match parent {
            Some(p) => {
                assert(p < k);
                let ghost ab = arena@;
                let mut entry = ImportedNode { name: String::new(), source: 0, parent: None, children: Vec::new(), mesh_indexes: Vec::new() };
                std::mem::swap(&mut entry, &mut arena[p]);
                entry.children.push(k);
                std::mem::swap(&mut entry, &mut arena[p]);
                assert forall|jj: int| 0 <= jj < k implies {
                    let e = ord[jj];
                    &&& (#[trigger] arena@[jj]).source == e.0
                    &&& arena@[jj].parent == e.1
                    &&& arena@[jj].name@ == arena_name(nodes@[e.0 as int].name, jj as nat)
                    &&& arena@[jj].children@ == child_positions(ord, jj, k + 1)
                    &&& arena@[jj].mesh_indexes@ == span_indexes(mesh_spans.as_map(), ids(nodes@[e.0 as int].meshes@))
                } by {
                    if jj != p as int {
                        assert(arena@[jj] == ab[jj]);
                    }
                }
            },
            None => {
                assert forall|jj: int| 0 <= jj < k implies (#[trigger] arena@[jj]).children@ == child_positions(ord, jj, k + 1) by {
                    assert(ord[k as int].1 != Some(jj as usize));
                }
            },
        }
        let ghost ab2 = arena@;
        arena.push(ImportedNode { name, source: x, parent, children: Vec::new(), mesh_indexes });
        proof {
            assert(child_positions(ord, k as int, k + 1) =~= Seq::<usize>::empty()) by {
                lemma_child_positions_before(ord, k as int, k + 1);
            }
            assert forall|jj: int| 0 <= jj < k implies #[trigger] arena@[jj] == ab2[jj] by {}
        }
        k = k + 1;
    }
    arena
}

proof fn lemma_child_positions_before(order: Seq<(usize, Option<usize>)>, p: int, m: int)
    requires
        0 <= p,
        m <= order.len(),
        forall|q: int| 1 <= q < order.len() ==> {
            let e = #[trigger] order[q];
            &&& e.1 is Some
            &&& e.1.unwrap() < q
        },
        order.len() > 0 ==> order[0].1 is None,
        m <= p + 1,
        p <= usize::MAX,
    ensures
        child_positions(order, p, m) == Seq::<usize>::empty(),
    decreases m,
{
    if m > 0 {
        lemma_child_positions_before(order, p, m - 1);
        let q = m - 1;
        if q >= 1 {
            assert(order[q].1.unwrap() < q);
        }
        assert(order[q].1 != Some(p as usize));
        assert(child_positions(order, p, m) =~= Seq::<usize>::empty());
    }
}

} // verus!
