//! Exporting the node hierarchy of a scene into a glTF 1.0 document:
//! nodes are visited breadth first from the root, each once, and named
//! uniquely, as are their meshes.
use vstd::prelude::*;

use crate::gltf_v1::names::{generate_unique_name, unique_name_spec, UniqueNames};
use crate::textmap::TextMap;

verus! {

/// The sum of the weights of the positions below `k` that `mask` marks.
pub open spec fn masked_sum(w: Seq<nat>, mask: Seq<bool>, k: int) -> nat
    decreases k,
{
    if k <= 0 {
        0
    } else {
        masked_sum(w, mask, k - 1) + if mask[k - 1] { w[k - 1] } else { 0 }
    }
}

/// The sum of the weights of the positions below `k`.
pub open spec fn weight_total(w: Seq<nat>, k: int) -> nat
    decreases k,
{
    if k <= 0 { 0 } else { weight_total(w, k - 1) + w[k - 1] }
}

proof fn lemma_masked_le_total(w: Seq<nat>, mask: Seq<bool>, k: int)
    ensures
        masked_sum(w, mask, k) <= weight_total(w, k),
    decreases k,
{
    if k > 0 {
        lemma_masked_le_total(w, mask, k - 1);
    }
}

proof fn lemma_masked_mark(w: Seq<nat>, mask: Seq<bool>, x: int, k: int)
    requires
        0 <= x < mask.len(),
        !mask[x],
        k <= mask.len(),
    ensures
        masked_sum(w, mask.update(x, true), k) == masked_sum(w, mask, k) + if x < k { w[x] } else { 0 },
    decreases k,
{
    if k > 0 {
        lemma_masked_mark(w, mask, x, k - 1);
    }
}

/// The number of children of each node.
pub open spec fn degrees(cs: Seq<Seq<usize>>) -> Seq<nat> {
    Seq::new(cs.len(), |i: int| cs[i].len())
}

/// The queue entries for the children of the node at position `k` of the
/// visit.
pub open spec fn child_entries(children: Seq<usize>, k: usize) -> Seq<(usize, Option<usize>)> {
    children.map_values(|c: usize| (c, Some(k)))
}

/// Breadth-first visiting with a set of visited nodes: take the first
/// queued (node, parent position) entry; pass over a node visited before;
/// else visit it (next position) and queue its children. `fuel` bounds the
/// number of steps.
pub open spec fn visit_run(
    cs: Seq<Seq<usize>>,
    queue: Seq<(usize, Option<usize>)>,
    checked: Seq<bool>,
    out: Seq<(usize, Option<usize>)>,
    fuel: nat,
) -> Seq<(usize, Option<usize>)>
    decreases fuel,
{
    if fuel == 0 || queue.len() == 0 {
        out
    } else {
        let x = queue[0];
        if checked[x.0 as int] {
            visit_run(cs, queue.drop_first(), checked, out, (fuel - 1) as nat)
        } else {
            visit_run(
                cs,
                queue.drop_first() + child_entries(cs[x.0 as int], out.len() as usize),
                checked.update(x.0 as int, true),
                out.push(x),
                (fuel - 1) as nat,
            )
        }
    }
}

/// The nodes visited from `root`, each once, in breadth-first order, with
/// the position of the node that queued it (none for `root`).
pub open spec fn visit_order(cs: Seq<Seq<usize>>, root: usize) -> Seq<(usize, Option<usize>)> {
    visit_run(
        cs,
        seq![(root, None::<usize>)],
        Seq::new(cs.len(), |i: int| false),
        Seq::empty(),
        weight_total(degrees(cs), cs.len() as int) + 2,
    )
}

/// Whether every child of a node visited from `root` is a node.
pub open spec fn visited_children_in_range(cs: Seq<Seq<usize>>, root: usize) -> bool {
    let order = visit_order(cs, root);
    forall|a: int, j: int| 0 <= a < order.len() && 0 <= j < cs[order[a].0 as int].len()
        ==> (#[trigger] cs[order[a].0 as int][j]) < cs.len()
}

/// Visiting on never forgets a node visited already.
proof fn lemma_visit_run_extends(
    cs: Seq<Seq<usize>>,
    queue: Seq<(usize, Option<usize>)>,
    checked: Seq<bool>,
    out: Seq<(usize, Option<usize>)>,
    fuel: nat,
)
    ensures
        out.len() <= visit_run(cs, queue, checked, out, fuel).len(),
        forall|a: int| 0 <= a < out.len() ==> #[trigger] visit_run(cs, queue, checked, out, fuel)[a] == out[a],
    decreases fuel,
{
    if fuel > 0 && queue.len() > 0 {
        let x = queue[0];
        if checked[x.0 as int] {
            lemma_visit_run_extends(cs, queue.drop_first(), checked, out, (fuel - 1) as nat);
        } else {
            let next = out.push(x);
            lemma_visit_run_extends(
                cs,
                queue.drop_first() + child_entries(cs[x.0 as int], out.len() as usize),
                checked.update(x.0 as int, true),
                next,
                (fuel - 1) as nat,
            );
            assert forall|a: int| 0 <= a < out.len() implies #[trigger] visit_run(cs, queue, checked, out, fuel)[a] == out[a] by {
                assert(next[a] == out[a]);
            }
        }
    }
}

/// The nodes visited from `root`: each once, breadth first.
pub fn visit_nodes(cs: &Vec<Vec<usize>>, root: usize) -> (r: Vec<(usize, Option<usize>)>)
    requires
        root < cs@.len(),
        visited_children_in_range(Seq::new(cs@.len(), |i: int| cs@[i]@), root),
    ensures
        r@ == visit_order(Seq::new(cs@.len(), |i: int| cs@[i]@), root),
        r@.len() <= cs@.len(),
        forall|a: int| 0 <= a < r@.len() ==> (#[trigger] r@[a]).0 < cs@.len(),
        forall|a: int, b: int| 0 <= a < b < r@.len() ==> r@[a].0 != r@[b].0,
        forall|a: int| 0 <= a < r@.len() ==> match (#[trigger] r@[a]).1 {
            Some(p) => p < a,
            None => true,
        },
{
    let ghost csv = Seq::new(cs@.len(), |i: int| cs@[i]@);
    let ghost n = cs@.len();
    let ghost deg = degrees(csv);
    let ghost total = weight_total(deg, n as int);
    let ghost fuel = total + 2;
    let mut checked: Vec<bool> = Vec::new();
    let mut z: usize = 0;
    while z < cs.len()
        invariant
            z <= cs@.len(),
            checked@.len() == z,
            forall|i: int| 0 <= i < z ==> !checked@[i],
        decreases cs@.len() - z,
    {
        checked.push(false);
        z = z + 1;
    }
    assert(checked@ =~= Seq::new(n, |i: int| false));
    let mut q: Vec<(usize, Option<usize>)> = Vec::new();
    q.push((root, None));
    let mut out: Vec<(usize, Option<usize>)> = Vec::new();
    let mut h: usize = 0;
    proof {
        assert(q@.skip(0) =~= seq![(root, None::<usize>)]);
        assert(masked_sum(deg, checked@, n as int) == 0) by {
            assert forall|k: int| 0 <= k <= n implies masked_sum(deg, checked@, k) == 0 by {
                lemma_zero_mask(deg, checked@, k);
            }
        }
    }
    while h < q.len()
        invariant
            csv == Seq::new(cs@.len(), |i: int| cs@[i]@),
            n == cs@.len(),
            deg == degrees(csv),
            total == weight_total(deg, n as int),
            fuel == total + 2,
            visited_children_in_range(csv, root),
            root < n,
            checked@.len() == n,
            h <= q@.len(),
            q@.len() == 1 + masked_sum(deg, checked@, n as int),
            forall|a: int| 0 <= a < q@.len() ==> (#[trigger] q@[a]).0 < n,
            forall|a: int| 0 <= a < out@.len() ==> (#[trigger] out@[a]).0 < n,
            forall|a: int| 0 <= a < out@.len() ==> checked@[(#[trigger] out@[a]).0 as int],
            forall|x: int| 0 <= x < n && #[trigger] checked@[x] ==> exists|a: int| 0 <= a < out@.len() && out@[a].0 == x,
            forall|a: int, b: int| 0 <= a < b < out@.len() ==> out@[a].0 != out@[b].0,
            forall|a: int| 0 <= a < out@.len() ==> match (#[trigger] out@[a]).1 {
                Some(p) => p < a,
                None => true,
            },
            forall|a: int| 0 <= a < q@.len() ==> match (#[trigger] q@[a]).1 {
                Some(p) => p < out@.len(),
                None => true,
            },
            visit_run(csv, q@.skip(h as int), checked@, out@, (fuel - h) as nat) == visit_order(csv, root),
        decreases fuel - h,
    {
        proof {
            lemma_masked_le_total(deg, checked@, n as int);
        }
        let e = q[h];
        let x = e.0;
        let ghost pend = q@.skip(h as int);
        assert(pend[0] == e);
        assert(pend.drop_first() =~= q@.skip(h + 1));
        if checked[x] {
            h = h + 1;
        } else {
            let ghost q0 = q@;
            let ghost c0 = checked@;
            let ghost o0 = out@;
            let pos = out.len();
            out.push(e);
            checked.set(x, true);
            proof {
                lemma_masked_mark(deg, c0, x as int, n as int);
            }
            proof {
                let fin = visit_order(csv, root);
                assert(visit_run(csv, pend, c0, o0, (fuel - h) as nat) == visit_run(
                    csv,
                    pend.drop_first() + child_entries(csv[x as int], o0.len() as usize),
                    c0.update(x as int, true),
                    o0.push(e),
                    (fuel - h - 1) as nat,
                ));
                lemma_visit_run_extends(
                    csv,
                    pend.drop_first() + child_entries(csv[x as int], o0.len() as usize),
                    c0.update(x as int, true),
                    o0.push(e),
                    (fuel - h - 1) as nat,
                );
                assert(fin[o0.len() as int] == o0.push(e)[o0.len() as int]);
                assert forall|jj: int| 0 <= jj < csv[x as int].len() implies #[trigger] csv[x as int][jj] < n by {
                    assert(fin[o0.len() as int].0 == x);
                    assert(csv[fin[o0.len() as int].0 as int][jj] < csv.len());
                }
            }
            let children = &cs[x];
            let mut j: usize = 0;
            while j < children.len()
                invariant
                    csv == Seq::new(cs@.len(), |i: int| cs@[i]@),
                    forall|jj: int| 0 <= jj < csv[x as int].len() ==> #[trigger] csv[x as int][jj] < n,
                    x < n,
                    n == cs@.len(),
                    children@ == csv[x as int],
                    j <= children@.len(),
                    pos == o0.len(),
                    q@ == q0 + child_entries(csv[x as int], pos).take(j as int),
                decreases children@.len() - j,
            {
                q.push((children[j], Some(pos)));
                assert(child_entries(csv[x as int], pos).take(j + 1)
                    =~= child_entries(csv[x as int], pos).take(j as int).push((children@[j as int], Some(pos))));
                j = j + 1;
            }
            proof {
                assert(child_entries(csv[x as int], pos).take(children@.len() as int) =~= child_entries(csv[x as int], pos));
                assert(q@.skip(h + 1) =~= pend.drop_first() + child_entries(csv[x as int], o0.len() as usize));
                assert forall|a: int| 0 <= a < q@.len() implies (#[trigger] q@[a]).0 < n by {
                    if a >= q0.len() {
                        let jj = a - q0.len();
                        assert(q@[a].0 == csv[x as int][jj]);
                    }
                }
                assert forall|a: int| 0 <= a < out@.len() implies checked@[(#[trigger] out@[a]).0 as int] by {
                    if a < o0.len() {
                        assert(out@[a] == o0[a]);
                    }
                }
                assert forall|y: int| 0 <= y < n && #[trigger] checked@[y] implies exists|a: int| 0 <= a < out@.len() && out@[a].0 == y by {
                    if y == x as int {
                        assert(out@[o0.len() as int].0 == y);
                    } else {
                        assert(c0[y]);
                        let a = choose|a: int| 0 <= a < o0.len() && o0[a].0 == y;
                        assert(out@[a].0 == y);
                    }
                }
                assert forall|a: int, b: int| 0 <= a < b < out@.len() implies out@[a].0 != out@[b].0 by {
                    if b == o0.len() {
                        assert(c0[o0[a].0 as int]);
                    }
                }
                assert forall|a: int| 0 <= a < out@.len() implies match (#[trigger] out@[a]).1 {
                    Some(p) => p < a,
                    None => true,
                } by {
                    if a == o0.len() {
                        match e.1 {
                            Some(p) => {
                                assert(q0[h as int] == e);
                            },
                            None => {},
                        }
                    }
                }
                assert forall|a: int| 0 <= a < q@.len() implies match (#[trigger] q@[a]).1 {
                    Some(p) => p < out@.len(),
                    None => true,
                } by {
                    if a < q0.len() {
                        assert(q@[a] == q0[a]);
                    }
                }
            }
            h = h + 1;
        }
    }
    proof {
        assert(q@.skip(h as int) =~= Seq::<(usize, Option<usize>)>::empty());
        lemma_distinct_bound(out@, n);
    }
    out
}

proof fn lemma_zero_mask(w: Seq<nat>, mask: Seq<bool>, k: int)
    requires
        forall|i: int| 0 <= i < mask.len() ==> !mask[i],
        k <= mask.len(),
    ensures
        masked_sum(w, mask, k) == 0,
    decreases k,
{
    if k > 0 {
        lemma_zero_mask(w, mask, k - 1);
    }
}

proof fn lemma_distinct_bound(s: Seq<(usize, Option<usize>)>, n: nat)
    requires
        forall|a: int, b: int| 0 <= a < b < s.len() ==> s[a].0 != s[b].0,
        forall|a: int| 0 <= a < s.len() ==> (#[trigger] s[a]).0 < n,
    ensures
        s.len() <= n,
{
    let t = s.map_values(|e: (usize, Option<usize>)| e.0 as int);
    assert(t.no_duplicates()) by {
        assert forall|a: int, b: int| 0 <= a < t.len() && 0 <= b < t.len() && a != b implies t[a] != t[b] by {
            if a < b {
                assert(s[a].0 != s[b].0);
            } else {
                assert(s[b].0 != s[a].0);
            }
        }
    }
    t.unique_seq_to_set();
    assert(t.to_set().subset_of(vstd::set_lib::set_int_range(0, n as int))) by {
        assert forall|x: int| t.to_set().contains(x) implies vstd::set_lib::set_int_range(0, n as int).contains(x) by {
            let a = choose|a: int| 0 <= a < t.len() && t[a] == x;
            assert(s[a].0 < n);
        }
    }
    vstd::set_lib::lemma_int_range(0, n as int);
    vstd::set_lib::lemma_len_subset(t.to_set(), vstd::set_lib::set_int_range(0, n as int));
}

/// A scene node as the glTF 1.0 exporter reads it: its name, whether its
/// transformation is the identity (within the configured epsilon), its
/// meshes and its children.
pub struct NodeInput {
    pub name: String,
    pub is_identity: bool,
    pub mesh_indexes: Vec<usize>,
    pub children: Vec<usize>,
}

/// An exported node: the scene node it comes from, whether it carries its
/// transformation matrix, and its children and meshes by name.
pub struct ExportedNode {
    pub source: usize,
    pub has_matrix: bool,
    pub children: Vec<String>,
    pub meshes: Vec<String>,
}

/// An exported node, as a value.
pub struct NodeView {
    pub source: usize,
    pub has_matrix: bool,
    pub children: Seq<Seq<char>>,
    pub meshes: Seq<Seq<char>>,
}

pub open spec fn strings_view(v: Seq<String>) -> Seq<Seq<char>> {
    Seq::new(v.len(), |i: int| v[i]@)
}

pub open spec fn node_view(n: ExportedNode) -> NodeView {
    NodeView { source: n.source, has_matrix: n.has_matrix, children: strings_view(n.children@), meshes: strings_view(n.meshes@) }
}

pub open spec fn nodes_view(m: Map<Seq<char>, ExportedNode>) -> Map<Seq<char>, NodeView> {
    m.map_values(|n: ExportedNode| node_view(n))
}

/// The child lists of the scene nodes.
pub open spec fn input_children(nodes: Seq<NodeInput>) -> Seq<Seq<usize>> {
    Seq::new(nodes.len(), |i: int| nodes[i].children@)
}

/// The mesh counts of the scene nodes.
pub open spec fn mesh_counts(nodes: Seq<NodeInput>) -> Seq<nat> {
    Seq::new(nodes.len(), |i: int| nodes[i].mesh_indexes@.len())
}

/// The base name a node is exported under: its name, or `node`.
pub open spec fn node_base(name: Seq<char>) -> Seq<char> {
    if name.len() == 0 { "node"@ } else { name }
}

/// The base name a mesh is exported under: its name, or `mesh`.
pub open spec fn mesh_base(name: Seq<char>) -> Seq<char> {
    if name.len() == 0 { "mesh"@ } else { name }
}

/// What exporting the nodes has built: the name table, the exported nodes
/// in key order, the name of each mesh, and the name of each visited node.
pub struct AssembleState {
    pub keys: Seq<Seq<char>>,
    pub counters: Seq<u32>,
    pub node_keys: Seq<Seq<char>>,
    pub nodes: Map<Seq<char>, NodeView>,
    pub meshes: Seq<Option<Seq<char>>>,
    pub names: Seq<Seq<char>>,
}

/// The meshes `ms` of a node named in order: each gets a unique name,
/// recorded as that mesh's name.
pub open spec fn name_meshes(
    keys: Seq<Seq<char>>,
    cs: Seq<u32>,
    meshes: Seq<Option<Seq<char>>>,
    mesh_names: Seq<Seq<char>>,
    ms: Seq<usize>,
) -> (Seq<Seq<char>>, Seq<u32>, Seq<Option<Seq<char>>>, Seq<Seq<char>>)
    decreases ms.len(),
{
    if ms.len() == 0 {
        (keys, cs, meshes, Seq::empty())
    } else {
        let r = name_meshes(keys, cs, meshes, mesh_names, ms.drop_last());
        let m = ms.last();
        let u = unique_name_spec(r.0, r.1, mesh_base(mesh_names[m as int]));
        (u.1, u.2, r.2.update(m as int, Some(u.0)), r.3.push(u.0))
    }
}

/// Exporting one visited node: it gets a unique name; the exported node of
/// its parent's name (if there is one) lists it as a child; its meshes are
/// named; and it is recorded under its name (replacing any node of that
/// name).
pub open spec fn assemble_step(st: AssembleState, nodes: Seq<NodeInput>, mesh_names: Seq<Seq<char>>, e: (usize, Option<usize>)) -> AssembleState {
    let inp = nodes[e.0 as int];
    let u = unique_name_spec(st.keys, st.counters, node_base(inp.name@));
    let name = u.0;
    let nodes1 = match e.1 {
        Some(p) => {
            let pn = st.names[p as int];
            if st.nodes.dom().contains(pn) {
                let old = st.nodes[pn];
                st.nodes.insert(pn, NodeView { source: old.source, has_matrix: old.has_matrix, children: old.children.push(name), meshes: old.meshes })
            } else {
                st.nodes
            }
        },
        None => st.nodes,
    };
    let mr = name_meshes(u.1, u.2, st.meshes, mesh_names, inp.mesh_indexes@);
    AssembleState {
        keys: mr.0,
        counters: mr.1,
        node_keys: if st.node_keys.contains(name) { st.node_keys } else { st.node_keys.push(name) },
        nodes: nodes1.insert(name, NodeView { source: e.0, has_matrix: !inp.is_identity, children: Seq::empty(), meshes: mr.3 }),
        meshes: mr.2,
        names: st.names.push(name),
    }
}

/// Exporting the visited nodes `order`, in order.
pub open spec fn assemble(st: AssembleState, nodes: Seq<NodeInput>, mesh_names: Seq<Seq<char>>, order: Seq<(usize, Option<usize>)>) -> AssembleState
    decreases order.len(),
{
    if order.len() == 0 {
        st
    } else {
        assemble_step(assemble(st, nodes, mesh_names, order.drop_last()), nodes, mesh_names, order.last())
    }
}

/// Nothing exported yet.
pub open spec fn initial_state(mesh_count: nat) -> AssembleState {
    AssembleState {
        keys: Seq::empty(),
        counters: Seq::empty(),
        node_keys: Seq::empty(),
        nodes: Map::empty(),
        meshes: Seq::new(mesh_count, |i: int| None::<Seq<char>>),
        names: Seq::empty(),
    }
}

/// The export of a scene's nodes: nothing for a scene without nodes; else
/// the nodes visited from the root (or node 0), exported in order.
pub open spec fn export_nodes_spec(nodes: Seq<NodeInput>, root: Option<usize>, mesh_names: Seq<Seq<char>>) -> AssembleState {
    if nodes.len() == 0 {
        initial_state(mesh_names.len())
    } else {
        let r = match root {
            Some(r) => r,
            None => 0,
        };
        assemble(initial_state(mesh_names.len()), nodes, mesh_names, visit_order(input_children(nodes), r))
    }
}

fn copy_strings(v: &Vec<String>) -> (r: Vec<String>)
    ensures
        strings_view(r@) == strings_view(v@),
{
    let mut r: Vec<String> = Vec::new();
    let mut i: usize = 0;
    while i < v.len()
        invariant
            i <= v@.len(),
            strings_view(r@) == strings_view(v@).take(i as int),
        decreases v@.len() - i,
    {
        let c = v[i].clone();
        assert(c@ == v@[i as int]@);
        let ghost before = strings_view(r@);
        r.push(c);
        assert(strings_view(r@) =~= before.push(c@));
        assert(strings_view(v@).take(i + 1) =~= strings_view(v@).take(i as int).push(v@[i as int]@));
        i = i + 1;
    }
    assert(strings_view(v@).take(v@.len() as int) =~= strings_view(v@));
    r
}

/// The nodes exported, by name, and the name of each mesh.
pub struct NodeExport {
    pub nodes: TextMap<ExportedNode>,
    pub mesh_names: Vec<Option<String>>,
}

pub open spec fn opt_strings(v: Seq<Option<String>>) -> Seq<Option<Seq<char>>> {
    Seq::new(v.len(), |i: int| match v[i] {
        Some(s) => Some(s@),
        None => None,
    })
}

fn base_name(name: &String, fallback: &str) -> (r: String)
    ensures
        r@ == if name@.len() == 0 { fallback@ } else { name@ },
{
    if crate::text::string_is_empty(name) {
        crate::text::string_from_chars(&crate::text::chars_of(fallback))
    } else {
        name.clone()
    }
}

/// Lists `name` as a child of the exported node named `pname`, if there
/// is one.
fn add_child(out: &mut TextMap<ExportedNode>, pname: &String, name: &String)
    requires
        old(out).wf(),
    ensures
        final(out).wf(),
        final(out).keys() == old(out).keys(),
        nodes_view(final(out).as_map()) == if old(out).as_map().dom().contains(pname@) {
            let o = nodes_view(old(out).as_map())[pname@];
            nodes_view(old(out).as_map()).insert(pname@, NodeView {
                source: o.source,
                has_matrix: o.has_matrix,
                children: o.children.push(name@),
                meshes: o.meshes,
            })
        } else {
            nodes_view(old(out).as_map())
        },
{
    proof {
        out.lemma_dom_is_keys(pname@);
    }
    match out.position(pname.as_str()) {
        Some(i) => {
            let o = out.value_at(i);
            let mut children = copy_strings(&o.children);
            let ghost cb = strings_view(children@);
            children.push(name.clone());
            assert(strings_view(children@) =~= cb.push(name@));
            let n = ExportedNode { source: o.source, has_matrix: o.has_matrix, children, meshes: copy_strings(&o.meshes) };
            let ghost m0 = out.as_map();
            out.set_at(i, n);
            assert(nodes_view(out.as_map()) =~= nodes_view(m0).insert(pname@, node_view(n)));
        },
        None => {},
    }
}

/// Names the meshes `ms` of a node (see `name_meshes`).
fn name_node_meshes(
    names: &mut UniqueNames,
    mesh_out: &mut Vec<Option<String>>,
    mesh_names: &Vec<String>,
    ms: &Vec<usize>,
) -> (r: Vec<String>)
    requires
        old(names).wf(),
        forall|j: int| 0 <= j < ms@.len() ==> (#[trigger] ms@[j]) < mesh_names@.len(),
        old(mesh_out)@.len() == mesh_names@.len(),
        old(names).key_seq().len() + old(names).calls() + 2 * ms@.len() < u32::MAX,
    ensures
        final(names).wf(),
        final(names).calls() == old(names).calls() + ms@.len(),
        final(names).key_seq().len() <= old(names).key_seq().len() + ms@.len(),
        final(mesh_out)@.len() == mesh_names@.len(),
        (final(names).key_seq(), final(names).counter_seq(), opt_strings(final(mesh_out)@), strings_view(r@))
            == name_meshes(old(names).key_seq(), old(names).counter_seq(), opt_strings(old(mesh_out)@), strings_view(mesh_names@), ms@),
{
    let ghost k0 = names.key_seq();
    let ghost c0 = names.counter_seq();
    let ghost calls0 = names.calls();
    let ghost o0 = opt_strings(mesh_out@);
    let mut r: Vec<String> = Vec::new();
    let mut j: usize = 0;
    assert(ms@.take(0) =~= Seq::<usize>::empty());
    while j < ms.len()
        invariant
            names.wf(),
            forall|t: int| 0 <= t < ms@.len() ==> (#[trigger] ms@[t]) < mesh_names@.len(),
            mesh_out@.len() == mesh_names@.len(),
            k0.len() + calls0 + 2 * ms@.len() < u32::MAX,
            j <= ms@.len(),
            names.calls() == calls0 + j,
            names.key_seq().len() <= k0.len() + j,
            (names.key_seq(), names.counter_seq(), opt_strings(mesh_out@), strings_view(r@))
                == name_meshes(k0, c0, o0, strings_view(mesh_names@), ms@.take(j as int)),
        decreases ms@.len() - j,
    {
        let m = ms[j];
        assert(ms@.take(j + 1).drop_last() =~= ms@.take(j as int));
        assert(ms@.take(j + 1).last() == m);
        let base = base_name(&mesh_names[m], "mesh");
        assert(base@ == mesh_base(strings_view(mesh_names@)[m as int]));
        proof { names.lemma_counters_have_room(); }
        let u = generate_unique_name(base.as_str(), names);
        let ghost ob = opt_strings(mesh_out@);
        let ghost rb = strings_view(r@);
        mesh_out.set(m, Some(u.clone()));
        assert(opt_strings(mesh_out@) =~= ob.update(m as int, Some(u@)));
        r.push(u);
        assert(strings_view(r@) =~= rb.push(u@));
        j = j + 1;
    }
    assert(ms@.take(ms@.len() as int) =~= ms@);
    r
}

proof fn lemma_assemble_names_len(st: AssembleState, nodes: Seq<NodeInput>, mesh_names: Seq<Seq<char>>, order: Seq<(usize, Option<usize>)>)
    ensures
        assemble(st, nodes, mesh_names, order).names.len() == st.names.len() + order.len(),
    decreases order.len(),
{
    if order.len() > 0 {
        lemma_assemble_names_len(st, nodes, mesh_names, order.drop_last());
    }
}

/// The positions marked by the nodes visited at positions below `k`.
pub open spec fn visited_mask(order: Seq<(usize, Option<usize>)>, k: int, n: nat) -> Seq<bool> {
    Seq::new(n, |i: int| exists|a: int| 0 <= a < k && order[a].0 == i)
}

/// The node the visit starts from: the root, or node 0.
pub open spec fn root_or_first(root: Option<usize>) -> usize {
    match root {
        Some(r) => r,
        None => 0,
    }
}

/// Whether every mesh of a node visited from `root` is one of the
/// `mesh_count` meshes.
pub open spec fn visited_meshes_in_range(nodes: Seq<NodeInput>, root: usize, mesh_count: nat) -> bool {
    let order = visit_order(input_children(nodes), root);
    forall|a: int, j: int| 0 <= a < order.len() && 0 <= j < nodes[order[a].0 as int].mesh_indexes@.len()
        ==> (#[trigger] nodes[order[a].0 as int].mesh_indexes@[j]) < mesh_count
}

/// Exports the nodes of a scene (see `export_nodes_spec`): the exported
/// nodes by name, and the name each mesh is exported under.
pub fn export_nodes(nodes: &Vec<NodeInput>, root: Option<usize>, mesh_names: &Vec<String>) -> (r: NodeExport)
    requires
        nodes@.len() > 0 ==> match root {
            Some(x) => x < nodes@.len(),
            None => true,
        },
        nodes@.len() > 0 ==> visited_children_in_range(input_children(nodes@), root_or_first(root)),
        nodes@.len() > 0 ==> visited_meshes_in_range(nodes@, root_or_first(root), mesh_names@.len()),
        2 * (nodes@.len() + weight_total(mesh_counts(nodes@), nodes@.len() as int)) + 2 < u32::MAX,
    ensures
        r.nodes.wf(),
        ({
            let st = export_nodes_spec(nodes@, root, strings_view(mesh_names@));
            &&& r.nodes.keys() == st.node_keys
            &&& nodes_view(r.nodes.as_map()) == st.nodes
            &&& opt_strings(r.mesh_names@) == st.meshes
        }),
{
    let mut mesh_out: Vec<Option<String>> = Vec::new();
    let mut z: usize = 0;
    while z < mesh_names.len()
        invariant
            z <= mesh_names@.len(),
            mesh_out@.len() == z,
            forall|i: int| 0 <= i < z ==> (#[trigger] mesh_out@[i]) is None,
        decreases mesh_names@.len() - z,
    {
        mesh_out.push(None);
        z = z + 1;
    }
    let ghost mnv = strings_view(mesh_names@);
    assert(opt_strings(mesh_out@) =~= initial_state(mesh_names@.len()).meshes);
    let mut out: TextMap<ExportedNode> = TextMap::new();
    assert(nodes_view(out.as_map()) =~= Map::<Seq<char>, NodeView>::empty());
    if nodes.len() == 0 {
        return NodeExport { nodes: out, mesh_names: mesh_out };
    }
    let r = match root {
        Some(x) => x,
        None => 0,
    };
    let mut children: Vec<Vec<usize>> = Vec::new();
    let mut c: usize = 0;
    while c < nodes.len()
        invariant
            c <= nodes@.len(),
            children@.len() == c,
            forall|i: int| 0 <= i < c ==> (#[trigger] children@[i])@ == nodes@[i].children@,
        decreases nodes@.len() - c,
    {
        let mut v: Vec<usize> = Vec::new();
        let mut t: usize = 0;
        while t < nodes[c].children.len()
            invariant
                c < nodes@.len(),
                t <= nodes@[c as int].children@.len(),
                v@ == nodes@[c as int].children@.take(t as int),
            decreases nodes@[c as int].children@.len() - t,
        {
            v.push(nodes[c].children[t]);
            assert(nodes@[c as int].children@.take(t + 1) =~= nodes@[c as int].children@.take(t as int).push(nodes@[c as int].children@[t as int]));
            t = t + 1;
        }
        assert(nodes@[c as int].children@.take(nodes@[c as int].children@.len() as int) =~= nodes@[c as int].children@);
        children.push(v);
        c = c + 1;
    }
    assert(Seq::new(children@.len(), |i: int| children@[i]@) =~= input_children(nodes@));
    let order = visit_nodes(&children, r);
    let ghost ord = order@;
    let ghost n = nodes@.len();
    let ghost mc = mesh_counts(nodes@);
    let ghost init = initial_state(mesh_names@.len());
    let mut names = UniqueNames::new();
    let mut visit_names: Vec<String> = Vec::new();
    let mut k: usize = 0;
    proof {
        assert(ord.take(0) =~= Seq::<(usize, Option<usize>)>::empty());
        assert(visited_mask(ord, 0, n) =~= Seq::new(n, |i: int| false));
        lemma_zero_mask(mc, visited_mask(ord, 0, n), n as int);
        assert(strings_view(visit_names@) =~= Seq::<Seq<char>>::empty());
    }
    while k < order.len()
        invariant
            ord == order@,
            ord == visit_order(input_children(nodes@), r),
            n == nodes@.len(),
            ord.len() <= n,
            mc == mesh_counts(nodes@),
            mnv == strings_view(mesh_names@),
            init == initial_state(mesh_names@.len()),
            forall|a: int| 0 <= a < ord.len() ==> (#[trigger] ord[a]).0 < n,
            forall|a: int, b: int| 0 <= a < b < ord.len() ==> ord[a].0 != ord[b].0,
            forall|a: int| 0 <= a < ord.len() ==> match (#[trigger] ord[a]).1 {
                Some(p) => p < a,
                None => true,
            },
            visited_meshes_in_range(nodes@, r, mesh_names@.len()),
            2 * (n + weight_total(mc, n as int)) + 2 < u32::MAX,
            k <= ord.len(),
            out.wf(),
            names.wf(),
            mesh_out@.len() == mesh_names@.len(),
            names.key_seq().len() + names.calls() <= 2 * (k + masked_sum(mc, visited_mask(ord, k as int, n), n as int)),
            k <= n,
            ({
                let st = assemble(init, nodes@, mnv, ord.take(k as int));
                &&& names.key_seq() == st.keys
                &&& names.counter_seq() == st.counters
                &&& out.keys() == st.node_keys
                &&& nodes_view(out.as_map()) == st.nodes
                &&& opt_strings(mesh_out@) == st.meshes
                &&& strings_view(visit_names@) == st.names
            }),
        decreases ord.len() - k,
    {
        let (x, parent) = order[k];
        let ghost st = assemble(init, nodes@, mnv, ord.take(k as int));
        let ghost mask = visited_mask(ord, k as int, n);
        proof {
            assert(ord.take(k + 1).drop_last() =~= ord.take(k as int));
            assert(ord.take(k + 1).last() == (x, parent));
            assert(!mask[x as int]) by {
                if mask[x as int] {
                    let a = choose|a: int| 0 <= a < k && ord[a].0 == x as int;
                    assert(ord[a].0 != ord[k as int].0);
                }
            }
            assert(visited_mask(ord, k + 1, n) =~= mask.update(x as int, true)) by {
                assert forall|i: int| 0 <= i < n implies visited_mask(ord, k + 1, n)[i] == mask.update(x as int, true)[i] by {
                    if i == x as int {
                        assert(ord[k as int].0 == i);
                    } else if visited_mask(ord, k + 1, n)[i] {
                        let a = choose|a: int| 0 <= a < k + 1 && ord[a].0 == i;
                        assert(a != k as int);
                    }
                }
            }
            lemma_masked_mark(mc, mask, x as int, n as int);
            lemma_masked_le_total(mc, visited_mask(ord, k + 1, n), n as int);
            assert(mc[x as int] == nodes@[x as int].mesh_indexes@.len());
        }
        assert forall|j: int| 0 <= j < nodes@[x as int].mesh_indexes@.len()
            implies (#[trigger] nodes@[x as int].mesh_indexes@[j]) < mesh_names@.len() by {
            assert(nodes@[ord[k as int].0 as int].mesh_indexes@[j] < mesh_names@.len());
        }
        let inp = &nodes[x];
        let base = base_name(&inp.name, "node");
        proof { names.lemma_counters_have_room(); }
        let name = generate_unique_name(base.as_str(), &mut names);
        match parent {
            Some(p) => {
                assert(p < k);
                proof {
                    lemma_assemble_names_len(init, nodes@, mnv, ord.take(k as int));
                }
                assert(strings_view(visit_names@).len() == visit_names@.len());
                add_child(&mut out, &visit_names[p], &name);
            },
            None => {},
        }
        let meshes = name_node_meshes(&mut names, &mut mesh_out, mesh_names, &inp.mesh_indexes);
        let ghost vb = strings_view(visit_names@);
        let ghost m1 = out.as_map();
        let node = ExportedNode { source: x, has_matrix: !inp.is_identity, children: Vec::new(), meshes };
        assert(strings_view(node.children@) =~= Seq::<Seq<char>>::empty());
        let ghost nv = node_view(node);
        out.insert(name.clone(), node);
        visit_names.push(name);
        proof {
            assert(strings_view(visit_names@) =~= vb.push(name@));
            let st2 = assemble(init, nodes@, mnv, ord.take(k + 1));
            assert(st2 == assemble_step(st, nodes@, mnv, (x, parent)));
            assert(nodes_view(m1.insert(name@, node)) =~= nodes_view(m1).insert(name@, nv));
            assert(nodes_view(out.as_map()) =~= st2.nodes);
        }
        k = k + 1;
    }
    proof {
        assert(ord.take(ord.len() as int) =~= ord);
    }
    NodeExport { nodes: out, mesh_names: mesh_out }
}

} // verus!
