//! The node hierarchy of a glTF scene, read breadth first into an arena.
use vstd::prelude::*;

verus! {

/// A node of a glTF document, as far as the hierarchy is concerned: the
/// mesh, skin and camera it refers to, and its children.
pub struct SceneNode {
    pub mesh: Option<usize>,
    pub skin: Option<usize>,
    pub camera: Option<usize>,
    pub children: Vec<usize>,
}

/// The child lists of the nodes.
pub open spec fn child_lists(nodes: Seq<SceneNode>) -> Seq<Seq<usize>> {
    Seq::new(nodes.len(), |i: int| nodes[i].children@)
}

/// Every child is a node and `root` is a node: the references that a
/// document's validation ensures.
pub open spec fn refs_valid(cs: Seq<Seq<usize>>, root: int) -> bool {
    &&& 0 <= root < cs.len()
    &&& forall|p: int, j: int| 0 <= p < cs.len() && 0 <= j < cs[p].len() ==> (#[trigger] cs[p][j]) < cs.len()
}

/// Whether the breadth-first walk over the queued nodes `q` runs out
/// within `fuel` steps: a step takes the first queued node and queues its
/// children.
pub open spec fn walk_ends(cs: Seq<Seq<usize>>, q: Seq<usize>, fuel: nat) -> bool
    decreases fuel,
{
    if q.len() == 0 {
        true
    } else if fuel == 0 {
        false
    } else {
        walk_ends(cs, q.drop_first() + cs[q[0] as int], (fuel - 1) as nat)
    }
}

/// The hierarchy below `root` can be read: its references are valid and
/// the breadth-first walk from it ends (no node below `root` is its own
/// descendant) within as many steps as a `usize` counts. A node may be
/// the child of several parents; it is then read once for each.
pub open spec fn walk_readable(cs: Seq<Seq<usize>>, root: int) -> bool {
    &&& refs_valid(cs, root)
    &&& walk_ends(cs, seq![root as usize], usize::MAX as nat)
}

/// The nodes of queued entries.
pub open spec fn nodes_of(q: Seq<(usize, Option<usize>)>) -> Seq<usize> {
    q.map_values(|e: (usize, Option<usize>)| e.0)
}

/// The queue entries for the children of the entry at position `k`.
pub open spec fn child_entries(children: Seq<usize>, k: usize) -> Seq<(usize, Option<usize>)> {
    children.map_values(|c: usize| (c, Some(k)))
}

/// Breadth-first reading: take the first queued (node, parent) entry, give
/// it the next position, and queue its children with that position as
/// their parent. `fuel` bounds the number of steps.
pub open spec fn bfs_run(
    cs: Seq<Seq<usize>>,
    queue: Seq<(usize, Option<usize>)>,
    done: Seq<(usize, Option<usize>)>,
    fuel: nat,
) -> Seq<(usize, Option<usize>)>
    decreases fuel,
{
    if fuel == 0 || queue.len() == 0 {
        done
    } else {
        let x = queue[0];
        bfs_run(
            cs,
            queue.drop_first() + child_entries(cs[x.0 as int], done.len() as usize),
            done.push(x),
            (fuel - 1) as nat,
        )
    }
}

/// The nodes below `root` in breadth-first order, each with the position
/// of its parent (none for `root`, which comes first).
pub open spec fn hierarchy_order(cs: Seq<Seq<usize>>, root: usize) -> Seq<(usize, Option<usize>)> {
    bfs_run(cs, seq![(root, None::<usize>)], Seq::empty(), usize::MAX as nat)
}

/// A walk that ends within `fuel` steps has at most `fuel` queued nodes.
proof fn lemma_walk_len(cs: Seq<Seq<usize>>, q: Seq<usize>, fuel: nat)
    requires
        walk_ends(cs, q, fuel),
    ensures
        q.len() <= fuel,
    decreases fuel,
{
    if q.len() > 0 {
        lemma_walk_len(cs, q.drop_first() + cs[q[0] as int], (fuel - 1) as nat);
    }
}

/// The nodes below `root` in breadth-first order, each with the position
/// of its parent in the result: `root` first, with no parent.
#[verifier::spinoff_prover]
#[verifier::rlimit(40)]
pub fn node_order(nodes: &Vec<SceneNode>, root: usize) -> (r: Vec<(usize, Option<usize>)>)
    requires
        walk_readable(child_lists(nodes@), root as int),
    ensures
        r@ == hierarchy_order(child_lists(nodes@), root),
        forall|a: int| 0 <= a < r@.len() ==> (#[trigger] r@[a]).0 < nodes@.len(),
        r@[0] == (root, None::<usize>),
        forall|m: int| 1 <= m < r@.len() ==> {
            let e = #[trigger] r@[m];
            &&& e.1 is Some
            &&& e.1.unwrap() < m
            &&& child_lists(nodes@)[r@[e.1.unwrap() as int].0 as int].contains(e.0)
        },
{
    let ghost cs = child_lists(nodes@);
    let ghost n: nat = nodes@.len();
    let ghost big: nat = usize::MAX as nat;
    let mut q: Vec<(usize, Option<usize>)> = Vec::new();
    q.push((root, None));
    assert(q@.skip(0) =~= seq![(root, None::<usize>)]);
    assert(q@.take(0) =~= Seq::<(usize, Option<usize>)>::empty());
    assert(nodes_of(q@.skip(0)) =~= seq![root]);
    let mut h: usize = 0;
    while h < q.len()
        invariant
            cs == child_lists(nodes@),
            n == nodes@.len(),
            big == usize::MAX as nat,
            refs_valid(cs, root as int),
            h <= q@.len(),
            q@[0] == (root, None::<usize>),
            forall|a: int| 0 <= a < q@.len() ==> (#[trigger] q@[a]).0 < n,
            forall|m: int| 1 <= m < q@.len() ==> {
                let e = #[trigger] q@[m];
                &&& e.1 is Some
                &&& e.1.unwrap() < h
                &&& e.1.unwrap() < m
                &&& exists|j: int| 0 <= j < cs[q@[e.1.unwrap() as int].0 as int].len()
                    && #[trigger] cs[q@[e.1.unwrap() as int].0 as int][j] == e.0
            },
            bfs_run(cs, q@.skip(h as int), q@.take(h as int), (big - h) as nat) == hierarchy_order(cs, root),
            walk_ends(cs, nodes_of(q@.skip(h as int)), (big - h) as nat),
        decreases big - h,
    {
        let x = q[h].0;
        let ghost q0 = q@;
        let ghost xs = cs[x as int];
        let ghost pend = nodes_of(q0.skip(h as int));
        proof {
            assert(pend[0] == x);
            assert(pend.len() > 0);
            assert((big - h) as nat > 0);
            assert(walk_ends(cs, pend.drop_first() + xs, (big - h - 1) as nat));
            lemma_walk_len(cs, pend.drop_first() + xs, (big - h - 1) as nat);
        }
        assert(nodes@[x as int].children@ == xs);
        let children = &nodes[x].children;
        let mut j: usize = 0;
        while j < children.len()
            invariant
                cs == child_lists(nodes@),
                n == nodes@.len(),
                big == usize::MAX as nat,
                refs_valid(cs, root as int),
                x < n,
                q0[h as int].0 == x,
                h < q0.len(),
                q0.len() + xs.len() <= big,
                xs == cs[x as int],
                children@ == xs,
                j <= xs.len(),
                q@ == q0 + child_entries(xs, h).take(j as int),
                q@[0] == (root, None::<usize>),
                forall|a: int| 0 <= a < q@.len() ==> (#[trigger] q@[a]).0 < n,
                forall|m: int| 1 <= m < q@.len() ==> {
                    let e = #[trigger] q@[m];
                    &&& e.1 is Some
                    &&& e.1.unwrap() <= h
                    &&& e.1.unwrap() < m
                    &&& exists|jj: int| 0 <= jj < cs[q@[e.1.unwrap() as int].0 as int].len()
                        && #[trigger] cs[q@[e.1.unwrap() as int].0 as int][jj] == e.0
                        && (e.1.unwrap() == h ==> jj < j)
                },
            decreases xs.len() - j,
        {
            let c = children[j];
            let ghost qb = q@;
            proof {
                assert(c == cs[x as int][j as int]);
            }
            q.push((c, Some(h)));
            proof {
                assert(child_entries(xs, h).take(j + 1) =~= child_entries(xs, h).take(j as int).push((c, Some(h))));
                assert forall|a: int| 0 <= a < q@.len() implies (#[trigger] q@[a]).0 < n by {
                    if a < qb.len() {
                        assert(qb[a].0 < n);
                    }
                }
                assert forall|m: int| 1 <= m < q@.len() implies {
                    let e = #[trigger] q@[m];
                    &&& e.1 is Some
                    &&& e.1.unwrap() <= h
                    &&& e.1.unwrap() < m
                    &&& exists|jj: int| 0 <= jj < cs[q@[e.1.unwrap() as int].0 as int].len()
                        && #[trigger] cs[q@[e.1.unwrap() as int].0 as int][jj] == e.0
                        && (e.1.unwrap() == h ==> jj < j + 1)
                } by {
                    if m == qb.len() {
                        assert(qb.len() >= q0.len());
                        assert(q@[h as int] == q0[h as int]);
                        assert(q@[m] == (c, Some(h)));
                        assert(q@[m].1.unwrap() == h);
                        assert(h < m);
                        assert(cs[q@[h as int].0 as int][j as int] == c);
                        assert(0 <= j < cs[q@[h as int].0 as int].len());
                    } else {
                        assert(q@[m] == qb[m]);
                        let e = qb[m];
                        let p = e.1.unwrap();
                        let jj = choose|jj: int| 0 <= jj < cs[qb[p as int].0 as int].len()
                            && #[trigger] cs[qb[p as int].0 as int][jj] == e.0
                            && (p == h ==> jj < j);
                        assert(q@[p as int] == qb[p as int]);
                        assert(cs[q@[p as int].0 as int][jj] == e.0);
                    }
                }
            }
            j = j + 1;
        }
        proof {
            assert(child_entries(xs, h).take(xs.len() as int) =~= child_entries(xs, h));
            let fuel = (big - h) as nat;
            let pq = q0.skip(h as int);
            let done = q0.take(h as int);
            assert(pq.len() > 0 && fuel > 0);
            assert(pq[0] == q0[h as int]);
            assert(done.len() == h);
            assert(q@.skip(h + 1) =~= pq.drop_first() + child_entries(cs[x as int], done.len() as usize));
            assert(q@.take(h + 1) =~= done.push(pq[0]));
            assert(nodes_of(q@.skip(h + 1)) =~= pend.drop_first() + xs);
            assert forall|m: int| 1 <= m < q@.len() implies {
                let e = #[trigger] q@[m];
                &&& e.1 is Some
                &&& e.1.unwrap() < h + 1
                &&& e.1.unwrap() < m
                &&& exists|jj: int| 0 <= jj < cs[q@[e.1.unwrap() as int].0 as int].len()
                    && #[trigger] cs[q@[e.1.unwrap() as int].0 as int][jj] == e.0
            } by {
                let e = q@[m];
                let p = e.1.unwrap();
                let jj = choose|jj: int| 0 <= jj < cs[q@[p as int].0 as int].len()
                    && #[trigger] cs[q@[p as int].0 as int][jj] == e.0
                    && (p == h ==> jj < xs.len());
                assert(cs[q@[p as int].0 as int][jj] == e.0);
            }
        }
        h = h + 1;
    }
    proof {
        assert(q@.skip(h as int) =~= Seq::<(usize, Option<usize>)>::empty());
        assert(q@.take(h as int) =~= q@);
        assert forall|m: int| 1 <= m < q@.len() implies {
            let e = #[trigger] q@[m];
            &&& e.1 is Some
            &&& e.1.unwrap() < m
            &&& child_lists(nodes@)[q@[e.1.unwrap() as int].0 as int].contains(e.0)
        } by {
            let e = q@[m];
            let p = e.1.unwrap();
            let j = choose|j: int| 0 <= j < cs[q@[p as int].0 as int].len()
                && #[trigger] cs[q@[p as int].0 as int][j] == e.0;
            assert(cs[q@[p as int].0 as int][j] == e.0);
        }
    }
    q
}

/// Whether the hierarchy below `root` can be read (see `walk_readable`):
/// the references are checked, then the breadth-first walk is run as far
/// as it goes. Like the reading itself, the walk does not come back when a
/// node below `root` is its own descendant.
pub fn hierarchy_readable(nodes: &Vec<SceneNode>, root: usize) -> (b: bool)
    ensures
        b == walk_readable(child_lists(nodes@), root as int),
{
    let ghost cs = child_lists(nodes@);
    let ghost big: nat = usize::MAX as nat;
    if root >= nodes.len() {
        return false;
    }
    let mut p: usize = 0;
    while p < nodes.len()
        invariant
            cs == child_lists(nodes@),
            p <= nodes@.len(),
            forall|a: int, j: int| 0 <= a < p && 0 <= j < cs[a].len() ==> (#[trigger] cs[a][j]) < cs.len(),
        decreases nodes@.len() - p,
    {
        let children = &nodes[p].children;
        let mut j: usize = 0;
        while j < children.len()
            invariant
                cs == child_lists(nodes@),
                p < nodes@.len(),
                children@ == cs[p as int],
                j <= children@.len(),
                forall|a: int, k: int| 0 <= a < p && 0 <= k < cs[a].len() ==> (#[trigger] cs[a][k]) < cs.len(),
                forall|k: int| 0 <= k < j ==> (#[trigger] cs[p as int][k]) < cs.len(),
            decreases children@.len() - j,
        {
            if children[j] >= nodes.len() {
                assert(cs[p as int][j as int] >= cs.len());
                return false;
            }
            j = j + 1;
        }
        p = p + 1;
    }
    assert(refs_valid(cs, root as int));
    let mut q: Vec<usize> = Vec::new();
    q.push(root);
    assert(q@.skip(0) =~= seq![root]);
    let mut h: usize = 0;
    while h < q.len()
        invariant
            cs == child_lists(nodes@),
            big == usize::MAX as nat,
            refs_valid(cs, root as int),
            h <= q@.len(),
            forall|a: int| 0 <= a < q@.len() ==> (#[trigger] q@[a]) < cs.len(),
            walk_ends(cs, seq![root], big) == walk_ends(cs, q@.skip(h as int), (big - h) as nat),
        decreases big - h,
    {
        let x = q[h];
        let ghost pend = q@.skip(h as int);
        let ghost xs = cs[x as int];
        let children = &nodes[x].children;
        assert(children@ == xs);
        assert(pend[0] == x);
        assert(walk_ends(cs, pend, (big - h) as nat) == walk_ends(cs, pend.drop_first() + xs, (big - h - 1) as nat));
        if children.len() > usize::MAX - q.len() {
            proof {
                if walk_ends(cs, pend.drop_first() + xs, (big - h - 1) as nat) {
                    lemma_walk_len(cs, pend.drop_first() + xs, (big - h - 1) as nat);
                }
            }
            return false;
        }
        let ghost q0 = q@;
        let mut j: usize = 0;
        while j < children.len()
            invariant
                cs == child_lists(nodes@),
                refs_valid(cs, root as int),
                x < cs.len(),
                children@ == xs,
                xs == cs[x as int],
                j <= xs.len(),
                q0.len() + xs.len() <= usize::MAX,
                q@ == q0 + xs.take(j as int),
                forall|a: int| 0 <= a < q@.len() ==> (#[trigger] q@[a]) < cs.len(),
            decreases xs.len() - j,
        {
            q.push(children[j]);
            assert(xs.take(j + 1) =~= xs.take(j as int).push(xs[j as int]));
            assert(xs[j as int] == cs[x as int][j as int]);
            j = j + 1;
        }
        assert(xs.take(xs.len() as int) =~= xs);
        assert(q@.skip(h + 1) =~= pend.drop_first() + xs);
        h = h + 1;
    }
    assert(q@.skip(h as int) =~= Seq::<usize>::empty());
    true
}

/// A node of the imported hierarchy: the document node it comes from, the
/// position of its parent in the arena, and the meshes it holds.
pub struct ArenaNode {
    pub node: usize,
    pub parent: Option<usize>,
    pub mesh_indexes: Vec<usize>,
}

/// The mesh offsets can be read for `mesh`: its range is in bounds and
/// does not run backwards.
pub open spec fn mesh_ok(offsets: Seq<u32>, mesh: Option<usize>) -> bool {
    match mesh {
        None => true,
        Some(m) => m + 1 < offsets.len() && offsets[m as int] <= offsets[m + 1],
    }
}

/// The imported meshes of a document mesh: the primitives from its offset
/// up to the next mesh's offset.
pub open spec fn mesh_range(offsets: Seq<u32>, mesh: Option<usize>) -> Seq<usize> {
    match mesh {
        None => Seq::empty(),
        Some(m) => Seq::new(
            (offsets[m + 1] - offsets[m as int]) as nat,
            |i: int| (offsets[m as int] + i) as usize,
        ),
    }
}

/// Whether some node of the hierarchy refers to camera `c`.
pub open spec fn camera_used(nodes: Seq<SceneNode>, order: Seq<(usize, Option<usize>)>, c: usize) -> bool {
    exists|k: int| 0 <= k < order.len() && (#[trigger] nodes[order[k].0 as int]).camera == Some(c)
}

/// Reads the hierarchy below `root` into an arena in breadth-first order:
/// each node with the position of its parent and the imported meshes of
/// its mesh. A camera that a node refers to takes the imported node's
/// name, which is empty.
pub fn import_hierarchy(
    nodes: &Vec<SceneNode>,
    root: usize,
    mesh_offsets: &Vec<u32>,
    camera_names: &mut Vec<String>,
) -> (r: Vec<ArenaNode>)
    requires
        walk_readable(child_lists(nodes@), root as int),
        forall|k: int| 0 <= k < hierarchy_order(child_lists(nodes@), root).len() ==>
            mesh_ok(mesh_offsets@, (#[trigger] nodes@[hierarchy_order(child_lists(nodes@), root)[k].0 as int]).mesh),
    ensures
        r@.len() == hierarchy_order(child_lists(nodes@), root).len(),
        forall|k: int| 0 <= k < r@.len() ==> {
            let e = hierarchy_order(child_lists(nodes@), root)[k];
            &&& (#[trigger] r@[k]).node == e.0
            &&& r@[k].parent == e.1
            &&& r@[k].mesh_indexes@ == mesh_range(mesh_offsets@, nodes@[e.0 as int].mesh)
        },
        final(camera_names)@.len() == old(camera_names)@.len(),
        forall|c: int| 0 <= c < old(camera_names)@.len() ==> (#[trigger] final(camera_names)@[c])@
            == if camera_used(nodes@, hierarchy_order(child_lists(nodes@), root), c as usize) {
                Seq::<char>::empty()
            } else {
                old(camera_names)@[c]@
            },
{
    let order = node_order(nodes, root);
    let ghost ord = order@;
    let ghost names0 = camera_names@;
    let mut r: Vec<ArenaNode> = Vec::new();
    let mut k: usize = 0;
    while k < order.len()
        invariant
            ord == order@,
            ord == hierarchy_order(child_lists(nodes@), root),
            forall|i: int| 0 <= i < ord.len() ==> (#[trigger] ord[i]).0 < nodes@.len(),
            forall|i: int| 0 <= i < ord.len() ==> mesh_ok(mesh_offsets@, (#[trigger] nodes@[ord[i].0 as int]).mesh),
            k <= ord.len(),
            r@.len() == k,
            forall|i: int| 0 <= i < k ==> {
                &&& (#[trigger] r@[i]).node == ord[i].0
                &&& r@[i].parent == ord[i].1
                &&& r@[i].mesh_indexes@ == mesh_range(mesh_offsets@, nodes@[ord[i].0 as int].mesh)
            },
            camera_names@.len() == names0.len(),
            forall|c: int| 0 <= c < names0.len() ==> (#[trigger] camera_names@[c])@
                == if exists|i: int| 0 <= i < k && (#[trigger] nodes@[ord[i].0 as int]).camera == Some(c as usize) {
                    Seq::<char>::empty()
                } else {
                    names0[c]@
                },
        decreases ord.len() - k,
    {
        let (x, parent) = order[k];
        let node = &nodes[x];
        assert(x == ord[k as int].0 && parent == ord[k as int].1);
        assert(mesh_ok(mesh_offsets@, nodes@[ord[k as int].0 as int].mesh));
        assert(mesh_ok(mesh_offsets@, node.mesh));
        let mut mesh_indexes: Vec<usize> = Vec::new();
        match node.mesh {
            Some(m) => {
                let n_off = mesh_offsets.len();
                assert(m + 1 < n_off);
                let start = mesh_offsets[m] as usize;
                let end = mesh_offsets[m + 1] as usize;
                let mut i = start;
                while i < end
                    invariant
                        start <= i <= end,
                        mesh_indexes@ == Seq::new((i - start) as nat, |t: int| (start + t) as usize),
                    decreases end - i,
                {
                    mesh_indexes.push(i);
                    assert(mesh_indexes@ =~= Seq::new((i + 1 - start) as nat, |t: int| (start + t) as usize));
                    i = i + 1;
                }
                assert(mesh_indexes@ =~= mesh_range(mesh_offsets@, node.mesh));
            },
            None => {
                assert(mesh_indexes@ =~= mesh_range(mesh_offsets@, node.mesh));
            },
        }
        let ghost before = camera_names@;
        match node.camera {
            Some(c) => {
                if c < camera_names.len() {
                    camera_names.set(c, String::new());
                }
            },
            None => {},
        }
        proof {
            assert forall|c: int| 0 <= c < names0.len() implies (#[trigger] camera_names@[c])@
                == if exists|i: int| 0 <= i < k + 1 && (#[trigger] nodes@[ord[i].0 as int]).camera == Some(c as usize) {
                    Seq::<char>::empty()
                } else {
                    names0[c]@
                } by {
                if nodes@[ord[k as int].0 as int].camera == Some(c as usize) {
                    assert(camera_names@[c]@ == Seq::<char>::empty());
                } else {
                    assert(camera_names@[c] == before[c]);
                    if exists|i: int| 0 <= i < k + 1 && (#[trigger] nodes@[ord[i].0 as int]).camera == Some(c as usize) {
                        let i = choose|i: int| 0 <= i < k + 1 && (#[trigger] nodes@[ord[i].0 as int]).camera == Some(c as usize);
                        assert(i < k);
                    }
                }
            }
        }
        r.push(ArenaNode { node: x, parent, mesh_indexes });
        k = k + 1;
    }
    r
}

/// One pair of joint and weight accessors of a skinned primitive, vertex
/// by vertex: four joint indices, four weights, and whether each weight is
/// above zero.
pub struct JointWeightSet<W> {
    pub joints: Vec<[u32; 4]>,
    pub weights: Vec<[W; 4]>,
    pub positive: Vec<[bool; 4]>,
}

/// The vertices a set covers: as many as both accessors have.
pub open spec fn covered<W>(s: JointWeightSet<W>) -> int {
    if s.joints@.len() <= s.weights@.len() { s.joints@.len() as int } else { s.weights@.len() as int }
}

/// The per-bone lists after slots `0..k` of vertex `i`: a slot whose weight
/// is above zero and whose joint is a bone adds (vertex, weight) to that
/// bone's list.
pub open spec fn add_slots<W>(
    w: Seq<Seq<(usize, W)>>,
    js: Seq<u32>,
    ws: Seq<W>,
    ps: Seq<bool>,
    i: usize,
    k: int,
) -> Seq<Seq<(usize, W)>>
    decreases k,
{
    if k <= 0 {
        w
    } else {
        let w1 = add_slots(w, js, ws, ps, i, k - 1);
        let b = js[k - 1] as int;
        if ps[k - 1] && b < w1.len() {
            w1.update(b, w1[b].push((i, ws[k - 1])))
        } else {
            w1
        }
    }
}

/// The per-bone lists after the first `n` vertices of a set.
pub open spec fn add_vertices<W>(w: Seq<Seq<(usize, W)>>, s: JointWeightSet<W>, n: int) -> Seq<Seq<(usize, W)>>
    decreases n,
{
    if n <= 0 {
        w
    } else {
        add_slots(
            add_vertices(w, s, n - 1),
            s.joints@[n - 1]@,
            s.weights@[n - 1]@,
            s.positive@[n - 1]@,
            (n - 1) as usize,
            4,
        )
    }
}

/// The per-bone lists after the sets `sets`, in order.
pub open spec fn add_sets<W>(w: Seq<Seq<(usize, W)>>, sets: Seq<JointWeightSet<W>>) -> Seq<Seq<(usize, W)>>
    decreases sets.len(),
{
    if sets.len() == 0 {
        w
    } else {
        add_vertices(add_sets(w, sets.drop_last()), sets.last(), covered(sets.last()))
    }
}

proof fn lemma_add_slots_len<W>(w: Seq<Seq<(usize, W)>>, js: Seq<u32>, ws: Seq<W>, ps: Seq<bool>, i: usize, k: int)
    ensures
        add_slots(w, js, ws, ps, i, k).len() == w.len(),
    decreases k,
{
    if k > 0 {
        lemma_add_slots_len(w, js, ws, ps, i, k - 1);
    }
}

/// The views of a list of lists.
pub open spec fn lists_view<T>(v: Seq<Vec<T>>) -> Seq<Seq<T>> {
    Seq::new(v.len(), |i: int| v[i]@)
}

/// Gathers, for each of `num_bones` bones, the (vertex, weight) pairs that
/// the joint and weight accessors of a primitive give it: every slot whose
/// weight is above zero and whose joint is below `num_bones`, set by set,
/// vertex by vertex, slot by slot.
pub fn group_joint_weights<W: Copy>(num_bones: usize, sets: &Vec<JointWeightSet<W>>) -> (r: Vec<Vec<(usize, W)>>)
    requires
        forall|t: int| 0 <= t < sets@.len() ==> (#[trigger] sets@[t]).positive@.len() == sets@[t].weights@.len(),
    ensures
        lists_view(r@) == add_sets(Seq::new(num_bones as nat, |b: int| Seq::<(usize, W)>::empty()), sets@),
{
    let ghost empty = Seq::new(num_bones as nat, |b: int| Seq::<(usize, W)>::empty());
    let mut r: Vec<Vec<(usize, W)>> = Vec::new();
    let mut b: usize = 0;
    while b < num_bones
        invariant
            b <= num_bones,
            r@.len() == b,
            forall|t: int| 0 <= t < b ==> (#[trigger] r@[t])@ == Seq::<(usize, W)>::empty(),
        decreases num_bones - b,
    {
        r.push(Vec::new());
        b = b + 1;
    }
    assert(lists_view(r@) =~= empty);
    let mut t: usize = 0;
    while t < sets.len()
        invariant
            forall|u: int| 0 <= u < sets@.len() ==> (#[trigger] sets@[u]).positive@.len() == sets@[u].weights@.len(),
            t <= sets@.len(),
            r@.len() == num_bones,
            lists_view(r@) == add_sets(empty, sets@.take(t as int)),
        decreases sets@.len() - t,
    {
        let s = &sets[t];
        assert(sets@.take(t + 1).drop_last() =~= sets@.take(t as int));
        assert(sets@.take(t + 1).last() == *s);
        let n = if s.joints.len() <= s.weights.len() { s.joints.len() } else { s.weights.len() };
        let ghost w0 = lists_view(r@);
        let mut i: usize = 0;
        while i < n
            invariant
                t < sets@.len(),
                *s == sets@[t as int],
                s.positive@.len() == s.weights@.len(),
                n as int == covered(*s),
                n <= s.joints@.len() && n <= s.weights@.len(),
                i <= n,
                r@.len() == num_bones,
                w0.len() == num_bones,
                lists_view(r@) == add_vertices(w0, *s, i as int),
            decreases n - i,
        {
            let js = s.joints[i];
            let ws = s.weights[i];
            let ps = s.positive[i];
            let ghost wi = lists_view(r@);
            let mut k: usize = 0;
            while k < 4
                invariant
                    k <= 4,
                    r@.len() == num_bones,
                    wi.len() == num_bones,
                    lists_view(r@) == add_slots(wi, js@, ws@, ps@, i, k as int),
                decreases 4 - k,
            {
                let joint = js[k] as usize;
                proof {
                    lemma_add_slots_len(wi, js@, ws@, ps@, i, k as int);
                }
                if ps[k] && joint < num_bones {
                    let ghost before = lists_view(r@);
                    let wk = ws[k];
                    let mut slot: Vec<(usize, W)> = Vec::new();
                    std::mem::swap(&mut slot, &mut r[joint]);
                    slot.push((i, wk));
                    std::mem::swap(&mut slot, &mut r[joint]);
                    assert(lists_view(r@) =~= before.update(joint as int, before[joint as int].push((i, wk))));
                } else {
                    assert(lists_view(r@) =~= add_slots(wi, js@, ws@, ps@, i, k + 1));
                }
                k = k + 1;
            }
            i = i + 1;
        }
        t = t + 1;
    }
    assert(sets@.take(sets@.len() as int) =~= sets@);
    r
}

/// The name of bone `i`: its joint's name, or `bone_` and its number.
pub open spec fn bone_name_spec(joint_name: Option<Seq<char>>, i: nat) -> Seq<char> {
    match joint_name {
        Some(n) => n,
        None => seq!['b', 'o', 'n', 'e', '_'] + crate::text::decimal(i),
    }
}

/// The name of bone `i`: its joint's name, or `bone_` and its number.
pub fn bone_name(joint_name: &Option<String>, i: usize) -> (r: String)
    ensures
        r@ == bone_name_spec(
            match joint_name {
                Some(n) => Some(n@),
                None => None,
            },
            i as nat,
        ),
{
    match joint_name {
        Some(n) => n.clone(),
        None => {
            let mut v: Vec<char> = Vec::new();
            v.push('b');
            v.push('o');
            v.push('n');
            v.push('e');
            v.push('_');
            crate::text::push_decimal(&mut v, i);
            assert(v@ =~= seq!['b', 'o', 'n', 'e', '_'] + crate::text::decimal(i as nat));
            crate::text::string_from_chars(&v)
        },
    }
}

/// A bone of an imported mesh: its name and the (vertex, weight) pairs it
/// moves.
pub struct ImportedBone<W> {
    pub name: String,
    pub weights: Vec<(usize, W)>,
}

/// The bones of a skinned primitive, one per joint: named by
/// `bone_name`, moving the vertices gathered for it, or vertex 0 with
/// weight `zero` when none were.
pub fn build_bones<W: Copy>(joint_names: &Vec<Option<String>>, weighting: Vec<Vec<(usize, W)>>, zero: W) -> (r: Vec<ImportedBone<W>>)
    requires
        weighting@.len() == joint_names@.len(),
    ensures
        r@.len() == joint_names@.len(),
        forall|i: int| 0 <= i < r@.len() ==> {
            &&& (#[trigger] r@[i]).name@ == bone_name_spec(
                match joint_names@[i] {
                    Some(n) => Some(n@),
                    None => None,
                },
                i as nat,
            )
            &&& r@[i].weights@ == if weighting@[i]@.len() == 0 { seq![(0usize, zero)] } else { weighting@[i]@ }
        },
{
    let ghost w0 = weighting@;
    let mut weighting = weighting;
    let mut r: Vec<ImportedBone<W>> = Vec::new();
    let mut i: usize = 0;
    while i < joint_names.len()
        invariant
            weighting@.len() == joint_names@.len(),
            w0.len() == joint_names@.len(),
            forall|j: int| i <= j < w0.len() ==> (#[trigger] weighting@[j])@ == w0[j]@,
            i <= joint_names@.len(),
            r@.len() == i,
            forall|j: int| 0 <= j < i ==> {
                &&& (#[trigger] r@[j]).name@ == bone_name_spec(
                    match joint_names@[j] {
                        Some(n) => Some(n@),
                        None => None,
                    },
                    j as nat,
                )
                &&& r@[j].weights@ == if w0[j]@.len() == 0 { seq![(0usize, zero)] } else { w0[j]@ }
            },
        decreases joint_names@.len() - i,
    {
        let name = bone_name(&joint_names[i], i);
        let mut ws: Vec<(usize, W)> = Vec::new();
        std::mem::swap(&mut ws, &mut weighting[i]);
        if ws.len() == 0 {
            ws.push((0, zero));
            assert(ws@ =~= seq![(0usize, zero)]);
        }
        r.push(ImportedBone { name, weights: ws });
        i = i + 1;
    }
    r
}

} // verus!
