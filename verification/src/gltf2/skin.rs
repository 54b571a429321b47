//! Skinning data of exported glTF 2.0 meshes: which joint each bone is,
//! which joints weigh on each vertex, and how those are laid out in groups
//! of four.
use vstd::prelude::*;

verus! {

/// A bone of a mesh: the node it moves, whether that node is exported, its
/// offset (bind) matrix, and the weight it gives each vertex it moves.
pub struct BoneInfo<W, M> {
    pub node_index: usize,
    pub node_exists: bool,
    pub offset_matrix: M,
    pub weights: Vec<(usize, W)>,
}

/// The joints of the skin so far: the node of each joint, with its inverse
/// bind matrix (the offset matrix of the bone that first named it).
pub struct SkinJoints<M> {
    pub joints: Vec<usize>,
    pub inverse_bind_matrices: Vec<M>,
}

/// The position of `node` among the joints, or the position it takes when
/// it is added.
pub open spec fn joint_index_spec(joints: Seq<usize>, node: usize) -> int {
    if joints.contains(node) {
        choose|i: int| 0 <= i < joints.len() && joints[i] == node && forall|j: int| 0 <= j < i ==> joints[j] != node
    } else {
        joints.len() as int
    }
}

/// The joints after `node` is named.
pub open spec fn joints_after(joints: Seq<usize>, node: usize) -> Seq<usize> {
    if joints.contains(node) { joints } else { joints.push(node) }
}

/// The (joint, weight) pairs of every vertex after the weights `ws` of the
/// joint `j` are added, in order.
pub open spec fn add_weights<W>(pairs: Seq<Seq<(usize, W)>>, j: usize, ws: Seq<(usize, W)>) -> Seq<Seq<(usize, W)>>
    decreases ws.len(),
{
    if ws.len() == 0 {
        pairs
    } else {
        let p = add_weights(pairs, j, ws.drop_last());
        let (v, w) = ws.last();
        p.update(v as int, p[v as int].push((j, w)))
    }
}

/// The joints and per-vertex pairs after the bones `bs`, in order: a bone
/// whose node is not exported is passed over.
pub open spec fn collect_spec<W, M>(joints: Seq<usize>, pairs: Seq<Seq<(usize, W)>>, bs: Seq<BoneInfo<W, M>>)
    -> (Seq<usize>, Seq<Seq<(usize, W)>>)
    decreases bs.len(),
{
    if bs.len() == 0 {
        (joints, pairs)
    } else {
        let (js, ps) = collect_spec(joints, pairs, bs.drop_last());
        let b = bs.last();
        if b.node_exists {
            (joints_after(js, b.node_index), add_weights(ps, joint_index_spec(js, b.node_index) as usize, b.weights@))
        } else {
            (js, ps)
        }
    }
}

/// Whether every weight of every bone names a vertex below `n`.
pub open spec fn weights_in_range<W, M>(bs: Seq<BoneInfo<W, M>>, n: nat) -> bool {
    forall|i: int, k: int| 0 <= i < bs.len() && 0 <= k < bs[i].weights@.len() ==> (#[trigger] bs[i].weights@[k]).0 < n
}

proof fn lemma_add_weights_len<W>(pairs: Seq<Seq<(usize, W)>>, j: usize, ws: Seq<(usize, W)>)
    requires
        forall|k: int| 0 <= k < ws.len() ==> (#[trigger] ws[k]).0 < pairs.len(),
    ensures
        add_weights(pairs, j, ws).len() == pairs.len(),
    decreases ws.len(),
{
    if ws.len() > 0 {
        lemma_add_weights_len(pairs, j, ws.drop_last());
    }
}

fn find_joint(joints: &Vec<usize>, node: usize) -> (r: Option<usize>)
    ensures
        match r {
            Some(i) => i < joints.len() && joints@.contains(node) && i == joint_index_spec(joints@, node),
            None => !joints@.contains(node),
        },
{
    let mut i: usize = 0;
    while i < joints.len()
        invariant
            i <= joints.len(),
            forall|k: int| 0 <= k < i ==> joints@[k] != node,
        decreases joints.len() - i,
    {
        if joints[i] == node {
            proof {
                assert(joints@[i as int] == node);
                let c = choose|c: int| 0 <= c < joints@.len() && joints@[c] == node && forall|j: int| 0 <= j < c ==> joints@[j] != node;
                assert(c == i);
            }
            return Some(i);
        }
        i = i + 1;
    }
    None
}

/// Registers the bones of one mesh as joints of the skin and gathers, for
/// every vertex, the (joint, weight) pairs that move it, in bone order.
pub fn collect_vertex_joints<W: Copy, M: Copy>(
    bones: &Vec<BoneInfo<W, M>>,
    num_verts: usize,
    skin: &mut SkinJoints<M>,
) -> (pairs: Vec<Vec<(usize, W)>>)
    requires
        weights_in_range(bones@, num_verts as nat),
        old(skin).joints@.len() == old(skin).inverse_bind_matrices@.len(),
    ensures
        final(skin).joints@.len() == final(skin).inverse_bind_matrices@.len(),
        pairs@.len() == num_verts,
        (final(skin).joints@, Seq::new(pairs@.len(), |v: int| pairs@[v]@))
            == collect_spec(old(skin).joints@, Seq::new(num_verts as nat, |v: int| Seq::<(usize, W)>::empty()), bones@),
{
    let ghost empty = Seq::new(num_verts as nat, |v: int| Seq::<(usize, W)>::empty());
    let mut pairs: Vec<Vec<(usize, W)>> = Vec::new();
    let mut v: usize = 0;
    while v < num_verts
        invariant
            v <= num_verts,
            pairs@.len() == v,
            forall|k: int| 0 <= k < v ==> (#[trigger] pairs@[k])@ == Seq::<(usize, W)>::empty(),
        decreases num_verts - v,
    {
        pairs.push(Vec::new());
        v = v + 1;
    }
    assert(Seq::new(pairs@.len(), |v: int| pairs@[v]@) =~= empty);
    let ghost j0 = skin.joints@;
    let mut b: usize = 0;
    while b < bones.len()
        invariant
            weights_in_range(bones@, num_verts as nat),
            skin.joints@.len() == skin.inverse_bind_matrices@.len(),
            b <= bones.len(),
            pairs@.len() == num_verts,
            (skin.joints@, Seq::new(pairs@.len(), |v: int| pairs@[v]@)) == collect_spec(j0, empty, bones@.take(b as int)),
        decreases bones.len() - b,
    {
        let bone = &bones[b];
        assert(bones@.take(b + 1).drop_last() =~= bones@.take(b as int));
        assert(bones@.take(b + 1).last() == *bone);
        if bone.node_exists {
            let ghost js = skin.joints@;
            let joint = match find_joint(&skin.joints, bone.node_index) {
                Some(i) => i,
                None => {
                    skin.joints.push(bone.node_index);
                    skin.inverse_bind_matrices.push(bone.offset_matrix);
                    skin.joints.len() - 1
                },
            };
            assert(joint == joint_index_spec(js, bone.node_index));
            assert(skin.joints@ == joints_after(js, bone.node_index));
            let ghost p0 = Seq::new(pairs@.len(), |v: int| pairs@[v]@);
            let mut k: usize = 0;
            while k < bone.weights.len()
                invariant
                    weights_in_range(bones@, num_verts as nat),
                    b < bones.len(),
                    *bone == bones@[b as int],
                    k <= bone.weights.len(),
                    pairs@.len() == num_verts,
                    p0.len() == num_verts,
                    Seq::new(pairs@.len(), |v: int| pairs@[v]@) == add_weights(p0, joint, bone.weights@.take(k as int)),
                decreases bone.weights.len() - k,
            {
                let (vid, w) = bone.weights[k];
                assert(bone.weights@.take(k + 1).drop_last() =~= bone.weights@.take(k as int));
                assert(vid < num_verts) by {
                    assert(bones@[b as int].weights@[k as int].0 < num_verts);
                }
                let ghost before = Seq::new(pairs@.len(), |v: int| pairs@[v]@);
                let mut slot: Vec<(usize, W)> = Vec::new();
                std::mem::swap(&mut slot, &mut pairs[vid]);
                slot.push((joint, w));
                std::mem::swap(&mut slot, &mut pairs[vid]);
                assert(Seq::new(pairs@.len(), |v: int| pairs@[v]@) =~= before.update(vid as int, before[vid as int].push((joint, w))));
                k = k + 1;
            }
            assert(bone.weights@.take(bone.weights.len() as int) =~= bone.weights@);
        }
        b = b + 1;
    }
    assert(bones@.take(bones.len() as int) =~= bones@);
    pairs
}

/// The largest number of pairs any vertex has (0 when there are none).
pub open spec fn max_pairs<W>(pairs: Seq<Seq<(usize, W)>>) -> nat
    decreases pairs.len(),
{
    if pairs.len() == 0 {
        0
    } else {
        let m = max_pairs(pairs.drop_last());
        if pairs.last().len() > m { pairs.last().len() } else { m }
    }
}

/// How many groups of four joints each vertex gets: enough for the vertex
/// with the most joints, or one group of four when the number of joints
/// per vertex is not limited.
pub open spec fn num_groups_spec(max_joints: nat, unlimited: bool) -> nat {
    let m = if unlimited { 4 } else { max_joints };
    ((m - 1) / 4 + 1) as nat
}

/// The joint and weight of slot `k` of group `g` of a vertex with the
/// given (sorted) pairs: the pair at `4 g + k`, or joint 0 with weight
/// `zero` past its pairs.
pub open spec fn slot_pair<W>(p: Seq<(usize, W)>, g: int, k: int, zero: W) -> (usize, W) {
    if g * 4 + k < p.len() { p[g * 4 + k] } else { (0usize, zero) }
}

/// Lays the (sorted) pairs of every vertex out in `groups` groups of four
/// joints and four weights: group `g` of vertex `v` is entry
/// `v + num_verts * g`.
pub fn layout_joint_groups<W: Copy>(pairs: &Vec<Vec<(usize, W)>>, groups: usize, zero: W) -> (r: (Vec<[usize; 4]>, Vec<[W; 4]>))
    requires
        pairs@.len() * groups <= usize::MAX,
        groups * 4 <= usize::MAX,
    ensures
        r.0@.len() == pairs@.len() * groups,
        r.1@.len() == pairs@.len() * groups,
        forall|g: int, v: int, k: int| 0 <= g < groups && 0 <= v < pairs@.len() && 0 <= k < 4 ==>
            #[trigger] r.0@[v + pairs@.len() * g]@[k] == slot_pair(pairs@[v]@, g, k, zero).0
            && r.1@[v + pairs@.len() * g]@[k] == slot_pair(pairs@[v]@, g, k, zero).1,
{
    let n = pairs.len();
    let mut joints: Vec<[usize; 4]> = Vec::new();
    let mut weights: Vec<[W; 4]> = Vec::new();
    let mut g: usize = 0;
    while g < groups
        invariant
            n == pairs@.len(),
            n * groups <= usize::MAX,
            groups * 4 <= usize::MAX,
            g <= groups,
            joints@.len() == n * g,
            weights@.len() == n * g,
            n > 0 ==> forall|i: int, k: int| 0 <= i < joints@.len() && 0 <= k < 4 ==>
                #[trigger] joints@[i]@[k] == slot_pair(pairs@[i % (n as int)]@, i / (n as int), k, zero).0
                && weights@[i]@[k] == slot_pair(pairs@[i % (n as int)]@, i / (n as int), k, zero).1,
        decreases groups - g,
    {
        proof {
            assert(n * (g + 1) <= n * groups) by (nonlinear_arith)
                requires g < groups;
            assert(n * (g + 1) == n * g + n) by (nonlinear_arith);
        }
        let mut v: usize = 0;
        while v < n
            invariant
                n == pairs@.len(),
                n * groups <= usize::MAX,
                groups * 4 <= usize::MAX,
                g < groups,
                n * (g + 1) == n * g + n,
                n * (g + 1) <= n * groups,
                v <= n,
                joints@.len() == n * g + v,
                weights@.len() == n * g + v,
                n > 0 ==> forall|i: int, k: int| 0 <= i < joints@.len() && 0 <= k < 4 ==>
                    #[trigger] joints@[i]@[k] == slot_pair(pairs@[i % (n as int)]@, i / (n as int), k, zero).0
                    && weights@[i]@[k] == slot_pair(pairs@[i % (n as int)]@, i / (n as int), k, zero).1,
            decreases n - v,
        {
            let p = &pairs[v];
            let mut js: [usize; 4] = [0, 0, 0, 0];
            let mut ws: [W; 4] = [zero, zero, zero, zero];
            let mut k: usize = 0;
            while k < 4
                invariant
                    g < groups,
                    groups * 4 <= usize::MAX,
                    k <= 4,
                    forall|kk: int| 0 <= kk < k ==> #[trigger] js@[kk] == slot_pair(p@, g as int, kk, zero).0
                        && ws@[kk] == slot_pair(p@, g as int, kk, zero).1,
                decreases 4 - k,
            {
                let idx = g * 4 + k;
                let ghost js0 = js@;
                let ghost ws0 = ws@;
                if idx < p.len() {
                    js.set(k, p[idx].0);
                    ws.set(k, p[idx].1);
                } else {
                    js.set(k, 0);
                    ws.set(k, zero);
                }
                assert(js@[k as int] == slot_pair(p@, g as int, k as int, zero).0);
                assert(ws@[k as int] == slot_pair(p@, g as int, k as int, zero).1);
                assert forall|kk: int| 0 <= kk < k implies js@[kk] == js0[kk] && ws@[kk] == ws0[kk] by {}
                k = k + 1;
            }
            proof {
                lemma_index_split(g as int, n as int, v as int);
            }
            joints.push(js);
            weights.push(ws);
            v = v + 1;
        }
        g = g + 1;
    }
    proof {
        assert forall|gg: int, vv: int, k: int| 0 <= gg < groups && 0 <= vv < n && 0 <= k < 4 implies
            #[trigger] joints@[vv + n * gg]@[k] == slot_pair(pairs@[vv]@, gg, k, zero).0
            && weights@[vv + n * gg]@[k] == slot_pair(pairs@[vv]@, gg, k, zero).1 by {
            lemma_index_split(gg, n as int, vv);
            assert(vv + n * gg < n * groups) by (nonlinear_arith)
                requires 0 <= gg < groups, 0 <= vv < n;
        }
    }
    (joints, weights)
}

proof fn lemma_index_split(g: int, n: int, v: int)
    requires
        0 <= v < n,
        0 <= g,
    ensures
        (n * g + v) % n == v,
        (n * g + v) / n == g,
        v + n * g == n * g + v,
{
    assert(g * n == n * g) by (nonlinear_arith);
    vstd::arithmetic::div_mod::lemma_fundamental_div_mod_converse(n * g + v, n, g, v);
}

/// The largest number of pairs any vertex has (0 when there are none).
pub fn max_joints_per_vertex<W>(pairs: &Vec<Vec<(usize, W)>>) -> (m: usize)
    ensures
        m == max_pairs(Seq::new(pairs@.len(), |v: int| pairs@[v]@)),
{
    let ghost ps = Seq::new(pairs@.len(), |v: int| pairs@[v]@);
    let mut m: usize = 0;
    let mut i: usize = 0;
    while i < pairs.len()
        invariant
            ps == Seq::new(pairs@.len(), |v: int| pairs@[v]@),
            i <= pairs.len(),
            m == max_pairs(ps.take(i as int)),
        decreases pairs.len() - i,
    {
        assert(ps.take(i + 1).drop_last() =~= ps.take(i as int));
        if pairs[i].len() > m {
            m = pairs[i].len();
        }
        i = i + 1;
    }
    assert(ps.take(pairs.len() as int) =~= ps);
    m
}

/// How many groups of four joints each vertex gets.
pub fn num_groups(max_joints: u32, unlimited: bool) -> (g: u32)
    requires
        unlimited || max_joints >= 1,
    ensures
        g == num_groups_spec(max_joints as nat, unlimited),
{
    let m: u32 = if unlimited { 4 } else { max_joints };
    (m - 1) / 4 + 1
}

} // verus!
