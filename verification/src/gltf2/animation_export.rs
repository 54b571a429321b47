//! Exporting animations into a glTF 2.0 document.
use vstd::prelude::*;

use crate::gltf_v1::names::{generate_unique_name, unique_name_spec, UniqueNames};

verus! {

/// A channel of a scene animation, as the exporter reads it: the name of
/// the node it moves and how many position, rotation and scaling keys it
/// has.
pub struct AnimationChannelInfo {
    pub node_name: String,
    pub position_keys: usize,
    pub rotation_keys: usize,
    pub scaling_keys: usize,
}

/// A scene animation: its name and its channels.
pub struct AnimationInfo {
    pub name: String,
    pub channels: Vec<AnimationChannelInfo>,
}

/// Whether an optional name is `name`.
pub open spec fn is_named(o: Option<String>, name: Seq<char>) -> bool {
    match o {
        Some(n) => n@ == name,
        None => false,
    }
}

/// Whether some exported node is named `name`.
pub open spec fn node_named(node_names: Seq<Option<String>>, name: Seq<char>) -> bool {
    exists|i: int| 0 <= i < node_names.len() && is_named(#[trigger] node_names[i], name)
}

/// A channel that the exporter can write: it moves no exported node, or
/// it has no keys. (The key data of a channel that moves an exported node
/// is written through indices into a list that has no entries yet, which
/// fails.)
pub open spec fn channel_writable(node_names: Seq<Option<String>>, c: AnimationChannelInfo) -> bool {
    node_named(node_names, c.node_name@) ==> c.position_keys == 0 && c.rotation_keys == 0 && c.scaling_keys == 0
}

/// The names the animations are exported under, each asked for as the
/// animation's own name, in order, with the name table after them.
pub open spec fn animation_names_spec(keys: Seq<Seq<char>>, cs: Seq<u32>, anims: Seq<AnimationInfo>)
    -> (Seq<Seq<char>>, Seq<Seq<char>>, Seq<u32>)
    decreases anims.len(),
{
    if anims.len() == 0 {
        (Seq::empty(), keys, cs)
    } else {
        let r = animation_names_spec(keys, cs, anims.drop_last());
        let u = unique_name_spec(r.1, r.2, anims.last().name@);
        (r.0.push(u.0), u.1, u.2)
    }
}

/// Exports the animations: each gets a unique name and, since no channel
/// that moves an exported node has keys, no channels and no samplers.
/// Returns the names, in order.
pub fn export_animation_names(
    anims: &Vec<AnimationInfo>,
    node_names: &Vec<Option<String>>,
    names: &mut UniqueNames,
) -> (r: Vec<String>)
    requires
        forall|a: int, c: int| 0 <= a < anims@.len() && 0 <= c < anims@[a].channels@.len()
            ==> channel_writable(node_names@, #[trigger] anims@[a].channels@[c]),
        old(names).wf(),
        old(names).key_seq().len() + old(names).calls() + 2 * anims@.len() < u32::MAX,
    ensures
        final(names).wf(),
        ({
            let w = animation_names_spec(old(names).key_seq(), old(names).counter_seq(), anims@);
            &&& r@.map_values(|s: String| s@) == w.0
            &&& final(names).key_seq() == w.1
            &&& final(names).counter_seq() == w.2
        }),
{
    let ghost k0 = names.key_seq();
    let ghost c0 = names.counter_seq();
    let ghost calls0 = names.calls();
    let mut r: Vec<String> = Vec::new();
    let mut a: usize = 0;
    assert(anims@.take(0) =~= Seq::<AnimationInfo>::empty());
    assert(r@.map_values(|s: String| s@) =~= Seq::<Seq<char>>::empty());
    while a < anims.len()
        invariant
            forall|x: int, c: int| 0 <= x < anims@.len() && 0 <= c < anims@[x].channels@.len()
                ==> channel_writable(node_names@, #[trigger] anims@[x].channels@[c]),
            a <= anims@.len(),
            names.wf(),
            names.calls() == calls0 + a,
            names.key_seq().len() <= k0.len() + a,
            k0.len() + calls0 + 2 * anims@.len() < u32::MAX,
            ({
                let w = animation_names_spec(k0, c0, anims@.take(a as int));
                &&& r@.map_values(|s: String| s@) == w.0
                &&& names.key_seq() == w.1
                &&& names.counter_seq() == w.2
            }),
        decreases anims@.len() - a,
    {
        let anim = &anims[a];
        assert(anims@.take(a + 1).drop_last() =~= anims@.take(a as int));
        assert(anims@.take(a + 1).last() == *anim);
        let ghost rv = r@.map_values(|s: String| s@);
        proof { names.lemma_counters_have_room(); }
        let name = generate_unique_name(anim.name.as_str(), names);
        r.push(name);
        assert(r@.map_values(|s: String| s@) =~= rv.push(name@));
        a = a + 1;
    }
    assert(anims@.take(anims@.len() as int) =~= anims@);
    r
}

} // verus!
